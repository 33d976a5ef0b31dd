//! What is on the screen: texts and styles, without the terminal.

use ratatui::layout::Rect;
use ratatui::widgets::Block;
use ratatui::widgets::Borders;
use vstd::prelude::*;

use crate::app;
use crate::app::App;
use crate::app::AppModel;
use crate::app::GitignorePrompt;
use crate::app::Pane;
use crate::app::display_path;
use crate::fs_tree::EntryModel;
use crate::fs_tree::TreeEntryKind;
use crate::fs_tree::VisibleEntry;
use crate::review;
use crate::review::FileReview;
use crate::review::LineState;
use crate::review::ReviewModel;
use crate::review::ReviewStats;
use crate::text;

verus! {

/// The colors in use.
#[derive(Clone, Copy, Debug, PartialEq, Eq, Structural)]
pub enum Color {
    Blue,
    DarkGray,
    Gray,
    Green,
    White,
    Yellow,
}

/// How a text looks. A color that is not set is left to the terminal.
#[derive(Clone, Copy, Debug, PartialEq, Eq, Structural)]
pub struct TextStyle {
    pub fg: Option<Color>,
    pub bg: Option<Color>,
    pub bold: bool,
    pub underlined: bool,
}

/// No style at all.
pub open spec fn plain_style() -> TextStyle {
    TextStyle { fg: None, bg: None, bold: false, underlined: false }
}

/// A text color.
pub open spec fn colored(fg: Color) -> TextStyle {
    TextStyle { fg: Some(fg), ..plain_style() }
}

/// A text color in bold.
pub open spec fn strong(fg: Color) -> TextStyle {
    TextStyle { fg: Some(fg), bold: true, ..plain_style() }
}

/// White on a color, in bold.
pub open spec fn inverted(bg: Color) -> TextStyle {
    TextStyle { fg: Some(Color::White), bg: Some(bg), bold: true, underlined: false }
}

/// A text in one style.
#[verifier::ext_equal]
pub struct SpanModel {
    pub text: Seq<char>,
    pub style: TextStyle,
}

/// A line of the screen.
#[verifier::ext_equal]
pub struct RowModel {
    pub spans: Seq<SpanModel>,
    pub style: TextStyle,
}

/// A text in one style.
#[derive(Debug)]
pub struct Span {
    pub text: String,
    pub style: TextStyle,
}

impl View for Span {
    type V = SpanModel;

    open spec fn view(&self) -> SpanModel {
        SpanModel { text: self.text@, style: self.style }
    }
}

/// A line of the screen.
#[derive(Debug)]
pub struct Row {
    pub spans: Vec<Span>,
    pub style: TextStyle,
}

/// The models of several texts.
pub open spec fn span_views(v: Seq<Span>) -> Seq<SpanModel> {
    v.map_values(|s: Span| s@)
}

impl View for Row {
    type V = RowModel;

    open spec fn view(&self) -> RowModel {
        RowModel { spans: span_views(self.spans@), style: self.style }
    }
}

/// The models of several lines.
pub open spec fn row_views(v: Seq<Row>) -> Seq<RowModel> {
    v.map_values(|r: Row| r@)
}

/// A text in a style.
pub open spec fn styled(text: Seq<char>, style: TextStyle) -> SpanModel {
    SpanModel { text, style }
}

/// A text without a style.
pub open spec fn raw(text: Seq<char>) -> SpanModel {
    SpanModel { text, style: plain_style() }
}

/// A line without a style of its own.
pub open spec fn row_of(spans: Seq<SpanModel>) -> RowModel {
    RowModel { spans, style: plain_style() }
}

/// `n` spaces.
pub open spec fn spaces(n: nat) -> Seq<char> {
    Seq::new(n, |i: int| ' ')
}

fn no_style() -> (r: TextStyle)
    ensures
        r == plain_style(),
{
    TextStyle { fg: None, bg: None, bold: false, underlined: false }
}

fn color_style(fg: Color) -> (r: TextStyle)
    ensures
        r == colored(fg),
{
    TextStyle { fg: Some(fg), bg: None, bold: false, underlined: false }
}

fn strong_style(fg: Color) -> (r: TextStyle)
    ensures
        r == strong(fg),
{
    TextStyle { fg: Some(fg), bg: None, bold: true, underlined: false }
}

fn inverted_style(bg: Color) -> (r: TextStyle)
    ensures
        r == inverted(bg),
{
    TextStyle { fg: Some(Color::White), bg: Some(bg), bold: true, underlined: false }
}

fn span(text: String, style: TextStyle) -> (r: Span)
    ensures
        r@ == styled(text@, style),
{
    Span { text, style }
}

fn label(text: &str, style: TextStyle) -> (r: Span)
    ensures
        r@ == styled(text@, style),
{
    Span { text: text.to_owned(), style }
}

fn one_span(s: Span) -> (r: Row)
    ensures
        r@ == row_of(seq![s@]),
{
    let mut spans: Vec<Span> = Vec::new();
    spans.push(s);
    assert(span_views(spans@) =~= seq![s@]);
    Row { spans, style: no_style() }
}

fn two_spans(a: Span, b: Span) -> (r: Row)
    ensures
        r@ == row_of(seq![a@, b@]),
{
    let mut spans: Vec<Span> = Vec::new();
    spans.push(a);
    spans.push(b);
    assert(span_views(spans@) =~= seq![a@, b@]);
    Row { spans, style: no_style() }
}

fn four_spans(a: Span, b: Span, c: Span, d: Span, style: TextStyle) -> (r: Row)
    ensures
        r@ == (RowModel { spans: seq![a@, b@, c@, d@], style }),
{
    let mut spans: Vec<Span> = Vec::new();
    spans.push(a);
    spans.push(b);
    spans.push(c);
    spans.push(d);
    assert(span_views(spans@) =~= seq![a@, b@, c@, d@]);
    Row { spans, style }
}

fn number(n: usize) -> (r: String)
    ensures
        r@ == text::decimal(n as nat),
{
    text::string_of(text::decimal_chars(n).as_slice())
}

fn numbered(before: &str, n: usize) -> (r: String)
    ensures
        r@ == before@ + text::decimal(n as nat),
{
    let mut r: String = before.to_owned();
    r.append(number(n).as_str());
    r
}

/// The border of a pane.
pub open spec fn border_of(focused: bool) -> TextStyle {
    if focused {
        strong(Color::Blue)
    } else {
        plain_style()
    }
}

/// The border of a pane.
pub fn pane_border(focused: bool) -> (r: TextStyle)
    ensures
        r == border_of(focused),
{
    if focused {
        strong_style(Color::Blue)
    } else {
        no_style()
    }
}

/// The name of a pane.
pub open spec fn name_of(pane: Pane) -> Seq<char> {
    match pane {
        Pane::Overview => "1 Review"@,
        Pane::Files => "2 Files"@,
        Pane::Viewer => "3 Viewer"@,
    }
}

/// The name of a pane.
pub fn pane_name(pane: Pane) -> (r: &'static str)
    ensures
        r@ == name_of(pane),
{
    match pane {
        Pane::Overview => "1 Review",
        Pane::Files => "2 Files",
        Pane::Viewer => "3 Viewer",
    }
}

/// The style of a line in a state.
pub open spec fn style_of(state: LineState) -> TextStyle {
    match state {
        LineState::Unreviewed => colored(Color::Gray),
        LineState::Accepted => colored(Color::Green),
        LineState::Rejected => colored(Color::Yellow),
    }
}

/// The style of a line in a state.
pub fn line_style(state: LineState) -> (r: TextStyle)
    ensures
        r == style_of(state),
{
    match state {
        LineState::Unreviewed => color_style(Color::Gray),
        LineState::Accepted => color_style(Color::Green),
        LineState::Rejected => color_style(Color::Yellow),
    }
}

/// The mark in front of a line in a state.
pub open spec fn marker_of(state: LineState) -> Seq<char> {
    match state {
        LineState::Unreviewed => "? "@,
        LineState::Accepted => "+ "@,
        LineState::Rejected => "! "@,
    }
}

/// The mark in front of a line in a state.
pub fn review_marker(state: LineState) -> (r: &'static str)
    ensures
        r@ == marker_of(state),
{
    match state {
        LineState::Unreviewed => "? ",
        LineState::Accepted => "+ ",
        LineState::Rejected => "! ",
    }
}

/// The width of the left column on a screen of this width: half of a narrow screen, between
/// 18 and 34, else 34; and always less than the screen, as long as that has three columns.
pub open spec fn sidebar_columns(width: int) -> int {
    let desired = if width >= 70 {
        34
    } else if width / 2 < 18 {
        18
    } else if width / 2 > 34 {
        34
    } else {
        width / 2
    };
    if width <= 2 {
        width
    } else if desired < width - 1 {
        desired
    } else {
        width - 1
    }
}

/// The width of the left column.
pub fn sidebar_width(width: u16) -> (r: u16)
    ensures
        r == sidebar_columns(width as int),
        r <= width,
        width > 2 ==> r < width,
{
    if width <= 2 {
        return width;
    }
    let half: u16 = width / 2;
    let desired: u16 = if width >= 70 || half > 34 {
        34
    } else if half < 18 {
        18
    } else {
        half
    };
    if desired < width - 1 {
        desired
    } else {
        width - 1
    }
}

/// A part of the screen.
#[derive(Clone, Copy, Debug, PartialEq, Eq, Structural)]
pub struct Area {
    pub x: u16,
    pub y: u16,
    pub width: u16,
    pub height: u16,
}

/// How large the parts of the screen are to be. The sizes called least are those of the parts
/// that take what is left.
#[derive(Clone, Copy, Debug, PartialEq, Eq, Structural)]
pub struct ScreenSizes {
    /// Everything above the footer.
    pub least_body_height: u16,
    pub footer_height: u16,
    /// The left column, and what stands beside it.
    pub sidebar_width: u16,
    pub least_main_width: u16,
    /// The overview, and the explorer below it.
    pub overview_height: u16,
    pub least_tree_height: u16,
    /// The question in the middle of the screen.
    pub question_width: u16,
    pub question_height: u16,
}

/// The sizes on a screen. The question is 60 columns wide and 7 rows high, as far as the
/// screen goes.
pub open spec fn sizes_on(screen: Area) -> ScreenSizes {
    ScreenSizes {
        least_body_height: 1,
        footer_height: 2,
        sidebar_width: sidebar_columns(screen.width as int) as u16,
        least_main_width: 1,
        overview_height: 9,
        least_tree_height: 8,
        question_width: review::at_most(60, screen.width as int) as u16,
        question_height: review::at_most(7, screen.height as int) as u16,
    }
}

/// The sizes on a screen.
pub fn screen_sizes(screen: Area) -> (r: ScreenSizes)
    ensures
        r == sizes_on(screen),
        r.sidebar_width <= screen.width,
        r.question_width <= screen.width,
        r.question_height <= screen.height,
{
    ScreenSizes {
        least_body_height: 1,
        footer_height: 2,
        sidebar_width: sidebar_width(screen.width),
        least_main_width: 1,
        overview_height: 9,
        least_tree_height: 8,
        question_width: if screen.width < 60 {
            screen.width
        } else {
            60
        },
        question_height: if screen.height < 7 {
            screen.height
        } else {
            7
        },
    }
}

/// One column or row further in, but not beyond the end, in sixteen bits.
pub open spec fn one_in(start: u16, size: u16) -> int {
    review::at_most(start + review::at_most(size as int, 1), u16::MAX as int)
}

/// The size between two borders.
pub open spec fn between_borders(size: u16) -> int {
    if size < 2 {
        0
    } else {
        size - 2
    }
}

/// Calls `Block::inner` of the crate `ratatui` for a block with borders on all sides: what
/// lies between the borders of `area`.
#[verifier::external_body]
fn inside_borders(area: Area) -> (r: Area)
    ensures
        r.x == one_in(area.x, area.width),
        r.y == one_in(area.y, area.height),
        r.width == between_borders(area.width),
        r.height == between_borders(area.height),
{
    let outer = Rect { x: area.x, y: area.y, width: area.width, height: area.height };
    let inner = Block::default().borders(Borders::ALL).inner(outer);
    Area { x: inner.x, y: inner.y, width: inner.width, height: inner.height }
}

/// The overview: the share of reviewed lines, and how many lines there are in each state.
pub open spec fn overview(stats: ReviewStats) -> Seq<RowModel> {
    let reviewed = (stats.accepted + stats.rejected) as nat;
    seq![
        row_of(
            seq![
                styled(
                    text::decimal(review::percent(stats) as nat) + "%"@,
                    strong(Color::Green),
                ),
                raw(" reviewed"@),
            ],
        ),
        row_of(seq![raw("Understood: "@ + text::decimal(stats.accepted as nat))]),
        row_of(
            seq![
                styled(
                    "Rejected: "@ + text::decimal(stats.rejected as nat),
                    colored(Color::Yellow),
                ),
            ],
        ),
        row_of(seq![raw("Unreviewed: "@ + text::decimal(stats.unreviewed as nat))]),
        row_of(
            seq![
                raw(
                    "Total: "@ + text::decimal(reviewed) + "/"@ + text::decimal(
                        stats.total as nat,
                    ),
                ),
            ],
        ),
    ]
}

/// The row of the explorer for an entry.
pub open spec fn tree_row(
    entry: EntryModel,
    is_selected: bool,
    is_open: bool,
    has_focus: bool,
) -> RowModel {
    let style = if is_selected && has_focus {
        inverted(Color::Blue)
    } else if is_selected {
        inverted(Color::DarkGray)
    } else if is_open {
        strong(Color::Green)
    } else {
        plain_style()
    };
    let selected_marker = if is_selected {
        "> "@
    } else if is_open {
        "* "@
    } else {
        "  "@
    };
    let marker = match entry.kind {
        TreeEntryKind::Directory => if entry.expanded {
            "v "@
        } else {
            "> "@
        },
        TreeEntryKind::File => "  "@,
    };
    RowModel {
        spans: seq![
            styled(selected_marker, style),
            raw(spaces(2 * entry.depth)),
            raw(marker),
            raw(entry.name),
        ],
        style,
    }
}

/// The rows of the explorer.
pub open spec fn tree_rows(app: AppModel) -> Seq<RowModel> {
    Seq::new(
        app.tree.visible.len(),
        |i: int|
            tree_row(
                app.tree.visible[i],
                i == app.tree.selected,
                app.file == Some(app.tree.visible[i].path),
                app.pane == Pane::Files,
            ),
    )
}

/// What is said of the repository.
pub open spec fn repo_info(app: AppModel) -> Seq<RowModel> {
    let bold = TextStyle { bold: true, ..plain_style() };
    let link = match app.repo_link {
        Some(link) => link,
        None => "No git remote configured"@,
    };
    seq![
        row_of(seq![raw("Git repository"@)]),
        row_of(seq![raw(""@)]),
        row_of(
            seq![
                styled("Remote: "@, bold),
                styled(link, TextStyle { underlined: true, ..colored(Color::Blue) }),
            ],
        ),
        row_of(seq![styled("Path:   "@, bold), raw(app.root.text())]),
    ]
}

/// The keys of a pane and what they do.
pub open spec fn shortcuts(pane: Pane) -> Seq<(Seq<char>, Seq<char>)> {
    match pane {
        Pane::Overview => seq![("tab"@, "next pane"@), ("h/l"@, "switch pane"@)],
        Pane::Files => seq![
            ("j/k"@, "move"@),
            ("enter"@, "open"@),
            ("space"@, "toggle"@),
            ("a"@, "accept file"@),
            ("r"@, "reject file"@),
            ("i"@, "ignore"@),
            ("<-/->"@, "tree"@),
        ],
        Pane::Viewer => seq![
            ("j/k"@, "line"@),
            ("a"@, "accept"@),
            ("r"@, "reject"@),
            ("u"@, "unreview"@),
            ("pgup/pgdn"@, "scroll"@),
        ],
    }
}

/// Keys and what they do, with bars between them.
pub open spec fn shortcut_spans(parts: Seq<(Seq<char>, Seq<char>)>) -> Seq<SpanModel>
    decreases parts.len(),
{
    if parts.len() == 0 {
        Seq::empty()
    } else {
        let front = shortcut_spans(parts.drop_last());
        let text_style = colored(Color::Blue);
        let before = if parts.len() > 1 {
            front.push(styled(" | "@, text_style))
        } else {
            front
        };
        before.push(styled(parts.last().0, strong(Color::Blue))).push(
            styled(" "@, text_style),
        ).push(styled(parts.last().1, text_style))
    }
}

/// The footer: the pane and the status, and the keys of the pane.
pub open spec fn footer(app: AppModel) -> Seq<RowModel> {
    seq![
        row_of(
            seq![
                styled("["@ + name_of(app.pane) + "] "@, strong(Color::Yellow)),
                styled(app.status, colored(Color::Gray)),
            ],
        ),
        RowModel { spans: shortcut_spans(shortcuts(app.pane)), style: colored(Color::Blue) },
    ]
}

/// The question about `.gitignore`.
pub open spec fn gitignore_question() -> Seq<RowModel> {
    let bold = TextStyle { bold: true, ..plain_style() };
    seq![
        row_of(seq![raw("This git repo has no .debth/ entry in .gitignore."@)]),
        row_of(seq![raw("Add it now?"@)]),
        row_of(seq![raw(""@)]),
        row_of(
            seq![styled("y"@, bold), raw(" yes    "@), styled("n"@, bold), raw(" no"@)],
        ),
    ]
}

fn push_row(rows: &mut Vec<Row>, row: Row)
    ensures
        row_views(final(rows)@) == row_views(old(rows)@).push(row@),
{
    rows.push(row);
    assert(row_views(rows@) =~= row_views(old(rows)@).push(row@));
}

fn push_span(spans: &mut Vec<Span>, s: Span)
    ensures
        span_views(final(spans)@) == span_views(old(spans)@).push(s@),
{
    spans.push(s);
    assert(span_views(spans@) =~= span_views(old(spans)@).push(s@));
}

fn bold_style() -> (r: TextStyle)
    ensures
        r == (TextStyle { bold: true, ..plain_style() }),
{
    TextStyle { fg: None, bg: None, bold: true, underlined: false }
}

/// The overview.
pub fn render_overview(stats: ReviewStats) -> (r: Vec<Row>)
    requires
        stats.accepted + stats.rejected <= usize::MAX,
    ensures
        row_views(r@) == overview(stats),
{
    let mut share = number(stats.reviewed_percent() as usize);
    share.append("%");
    let mut total = numbered("Total: ", stats.reviewed());
    total.append("/");
    total.append(number(stats.total).as_str());
    let mut rows: Vec<Row> = Vec::new();
    push_row(
        &mut rows,
        two_spans(span(share, strong_style(Color::Green)), label(" reviewed", no_style())),
    );
    push_row(&mut rows, one_span(span(numbered("Understood: ", stats.accepted), no_style())));
    push_row(
        &mut rows,
        one_span(span(numbered("Rejected: ", stats.rejected), color_style(Color::Yellow))),
    );
    push_row(&mut rows, one_span(span(numbered("Unreviewed: ", stats.unreviewed), no_style())));
    push_row(&mut rows, one_span(span(total, no_style())));
    assert(row_views(rows@) =~= overview(stats));
    rows
}

fn indentation(depth: usize) -> (r: String)
    ensures
        r@ == spaces(2 * depth as nat),
{
    let mut r: String = String::new();
    let mut i: usize = 0;
    assert(r@ =~= spaces(0));
    while i < depth
        invariant
            i <= depth,
            r@ == spaces(2 * i as nat),
        decreases depth - i,
    {
        r.push(' ');
        r.push(' ');
        i = i + 1;
        assert(r@ =~= spaces(2 * i as nat));
    }
    r
}

fn render_entry(entry: &VisibleEntry, is_selected: bool, is_open: bool, has_focus: bool) -> (r: Row)
    ensures
        r@ == tree_row(entry@, is_selected, is_open, has_focus),
{
    let style = if is_selected && has_focus {
        inverted_style(Color::Blue)
    } else if is_selected {
        inverted_style(Color::DarkGray)
    } else if is_open {
        strong_style(Color::Green)
    } else {
        no_style()
    };
    let selected_marker = if is_selected {
        "> "
    } else if is_open {
        "* "
    } else {
        "  "
    };
    let marker = match entry.kind {
        TreeEntryKind::Directory => if entry.expanded {
            "v "
        } else {
            "> "
        },
        TreeEntryKind::File => "  ",
    };
    four_spans(
        label(selected_marker, style),
        span(indentation(entry.depth), no_style()),
        label(marker, no_style()),
        label(entry.name.as_str(), no_style()),
        style,
    )
}

/// The rows of the explorer.
pub fn render_tree(app: &App) -> (r: Vec<Row>)
    ensures
        row_views(r@) == tree_rows(app@),
{
    let visible = app.tree().visible();
    let selected: usize = app.tree().selected();
    let has_focus = app.active_pane() == Pane::Files;
    let current = app.current_file();
    let ghost all = tree_rows(app@);
    let mut rows: Vec<Row> = Vec::new();
    let mut i: usize = 0;
    assert(row_views(rows@) =~= all.take(0));
    while i < visible.len()
        invariant
            i <= visible@.len(),
            crate::fs_tree::entry_views(visible@) == app@.tree.visible,
            selected == app@.tree.selected,
            has_focus == (app@.pane == Pane::Files),
            match current {
                Some(path) => app@.file == Some(path@),
                None => app@.file is None,
            },
            all == tree_rows(app@),
            row_views(rows@) == all.take(i as int),
        decreases visible@.len() - i,
    {
        assert(app@.tree.visible[i as int] == visible@[i as int]@);
        let is_open = match current {
            Some(path) => path.same(&visible[i].path),
            None => false,
        };
        push_row(&mut rows, render_entry(&visible[i], i == selected, is_open, has_focus));
        assert(all.take(i + 1) =~= all.take(i as int).push(all[i as int]));
        i = i + 1;
    }
    assert(all.take(all.len() as int) =~= all);
    rows
}

/// What is said of the repository.
pub fn render_repo_info(app: &App) -> (r: Vec<Row>)
    ensures
        row_views(r@) == repo_info(app@),
{
    let link = match app.repo_link() {
        Some(link) => link.as_str(),
        None => "No git remote configured",
    };
    assert(Some(link@) == app@.repo_link || (app@.repo_link is None && link@
        == "No git remote configured"@));
    let link_style = TextStyle { fg: Some(Color::Blue), bg: None, bold: false, underlined: true };
    let mut rows: Vec<Row> = Vec::new();
    push_row(&mut rows, one_span(label("Git repository", no_style())));
    push_row(&mut rows, one_span(label("", no_style())));
    push_row(&mut rows, two_spans(label("Remote: ", bold_style()), label(link, link_style)));
    push_row(
        &mut rows,
        two_spans(label("Path:   ", bold_style()), span(app.root().to_text(), no_style())),
    );
    assert(row_views(rows@)[2] =~= repo_info(app@)[2]);
    assert(row_views(rows@) =~= repo_info(app@));
    rows
}

/// The contents of pairs of texts.
pub open spec fn pair_views(v: Seq<(&'static str, &'static str)>) -> Seq<(Seq<char>, Seq<char>)> {
    v.map_values(|p: (&'static str, &'static str)| (p.0@, p.1@))
}

fn shortcut_list(pane: Pane) -> (r: Vec<(&'static str, &'static str)>)
    ensures
        pair_views(r@) == shortcuts(pane),
{
    let mut r: Vec<(&'static str, &'static str)> = Vec::new();
    match pane {
        Pane::Overview => {
            r.push(("tab", "next pane"));
            r.push(("h/l", "switch pane"));
        },
        Pane::Files => {
            r.push(("j/k", "move"));
            r.push(("enter", "open"));
            r.push(("space", "toggle"));
            r.push(("a", "accept file"));
            r.push(("r", "reject file"));
            r.push(("i", "ignore"));
            r.push(("<-/->", "tree"));
        },
        Pane::Viewer => {
            r.push(("j/k", "line"));
            r.push(("a", "accept"));
            r.push(("r", "reject"));
            r.push(("u", "unreview"));
            r.push(("pgup/pgdn", "scroll"));
        },
    }
    assert(pair_views(r@) =~= shortcuts(pane));
    r
}

/// The keys of a pane and what they do.
pub fn shortcut_line(pane: Pane) -> (r: Row)
    ensures
        r@ == (RowModel { spans: shortcut_spans(shortcuts(pane)), style: colored(Color::Blue) }),
{
    let parts = shortcut_list(pane);
    let ghost all = pair_views(parts@);
    let mut spans: Vec<Span> = Vec::new();
    let mut i: usize = 0;
    assert(span_views(spans@) =~= shortcut_spans(all.take(0)));
    while i < parts.len()
        invariant
            i <= parts@.len(),
            all == pair_views(parts@),
            span_views(spans@) == shortcut_spans(all.take(i as int)),
        decreases parts@.len() - i,
    {
        let ghost now = all.take(i + 1);
        assert(now.drop_last() =~= all.take(i as int));
        assert(now.last() == (parts@[i as int].0@, parts@[i as int].1@));
        if i > 0 {
            push_span(&mut spans, label(" | ", color_style(Color::Blue)));
        }
        let (shortcut, description) = parts[i];
        push_span(&mut spans, label(shortcut, strong_style(Color::Blue)));
        push_span(&mut spans, label(" ", color_style(Color::Blue)));
        push_span(&mut spans, label(description, color_style(Color::Blue)));
        i = i + 1;
    }
    assert(all.take(all.len() as int) =~= all);
    Row { spans, style: color_style(Color::Blue) }
}

/// The footer.
pub fn render_footer(app: &App) -> (r: Vec<Row>)
    ensures
        row_views(r@) == footer(app@),
{
    let mut name: String = "[".to_owned();
    name.append(pane_name(app.active_pane()));
    name.append("] ");
    let mut rows: Vec<Row> = Vec::new();
    push_row(
        &mut rows,
        two_spans(
            span(name, strong_style(Color::Yellow)),
            label(app.status(), color_style(Color::Gray)),
        ),
    );
    push_row(&mut rows, shortcut_line(app.active_pane()));
    assert(row_views(rows@) =~= footer(app@));
    rows
}

/// The question about `.gitignore`.
pub fn render_gitignore_prompt() -> (r: Vec<Row>)
    ensures
        row_views(r@) == gitignore_question(),
{
    let mut rows: Vec<Row> = Vec::new();
    push_row(
        &mut rows,
        one_span(label("This git repo has no .debth/ entry in .gitignore.", no_style())),
    );
    push_row(&mut rows, one_span(label("Add it now?", no_style())));
    push_row(&mut rows, one_span(label("", no_style())));
    push_row(
        &mut rows,
        four_spans(
            label("y", bold_style()),
            label(" yes    ", no_style()),
            label("n", bold_style()),
            label(" no", no_style()),
            no_style(),
        ),
    );
    assert(row_views(rows@) =~= gitignore_question());
    rows
}

/// How wide the line numbers of a file are.
pub open spec fn number_width(lines: nat) -> nat {
    let digits = text::decimal(lines).len();
    if digits < 3 {
        3
    } else {
        digits
    }
}

/// A text with spaces in front, so that it takes `width` columns.
pub open spec fn right_aligned(s: Seq<char>, width: nat) -> Seq<char> {
    if s.len() < width {
        spaces((width - s.len()) as nat) + s
    } else {
        s
    }
}

/// How many columns are left for the text of a line.
pub open spec fn text_columns(width: nat, lines: nat) -> nat {
    if width < number_width(lines) + 4 {
        0
    } else {
        (width - number_width(lines) - 4) as nat
    }
}

/// The text of a line as it is shown: four spaces for a tab, and three dots behind as much
/// as fits, less one, where not all of it does.
pub open spec fn shown_text(line: Seq<char>, available: nat) -> Seq<char> {
    let wide = text::replace(line, '\t', "    "@);
    if wide.len() > available {
        wide.take(
            if available == 0 {
                0
            } else {
                available - 1
            },
        ) + "..."@
    } else {
        wide
    }
}

/// The row of the viewer for line `i`.
pub open spec fn viewer_row(review: ReviewModel, i: int, cursor: nat, width: nat) -> RowModel {
    let state = review::state_at(review.states, i);
    let state_style = if i == cursor {
        inverted(Color::Blue)
    } else {
        style_of(state)
    };
    let number_style = if i == cursor {
        state_style
    } else {
        colored(Color::DarkGray)
    };
    let n = review.lines.len();
    row_of(
        seq![
            styled(
                if i == cursor {
                    "> "@
                } else {
                    "  "@
                },
                number_style,
            ),
            styled(
                right_aligned(text::decimal((i + 1) as nat), number_width(n)) + " "@,
                number_style,
            ),
            styled(marker_of(state), TextStyle { bold: true, ..state_style }),
            styled(shown_text(review.lines[i], text_columns(width, n)), state_style),
        ],
    )
}

/// How many lines are shown from line `start` on.
pub open spec fn lines_shown(start: nat, height: nat, lines: nat) -> nat {
    if start + height < lines {
        height
    } else {
        (lines - start) as nat
    }
}

/// The rows of the viewer.
pub open spec fn viewer_rows(
    review: ReviewModel,
    start: nat,
    cursor: nat,
    width: nat,
    height: nat,
) -> Seq<RowModel> {
    Seq::new(
        lines_shown(start, height, review.lines.len()),
        |k: int| viewer_row(review, start + k, cursor, width),
    )
}

/// What the viewer shows.
#[derive(Debug)]
pub enum ViewerContent {
    /// No file is open.
    NoFile,
    /// The open file has no lines.
    EmptyFile,
    /// The lines of the open file.
    Lines(Vec<Row>),
}

/// The viewer.
#[derive(Debug)]
pub struct ViewerPane {
    pub title: String,
    pub border: TextStyle,
    /// The part between the borders.
    pub inner: Area,
    pub content: ViewerContent,
}

/// Whether the viewer shows the open file in `area`: what lies between its borders, and in
/// it the lines from the first one shown on.
pub open spec fn shows_file(app: AppModel, area: Area, pane: ViewerPane) -> bool {
    &&& pane.title@ == "[3] "@ + match app.file {
        Some(path) => app::shown_path(app.root, path),
        None => "No file selected"@,
    }
    &&& pane.border == border_of(app.pane == Pane::Viewer)
    &&& pane.inner.x == one_in(area.x, area.width)
    &&& pane.inner.y == one_in(area.y, area.height)
    &&& pane.inner.width == between_borders(area.width)
    &&& pane.inner.height == between_borders(area.height)
    &&& match pane.content {
        ViewerContent::NoFile => app.review is None,
        ViewerContent::EmptyFile => app.review is Some && app.review->0.lines.len() == 0,
        ViewerContent::Lines(rows) => {
            &&& app.review is Some && app.review->0.lines.len() > 0
            &&& row_views(rows@) == viewer_rows(
                app.review->0,
                app.scroll,
                app.line,
                pane.inner.width as nat,
                pane.inner.height as nat,
            )
        },
    }
}

fn aligned(digits: &[char], width: usize) -> (r: String)
    ensures
        r@ == right_aligned(digits@, width as nat) + " "@,
{
    let mut r: String = String::new();
    if digits.len() < width {
        let missing: usize = width - digits.len();
        let mut i: usize = 0;
        assert(r@ =~= spaces(0));
        while i < missing
            invariant
                i <= missing,
                r@ == spaces(i as nat),
            decreases missing - i,
        {
            r.push(' ');
            i = i + 1;
            assert(r@ =~= spaces(i as nat));
        }
    }
    let number = text::string_of(digits);
    r.append(number.as_str());
    assert(r@ =~= right_aligned(digits@, width as nat));
    r.append(" ");
    r
}

fn fit_text(line: &str, available: usize) -> (r: String)
    ensures
        r@ == shown_text(line@, available as nat),
{
    let cs = text::chars_of(line);
    let four = text::chars_of("    ");
    let wide = text::replaced(cs.as_slice(), '\t', four.as_slice());
    if wide.len() > available {
        let kept: usize = available.saturating_sub(1);
        let front = text::copy_range(wide.as_slice(), 0, kept);
        assert(front@ =~= wide@.take(kept as int));
        let mut r = text::string_of(front.as_slice());
        r.append("...");
        r
    } else {
        text::string_of(wide.as_slice())
    }
}

fn render_line(review: &FileReview, i: usize, cursor: usize, width: usize) -> (r: Row)
    requires
        i < review.lines@.len(),
    ensures
        r@ == viewer_row(review@, i as int, cursor as nat, width as nat),
{
    let state = if i < review.states.len() {
        review.states[i]
    } else {
        LineState::Unreviewed
    };
    let is_cursor = i == cursor;
    let state_style = if is_cursor {
        inverted_style(Color::Blue)
    } else {
        line_style(state)
    };
    let number_style = if is_cursor {
        state_style
    } else {
        color_style(Color::DarkGray)
    };
    let digits = text::decimal_chars(review.lines.len());
    let columns: usize = if digits.len() < 3 {
        3
    } else {
        digits.len()
    };
    let available: usize = if columns <= width && 4 <= width - columns {
        width - columns - 4
    } else {
        0
    };
    let number = text::decimal_chars(i + 1);
    let marker_style = TextStyle {
        fg: state_style.fg,
        bg: state_style.bg,
        bold: true,
        underlined: state_style.underlined,
    };
    let cursor_marker = if is_cursor {
        "> "
    } else {
        "  "
    };
    assert(review@.lines[i as int] == review.lines@[i as int]@);
    four_spans(
        label(cursor_marker, number_style),
        span(aligned(number.as_slice(), columns), number_style),
        label(review_marker(state), marker_style),
        span(fit_text(review.lines[i].as_str(), available), state_style),
        no_style(),
    )
}

fn render_lines(review: &FileReview, start: u16, cursor: usize, inner: Area) -> (r: Vec<Row>)
    requires
        start <= review.lines@.len(),
    ensures
        row_views(r@) == viewer_rows(
            review@,
            start as nat,
            cursor as nat,
            inner.width as nat,
            inner.height as nat,
        ),
{
    let first: usize = start as usize;
    let bottom: usize = first + inner.height as usize;
    let end: usize = if bottom < review.lines.len() {
        bottom
    } else {
        review.lines.len()
    };
    let ghost all = viewer_rows(
        review@,
        start as nat,
        cursor as nat,
        inner.width as nat,
        inner.height as nat,
    );
    let mut rows: Vec<Row> = Vec::new();
    let mut i: usize = first;
    assert(row_views(rows@) =~= all.take(0));
    while i < end
        invariant
            first <= i <= end <= review.lines@.len(),
            all.len() == end - first,
            first == start,
            all == viewer_rows(
                review@,
                start as nat,
                cursor as nat,
                inner.width as nat,
                inner.height as nat,
            ),
            row_views(rows@) == all.take(i - first),
        decreases end - i,
    {
        push_row(&mut rows, render_line(review, i, cursor, inner.width as usize));
        assert(all.take(i + 1 - first) =~= all.take(i - first).push(all[i - first]));
        i = i + 1;
    }
    assert(all.take(all.len() as int) =~= all);
    rows
}

/// The viewer in a part of the screen. How many lines it shows is kept for the cursor.
pub fn render_viewer(app: &mut App, area: Area) -> (r: ViewerPane)
    requires
        old(app)@.review is Some && old(app)@.review->0.lines.len() > 0 ==> old(app)@.scroll
            <= old(app)@.review->0.lines.len(),
    ensures
        final(app)@ == (AppModel { height: between_borders(area.height) as nat, ..old(app)@ }),
        shows_file(old(app)@, area, r),
        old(app)@.sound() ==> final(app)@.sound(),
{
    let mut title: String = "[3] ".to_owned();
    match app.current_file() {
        Some(path) => {
            title.append(display_path(app.root(), path).as_str());
        },
        None => {
            title.append("No file selected");
        },
    }
    let border = pane_border(app.active_pane() == Pane::Viewer);
    let inner = inside_borders(area);
    app.set_viewer_height(inner.height);
    let content = match app.current_review() {
        None => ViewerContent::NoFile,
        Some(review) => if review.lines.len() == 0 {
            ViewerContent::EmptyFile
        } else {
            ViewerContent::Lines(
                render_lines(review, app.scroll(), app.current_line(), inner),
            )
        },
    };
    ViewerPane { title, border, inner, content }
}

/// What stands beside the left column.
#[derive(Debug)]
pub enum MainPane {
    Repository(Vec<Row>),
    Viewer(ViewerPane),
}

/// Everything on the screen.
#[derive(Debug)]
pub struct Screen {
    pub overview: Vec<Row>,
    pub overview_border: TextStyle,
    pub tree: Vec<Row>,
    pub tree_border: TextStyle,
    pub main: MainPane,
    pub footer: Vec<Row>,
    /// The question about `.gitignore`, which lies over the rest.
    pub question: Option<Vec<Row>>,
}

/// Whether the state can be shown: the sum of reviewed lines is a machine number, and the
/// viewer, where it is on the screen, starts within the file.
pub open spec fn can_show(app: AppModel) -> bool {
    &&& app.stats.accepted + app.stats.rejected <= usize::MAX
    &&& app.pane != Pane::Overview && app.review is Some && app.review->0.lines.len() > 0
        ==> app.scroll <= app.review->0.lines.len()
}

/// Whether the state can be shown.
pub fn can_render(app: &App) -> (r: bool)
    ensures
        r == can_show(app@),
{
    let stats = app.stats();
    if stats.accepted > usize::MAX - stats.rejected {
        return false;
    }
    if app.active_pane() == Pane::Overview {
        return true;
    }
    match app.current_review() {
        Some(review) => review.lines.len() == 0 || app.scroll() as usize <= review.lines.len(),
        None => true,
    }
}

/// The screen. The viewer gives way to what is known of the repository while the overview
/// has the focus; `main` is the part of the screen that they share.
pub fn render(app: &mut App, main: Area) -> (r: Screen)
    requires
        can_show(old(app)@),
    ensures
        row_views(r.overview@) == overview(old(app)@.stats),
        r.overview_border == border_of(old(app)@.pane == Pane::Overview),
        row_views(r.tree@) == tree_rows(old(app)@),
        r.tree_border == border_of(old(app)@.pane == Pane::Files),
        match r.main {
            MainPane::Repository(rows) => {
                &&& old(app)@.pane == Pane::Overview
                &&& row_views(rows@) == repo_info(old(app)@)
                &&& final(app)@ == old(app)@
            },
            MainPane::Viewer(pane) => {
                &&& old(app)@.pane != Pane::Overview
                &&& shows_file(old(app)@, main, pane)
                &&& final(app)@ == (AppModel {
                    height: between_borders(main.height) as nat,
                    ..old(app)@
                })
            },
        },
        row_views(r.footer@) == footer(old(app)@),
        match r.question {
            Some(rows) => old(app)@.prompt == GitignorePrompt::Waiting && row_views(rows@)
                == gitignore_question(),
            None => old(app)@.prompt == GitignorePrompt::Hidden,
        },
        old(app)@.sound() ==> final(app)@.sound(),
{
    let overview = render_overview(app.stats());
    let overview_border = pane_border(app.active_pane() == Pane::Overview);
    let tree = render_tree(app);
    let tree_border = pane_border(app.active_pane() == Pane::Files);
    let footer = render_footer(app);
    let question = match app.prompt() {
        GitignorePrompt::Waiting => Some(render_gitignore_prompt()),
        GitignorePrompt::Hidden => None,
    };
    let main = if app.active_pane() == Pane::Overview {
        MainPane::Repository(render_repo_info(app))
    } else {
        MainPane::Viewer(render_viewer(app, main))
    };
    Screen { overview, overview_border, tree, tree_border, main, footer, question }
}

/// A state with the cursor in the file can be shown, as long as the workspace does not have
/// more lines than a machine number holds.
pub proof fn sound_state_can_be_shown(app: AppModel)
    requires
        app.sound(),
        app.cursor_fits(),
        app.stats.accepted + app.stats.rejected <= usize::MAX,
    ensures
        can_show(app),
{
}

} // verus!
