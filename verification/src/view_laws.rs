//! What stands on the screen, whatever the state is.

use vstd::prelude::*;

use crate::app;
use crate::app::AppModel;
use crate::app::Pane;
use crate::fs_tree::TreeEntryKind;
use crate::review;
use crate::review::LineState;
use crate::review::ReviewModel;
use crate::review::ReviewStats;
use crate::text;
use crate::text_laws;
use crate::view;
use crate::view::Area;
use crate::view::Color;
use crate::view::RowModel;
use crate::view::ViewerContent;
use crate::view::ViewerPane;

verus! {

/// Whether some text is a number, moved to the right by blanks, and a blank behind it.
pub open spec fn shows_number(shown: Seq<char>, n: nat) -> bool {
    exists|blanks: Seq<char>|
        (forall|i: int| 0 <= i < blanks.len() ==> blanks[i] == ' ') && #[trigger] (blanks
            + text::decimal(n)) + seq![' '] == shown
}

/// Whether a row of the viewer is the one for the line with this index: it has its number,
/// counted from one, the mark of its state, and its text, which is cut off where there is no
/// room for it beside them.
pub open spec fn is_row_of(row: RowModel, review: ReviewModel, line: int, width: nat) -> bool {
    &&& row.spans.len() == 4
    &&& shows_number(row.spans[1].text, (line + 1) as nat)
    &&& review.states[line] == LineState::Accepted ==> row.spans[2].text == "+ "@
    &&& review.states[line] == LineState::Rejected ==> row.spans[2].text == "! "@
    &&& review.states[line] == LineState::Unreviewed ==> row.spans[2].text == "? "@
    &&& !review.lines[line].contains('\t') ==> ({
        let room = width - row.spans[1].text.len() - 3;
        let line = review.lines[line];
        &&& line.len() <= room || line.len() == 0 ==> row.spans[3].text == line
        &&& line.len() > room && line.len() > 0 ==> row.spans[3].text == line.take(
            if room > 1 {
                room - 1
            } else {
                0
            },
        ) + "..."@
    })
}

proof fn lemma_aligned(n: nat, width: nat)
    ensures
        shows_number(view::right_aligned(text::decimal(n), width) + " "@, n),
        text::decimal(n).len() <= width ==> view::right_aligned(text::decimal(n), width).len()
            == width,
{
    reveal_strlit(" ");
    let digits = text::decimal(n);
    let blanks = if digits.len() < width {
        view::spaces((width - digits.len()) as nat)
    } else {
        Seq::empty()
    };
    assert(view::right_aligned(digits, width) =~= blanks + digits);
    assert(" "@ =~= seq![' ']);
    assert((blanks + digits) + seq![' '] == view::right_aligned(digits, width) + " "@);
}

proof fn lemma_three_digits(n: nat)
    ensures
        n < 1000 ==> text::decimal(n).len() <= 3,
        n >= 1000 ==> text::decimal(n).len() > 3,
{
    text_laws::larger_numbers_are_not_shorter(1000, if n >= 1000 {
        n
    } else {
        1000
    });
    reveal_with_fuel(text::decimal, 4);
}

/// The row at `k` is the one for the line that many lines below the first line shown: it has
/// the number, the mark and the text of that line. As many rows are shown as there is room
/// for, or as the file has lines from there on.
pub proof fn viewer_rows_follow_the_scroll(
    review: ReviewModel,
    start: nat,
    cursor: nat,
    width: nat,
    height: nat,
    k: int,
)
    requires
        review.states.len() == review.lines.len(),
        0 <= k < height,
        start + k < review.lines.len(),
    ensures
        ({
            let rows = view::viewer_rows(review, start, cursor, width, height);
            &&& rows.len() <= height
            &&& start + rows.len() <= review.lines.len()
            &&& rows.len() == height || start + rows.len() == review.lines.len()
            &&& k < rows.len()
            &&& is_row_of(rows[k], review, start + k, width)
            &&& rows[k].spans[0].text == (if start + k == cursor {
                "> "@
            } else {
                "  "@
            })
            &&& review.lines.len() < 1000 ==> rows[k].spans[1].text.len() == 4
            &&& review.lines.len() >= 1000 ==> rows[k].spans[1].text.len() == text::decimal(
                review.lines.len(),
            ).len() + 1
        }),
{
    let n = review.lines.len();
    lemma_three_digits(n);
    let i = start + k;
    let row = view::viewer_rows(review, start, cursor, width, height)[k];
    assert(row == view::viewer_row(review, i, cursor, width));
    lemma_aligned((i + 1) as nat, view::number_width(n));
    text_laws::larger_numbers_are_not_shorter((i + 1) as nat, n);
    reveal_strlit(" ");
    if !review.lines[i].contains('\t') {
        long_lines_are_cut_off(review.lines[i], view::text_columns(width, n));
        assert(review.lines[i].take(0) + "..."@ =~= "..."@);
    }
}

/// While the cursor is among the lines on the screen, exactly one row has the cursor mark, and
/// it is the row for the line that the cursor is on.
pub proof fn cursor_mark_is_on_the_cursor_line(
    review: ReviewModel,
    start: nat,
    cursor: nat,
    width: nat,
    height: nat,
    k: int,
)
    requires
        review.states.len() == review.lines.len(),
        start <= cursor < start + height,
        cursor < review.lines.len(),
        0 <= k < view::viewer_rows(review, start, cursor, width, height).len(),
    ensures
        ({
            let rows = view::viewer_rows(review, start, cursor, width, height);
            &&& cursor - start < rows.len()
            &&& is_row_of(rows[cursor - start], review, cursor as int, width)
            &&& rows[k].spans[0].text == "> "@ <==> k == cursor - start
            &&& rows[k].style == view::plain_style()
        }),
{
    viewer_rows_follow_the_scroll(review, start, cursor, width, height, cursor - start);
    viewer_rows_follow_the_scroll(review, start, cursor, width, height, k);
    reveal_strlit("> ");
    reveal_strlit("  ");
    assert("> "@[0] != "  "@[0]);
}

/// What the viewer shows starts with the line at the top of the screen, and the numbers of its
/// rows go on from there.
pub proof fn viewer_shows_from_the_top_line(
    state: AppModel,
    area: Area,
    pane: ViewerPane,
    k: int,
)
    requires
        view::shows_file(state, area, pane),
        state.review is Some,
        state.review->0.states.len() == state.review->0.lines.len(),
        0 <= k,
        k + 2 < area.height,
        state.scroll + k < state.review->0.lines.len(),
    ensures
        pane.content is Lines,
        k < pane.content->Lines_0@.len() <= area.height - 2,
        is_row_of(
            pane.content->Lines_0@[k]@,
            state.review->0,
            state.scroll + k,
            view::between_borders(area.width) as nat,
        ),
        pane.content->Lines_0@[k]@.spans[0].text == (if state.scroll + k == state.line {
            "> "@
        } else {
            "  "@
        }),
        pane.inner.height == area.height - 2,
        area.width >= 2 ==> pane.inner.width == area.width - 2,
{
    let review = state.review->0;
    viewer_rows_follow_the_scroll(
        review,
        state.scroll,
        state.line,
        pane.inner.width as nat,
        pane.inner.height as nat,
        k,
    );
    if pane.content is Lines {
        let rows = pane.content->Lines_0@;
        assert(view::row_views(rows)[k] == rows[k]@);
        assert(view::row_views(rows).len() == rows.len());
    }
}

/// A line that does not fit, and has no tab, is cut off: its front is shown, one column less
/// than there is room for, and three dots.
pub proof fn long_lines_are_cut_off(line: Seq<char>, available: nat)
    requires
        !line.contains('\t'),
    ensures
        line.len() <= available ==> view::shown_text(line, available) == line,
        line.len() > available && available > 0 ==> view::shown_text(line, available) == line.take(
            available - 1,
        ) + "..."@,
        line.len() > available && available == 0 ==> view::shown_text(line, available) == "..."@,
{
    text_laws::replacing_nothing_changes_nothing(line, '\t', "    "@);
    assert(line.take(0) + "..."@ =~= "..."@);
}

/// A tab is shown as four blanks, wherever it stands.
pub proof fn tabs_are_four_blanks(a: Seq<char>, b: Seq<char>, available: nat)
    requires
        !a.contains('\t'),
        !b.contains('\t'),
        a.len() + b.len() + 4 <= available,
    ensures
        view::shown_text(a + seq!['\t'] + b, available) == a + "    "@ + b,
{
    let four = "    "@;
    reveal_strlit("    ");
    text_laws::replacing_works_on_each_part(a + seq!['\t'], b, '\t', four);
    text_laws::replacing_works_on_each_part(a, seq!['\t'], '\t', four);
    text_laws::replacing_nothing_changes_nothing(a, '\t', four);
    text_laws::replacing_nothing_changes_nothing(b, '\t', four);
}

/// Each row of the explorer is the one for the entry in its place: it has the entry's name,
/// moved in by two columns for each directory around it, and a mark for whether the entry is a
/// directory that is open, one that is closed, or a file. The row of the selected entry, and
/// no other, has the cursor mark.
pub proof fn tree_rows_follow_the_entries(state: AppModel, i: int)
    requires
        0 <= i < state.tree.visible.len(),
    ensures
        ({
            let rows = view::tree_rows(state);
            let entry = state.tree.visible[i];
            &&& rows.len() == state.tree.visible.len()
            &&& rows[i].spans.len() == 4
            &&& rows[i].spans[3].text == entry.name
            &&& rows[i].spans[1].text.len() == 2 * entry.depth
            &&& forall|k: int|
                0 <= k < 2 * entry.depth ==> #[trigger] rows[i].spans[1].text[k] == ' '
            &&& rows[i].spans[0].text == "> "@ <==> i == state.tree.selected
            &&& rows[i].spans[0].text == "* "@ <==> i != state.tree.selected && state.file == Some(
                entry.path,
            )
            &&& entry.kind == TreeEntryKind::File ==> rows[i].spans[2].text == "  "@
            &&& entry.kind == TreeEntryKind::Directory && entry.expanded
                ==> rows[i].spans[2].text == "v "@
            &&& entry.kind == TreeEntryKind::Directory && !entry.expanded
                ==> rows[i].spans[2].text == "> "@
            &&& rows[i].style.bg is Some <==> i == state.tree.selected
            &&& rows[i].style.bg == Some(Color::Blue) <==> i == state.tree.selected && state.pane
                == Pane::Files
        }),
{
    reveal_strlit("> ");
    reveal_strlit("* ");
    reveal_strlit("  ");
    assert("> "@[0] == '>');
    assert("* "@[0] == '*');
    assert("  "@[0] == ' ');
}

/// The overview has the share and, for each state, how many lines are in it; the numbers read
/// back as those that were counted.
pub proof fn overview_tells_the_numbers(stats: ReviewStats)
    ensures
        ({
            let rows = view::overview(stats);
            &&& rows.len() == 5
            &&& rows[0].spans[0].text == text::decimal(review::percent(stats) as nat) + "%"@
            &&& rows[1].spans[0].text == "Understood: "@ + text::decimal(stats.accepted as nat)
            &&& rows[2].spans[0].text == "Rejected: "@ + text::decimal(stats.rejected as nat)
            &&& rows[3].spans[0].text == "Unreviewed: "@ + text::decimal(stats.unreviewed as nat)
            &&& rows[4].spans[0].text == "Total: "@ + text::decimal(
                (stats.accepted + stats.rejected) as nat,
            ) + "/"@ + text::decimal(stats.total as nat)
            &&& text_laws::number_of(text::decimal(stats.accepted as nat)) == stats.accepted
            &&& text_laws::number_of(text::decimal(stats.rejected as nat)) == stats.rejected
            &&& text_laws::number_of(text::decimal(stats.unreviewed as nat)) == stats.unreviewed
            &&& text_laws::number_of(text::decimal(stats.total as nat)) == stats.total
        }),
{
    text_laws::decimal_stands_for_its_number(stats.accepted as nat);
    text_laws::decimal_stands_for_its_number(stats.rejected as nat);
    text_laws::decimal_stands_for_its_number(stats.unreviewed as nat);
    text_laws::decimal_stands_for_its_number(stats.total as nat);
}

/// The left column takes half of a narrow screen, but at least eighteen columns and at most
/// thirty-four, and on a screen with more than two columns it leaves one for the rest.
pub proof fn sidebar_leaves_room(width: int)
    requires
        0 <= width,
    ensures
        0 <= view::sidebar_columns(width) <= width,
        width > 2 ==> view::sidebar_columns(width) < width,
        view::sidebar_columns(width) <= 34,
        width >= 68 ==> view::sidebar_columns(width) == 34,
        36 <= width < 68 ==> view::sidebar_columns(width) == width / 2,
        19 <= width < 36 ==> view::sidebar_columns(width) == 18,
        2 < width < 19 ==> view::sidebar_columns(width) == width - 1,
        width <= 2 ==> view::sidebar_columns(width) == width,
{
}

/// The footer names the pane with the focus and shows the last message; each shortcut stands
/// as its key and what it does, with a bar between two of them.
pub proof fn footer_tells_the_message(state: AppModel)
    ensures
        view::footer(state).len() == 2,
        view::footer(state)[0].spans.len() == 2,
        view::footer(state)[0].spans[0].text == "["@ + view::name_of(state.pane) + "] "@,
        view::footer(state)[0].spans[1].text == state.status,
        view::footer(state)[1].spans == view::shortcut_spans(view::shortcuts(state.pane)),
{
}

/// Each shortcut takes three spans, and each bar one.
pub proof fn shortcuts_stand_in_order(parts: Seq<(Seq<char>, Seq<char>)>, i: int)
    requires
        0 <= i < parts.len(),
    ensures
        view::shortcut_spans(parts).len() == 4 * parts.len() - 1,
        view::shortcut_spans(parts)[4 * i].text == parts[i].0,
        view::shortcut_spans(parts)[4 * i + 1].text == " "@,
        view::shortcut_spans(parts)[4 * i + 2].text == parts[i].1,
        i > 0 ==> view::shortcut_spans(parts)[4 * i - 1].text == " | "@,
    decreases parts.len(),
{
    let front = parts.drop_last();
    if front.len() > 0 {
        shortcuts_stand_in_order(front, 0);
        if i < front.len() {
            shortcuts_stand_in_order(front, i);
            assert(front[i] == parts[i]);
        }
    } else {
        assert(view::shortcut_spans(front).len() == 0);
    }
}

/// The title of the viewer names the open file below the root, and a path elsewhere in full.
pub proof fn viewer_title_names_the_file(state: AppModel, area: Area, pane: ViewerPane)
    requires
        view::shows_file(state, area, pane),
    ensures
        state.file is None ==> pane.title@ == "[3] "@ + "No file selected"@,
        state.file is Some && state.file->0.starts_with(state.root) ==> pane.title@ == "[3] "@
            + state.file->0.below(state.root).text(),
        state.file is Some && !state.file->0.starts_with(state.root) ==> pane.title@ == "[3] "@
            + state.file->0.text(),
        pane.content is NoFile <==> state.review is None,
        pane.content is EmptyFile <==> state.review is Some && state.review->0.lines.len() == 0,
{
}

/// The row of the line with the cursor stands out on blue; every other line has the color of
/// its state, with its mark in bold and its number in gray.
pub proof fn rows_have_the_color_of_their_state(
    review: ReviewModel,
    start: nat,
    cursor: nat,
    width: nat,
    height: nat,
    k: int,
)
    requires
        review.states.len() == review.lines.len(),
        0 <= k < height,
        start + k < review.lines.len(),
    ensures
        ({
            let row = view::viewer_rows(review, start, cursor, width, height)[k];
            let state = review.states[start + k];
            &&& start + k == cursor ==> forall|i: int|
                0 <= i < 4 ==> (#[trigger] row.spans[i]).style.bg == Some(Color::Blue)
                    && row.spans[i].style.fg == Some(Color::White)
            &&& start + k != cursor ==> forall|i: int|
                0 <= i < 4 ==> (#[trigger] row.spans[i]).style.bg is None
            &&& start + k != cursor ==> row.spans[0].style.fg == Some(Color::DarkGray)
                && row.spans[1].style.fg == Some(Color::DarkGray)
            &&& start + k != cursor ==> row.spans[2].style.fg == row.spans[3].style.fg
                && row.spans[3].style.fg == Some(
                match state {
                    LineState::Accepted => Color::Green,
                    LineState::Rejected => Color::Yellow,
                    LineState::Unreviewed => Color::Gray,
                },
            )
            &&& row.spans[2].style.bold
        }),
{
}

/// The pane with the focus has a border in bold blue, and no other pane has.
pub proof fn focus_has_a_blue_border(focused: bool)
    ensures
        view::border_of(focused).fg == Some(Color::Blue) <==> focused,
        view::border_of(focused).bold <==> focused,
        view::border_of(focused).bg is None,
{
}

/// Each pane goes by its number and its name.
pub proof fn panes_have_their_names()
    ensures
        view::name_of(Pane::Overview) == "1 Review"@,
        view::name_of(Pane::Files) == "2 Files"@,
        view::name_of(Pane::Viewer) == "3 Viewer"@,
{
}

/// The question is never larger than the screen, and the left column never wider.
pub proof fn parts_fit_the_screen(screen: Area)
    ensures
        ({
            let sizes = view::sizes_on(screen);
            &&& sizes.question_width <= screen.width && sizes.question_width <= 60
            &&& sizes.question_width == 60 || sizes.question_width == screen.width
            &&& sizes.question_height <= screen.height && sizes.question_height <= 7
            &&& sizes.question_height == 7 || sizes.question_height == screen.height
            &&& sizes.sidebar_width == view::sidebar_columns(screen.width as int)
            &&& sizes.footer_height == 2 && sizes.overview_height == 9
            &&& sizes.least_tree_height == 8 && sizes.least_body_height == 1
                && sizes.least_main_width == 1
        }),
{
    sidebar_leaves_room(screen.width as int);
}

/// What is known of the repository: its address on the web, or that it has none, and where it
/// lies.
pub proof fn repository_is_told(state: AppModel)
    ensures
        view::repo_info(state).len() == 4,
        view::repo_info(state)[2].spans.len() == 2,
        state.repo_link is Some ==> view::repo_info(state)[2].spans[1].text == state.repo_link->0,
        state.repo_link is None ==> view::repo_info(state)[2].spans[1].text
            == "No git remote configured"@,
        view::repo_info(state)[3].spans[1].text == state.root.text(),
{
}

} // verus!
