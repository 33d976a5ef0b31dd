use debth::app::App;
use debth::app::Key;
use debth::app::KeyPress;
use debth::app::Pane;
use debth::app::WorkspaceOnDisk;
use debth::fs_tree::DiskEntry;
use debth::fs_tree::EntryType;
use debth::fs_tree::Listing;
use debth::path::FsPath;
use debth::review::LineState;
use debth::review::ReviewStats;
use debth::store::FileOnDisk;
use debth::store::PersistedFileReview;
use debth::view::can_render;
use debth::view::line_style;
use debth::view::pane_border;
use debth::view::pane_name;
use debth::view::render;
use debth::view::render_footer;
use debth::view::render_gitignore_prompt;
use debth::view::render_overview;
use debth::view::render_repo_info;
use debth::view::render_tree;
use debth::view::render_viewer;
use debth::view::review_marker;
use debth::view::screen_sizes;
use debth::view::shortcut_line;
use debth::view::sidebar_width;
use debth::view::Area;
use debth::view::Color;
use debth::view::MainPane;
use debth::view::Row;
use debth::view::ScreenSizes;
use debth::view::TextStyle;
use debth::view::ViewerContent;

const PLAIN: TextStyle = TextStyle { fg: None, bg: None, bold: false, underlined: false };

fn screen_path(text: &str) -> FsPath {
    let parts = text.split('/').filter(|part| !part.is_empty());
    FsPath::new(text.starts_with('/'), parts.map(|part| part.as_bytes().to_vec()).collect())
}

fn screen_entry(name: &str, inside: Option<Vec<DiskEntry>>) -> DiskEntry {
    let is_dir = inside.is_some();
    DiskEntry {
        name: name.as_bytes().to_vec(),
        entry_type: if is_dir { EntryType::Directory } else { EntryType::Other },
        leads_to_dir: is_dir,
        leads_to_file: !is_dir,
        listing: Ok(inside.unwrap_or_default()),
    }
}

fn screen_app(is_git_repo: bool) -> App {
    let listing: Listing = Ok(vec![
        screen_entry("src", Some(vec![screen_entry("a.rs", None)])),
        screen_entry("b.rs", None),
    ]);
    let disk = WorkspaceOnDisk {
        ignore: String::new(),
        listing,
        config: None,
        is_git_repo,
        gitignore: None,
        git_config: None,
    };
    App::new(screen_path("/w"), &disk).unwrap()
}

fn row_text(row: &Row) -> String {
    row.spans.iter().map(|span| span.text.as_str()).collect()
}

fn all_text(rows: &[Row]) -> Vec<String> {
    rows.iter().map(row_text).collect()
}

fn show(app: &mut App, text: &str, codes: &str) {
    let record = PersistedFileReview {
        lines: text.lines().map(|line| line.to_string()).collect(),
        state_codes: codes.to_string(),
        states: Vec::new(),
    };
    let disk = FileOnDisk { content: Ok(text.as_bytes().to_vec()), record: Some(record) };
    app.open_file(screen_path("/w/b.rs"), &disk).unwrap();
}

#[test]
fn overview_tells_the_numbers() {
    let rows =
        render_overview(ReviewStats { total: 12, accepted: 5, rejected: 2, unreviewed: 5 });
    assert_eq!(
        all_text(&rows),
        vec!["58% reviewed", "Understood: 5", "Rejected: 2", "Unreviewed: 5", "Total: 7/12"]
    );
    assert_eq!(rows[0].spans[0].style, TextStyle { fg: Some(Color::Green), bold: true, ..PLAIN });
    assert_eq!(rows[2].spans[0].style, TextStyle { fg: Some(Color::Yellow), ..PLAIN });
}

#[test]
fn explorer_marks_the_selected_and_the_open_row() {
    let mut app = screen_app(false);
    let rows = render_tree(&app);
    assert_eq!(all_text(&rows), vec!["> > src", "    b.rs"]);
    let focused =
        TextStyle { fg: Some(Color::White), bg: Some(Color::Blue), bold: true, underlined: false };
    assert_eq!(rows[0].style, focused);
    assert_eq!(rows[0].spans[0].style, focused);
    assert_eq!(rows[0].spans[3].style, PLAIN);
    assert_eq!(rows[1].style, PLAIN);

    show(&mut app, "x", "u");
    let rows = render_tree(&app);
    assert_eq!(all_text(&rows), vec!["> > src", "*   b.rs"]);
    assert_eq!(rows[0].style.bg, Some(Color::DarkGray));
    assert_eq!(rows[1].style, TextStyle { fg: Some(Color::Green), bold: true, ..PLAIN });
}

#[test]
fn rows_inside_directories_are_indented() {
    let mut app = screen_app(false);
    let listing: Listing = Ok(vec![screen_entry("src", Some(vec![screen_entry("a.rs", None)]))]);
    app.open_or_toggle_selected("", &listing).unwrap();
    assert_eq!(all_text(&render_tree(&app)), vec!["> v src", "      a.rs"]);
}

#[test]
fn viewer_shows_numbers_marks_and_text() {
    let mut app = screen_app(false);
    show(&mut app, "one\n\ttwo\nthree", "aru");
    let area = Area { x: 3, y: 4, width: 30, height: 4 };
    let pane = render_viewer(&mut app, area);
    assert_eq!(pane.title, "[3] b.rs");
    assert_eq!(pane.inner, Area { x: 4, y: 5, width: 28, height: 2 });
    assert_eq!(pane.border, TextStyle { fg: Some(Color::Blue), bold: true, ..PLAIN });
    let ViewerContent::Lines(rows) = pane.content else { panic!("lines expected") };
    assert_eq!(all_text(&rows), vec![">   1 + one", "    2 !     two"]);
    assert_eq!(rows[0].spans[1].style.bg, Some(Color::Blue));
    assert_eq!(rows[1].spans[0].style, TextStyle { fg: Some(Color::DarkGray), ..PLAIN });
    assert_eq!(rows[1].spans[2].style, TextStyle { fg: Some(Color::Yellow), bold: true, ..PLAIN });
    assert_eq!(rows[1].spans[3].style, TextStyle { fg: Some(Color::Yellow), ..PLAIN });
    app.handle_key(KeyPress { key: Key::Down, control: false });
    app.handle_key(KeyPress { key: Key::Down, control: false });
    assert_eq!(app.scroll(), 1);
}

#[test]
fn long_lines_are_cut() {
    let mut app = screen_app(false);
    show(&mut app, "abcdefghij", "u");
    let wide = render_viewer(&mut app, Area { x: 0, y: 0, width: 19, height: 3 });
    let ViewerContent::Lines(rows) = wide.content else { panic!("lines expected") };
    assert_eq!(rows[0].spans[3].text, "abcdefghij");
    let narrow = render_viewer(&mut app, Area { x: 0, y: 0, width: 18, height: 3 });
    let ViewerContent::Lines(rows) = narrow.content else { panic!("lines expected") };
    assert_eq!(rows[0].spans[3].text, "abcdefgh...");
    let tiny = render_viewer(&mut app, Area { x: 0, y: 0, width: 1, height: 3 });
    let ViewerContent::Lines(rows) = tiny.content else { panic!("lines expected") };
    assert_eq!(rows[0].spans[3].text, "...");
}

#[test]
fn line_numbers_grow_with_the_file() {
    let mut app = screen_app(false);
    let text = "x\n".repeat(1000);
    show(&mut app, &text, "");
    let pane = render_viewer(&mut app, Area { x: 0, y: 0, width: 80, height: 3 });
    let ViewerContent::Lines(rows) = pane.content else { panic!("lines expected") };
    assert_eq!(rows[0].spans[1].text, "   1 ");
}

#[test]
fn viewer_without_lines_says_so() {
    let mut app = screen_app(false);
    let area = Area { x: 65535, y: 0, width: 1, height: 0 };
    let pane = render_viewer(&mut app, area);
    assert_eq!(pane.title, "[3] No file selected");
    assert_eq!(pane.inner, Area { x: 65535, y: 0, width: 0, height: 0 });
    assert!(matches!(pane.content, ViewerContent::NoFile));
    show(&mut app, "", "");
    let pane = render_viewer(&mut app, area);
    assert!(matches!(pane.content, ViewerContent::EmptyFile));
}

#[test]
fn borders_take_one_cell_on_each_side() {
    let mut app = screen_app(false);
    let inner = |app: &mut App, width, height| {
        let pane = render_viewer(app, Area { x: 10, y: 20, width, height });
        pane.inner
    };
    assert_eq!(inner(&mut app, 0, 0), Area { x: 10, y: 20, width: 0, height: 0 });
    assert_eq!(inner(&mut app, 1, 2), Area { x: 11, y: 21, width: 0, height: 0 });
    assert_eq!(inner(&mut app, 5, 7), Area { x: 11, y: 21, width: 3, height: 5 });
}

#[test]
fn footer_tells_pane_status_and_keys() {
    let app = screen_app(false);
    assert_eq!(
        all_text(&render_footer(&app)),
        vec![
            "[2 Files] Ready",
            "j/k move | enter open | space toggle | a accept file | r reject file | i ignore | <-/-> tree",
        ]
    );
    assert_eq!(row_text(&shortcut_line(Pane::Overview)), "tab next pane | h/l switch pane");
    let viewer = shortcut_line(Pane::Viewer);
    assert_eq!(
        row_text(&viewer),
        "j/k line | a accept | r reject | u unreview | pgup/pgdn scroll"
    );
    assert_eq!(viewer.style, TextStyle { fg: Some(Color::Blue), ..PLAIN });
    assert!(viewer.spans[0].style.bold);
    assert!(!viewer.spans[1].style.bold);
    assert_eq!(pane_name(Pane::Overview), "1 Review");
    assert_eq!(pane_name(Pane::Viewer), "3 Viewer");
}

#[test]
fn repository_and_question_are_told() {
    let app = screen_app(true);
    assert_eq!(
        all_text(&render_repo_info(&app)),
        vec!["Git repository", "", "Remote: No git remote configured", "Path:   /w"]
    );
    assert!(render_repo_info(&app)[2].spans[1].style.underlined);
    assert_eq!(
        all_text(&render_gitignore_prompt()),
        vec![
            "This git repo has no .debth/ entry in .gitignore.",
            "Add it now?",
            "",
            "y yes    n no",
        ]
    );
}

#[test]
fn overview_shows_the_repository_beside_it() {
    let mut app = screen_app(true);
    let area = Area { x: 0, y: 0, width: 40, height: 20 };
    let screen = render(&mut app, area);
    assert!(matches!(screen.main, MainPane::Viewer(_)));
    assert!(screen.question.is_some());
    assert_eq!(screen.tree_border, pane_border(true));
    assert_eq!(screen.overview_border, pane_border(false));
    app.answer_prompt(false, "");
    app.handle_key(KeyPress { key: Key::Char('1'), control: false });
    assert!(can_render(&app));
    let screen = render(&mut app, area);
    assert!(matches!(screen.main, MainPane::Repository(_)));
    assert!(screen.question.is_none());
    assert_eq!(all_text(&screen.overview)[0], "100% reviewed");
    assert_eq!(all_text(&screen.footer)[0], "[1 Review] .debth/ will not be added to .gitignore");
    assert_eq!(screen.tree.len(), 2);
}

#[test]
fn file_that_shrank_cannot_be_shown() {
    let mut app = screen_app(false);
    show(&mut app, &"x\n".repeat(50), "");
    app.handle_key(KeyPress { key: Key::Char('G'), control: false });
    let disk = FileOnDisk { content: Ok(b"x\n".to_vec()), record: None };
    app.reload_marked_file(LineState::Accepted, &screen_path("/w/b.rs"), 50, &disk).unwrap();
    assert!(!can_render(&app));
    app.handle_key(KeyPress { key: Key::Char('g'), control: false });
    assert!(can_render(&app));
}

#[test]
fn states_have_marks_and_colors() {
    assert_eq!(review_marker(LineState::Unreviewed), "? ");
    assert_eq!(review_marker(LineState::Accepted), "+ ");
    assert_eq!(review_marker(LineState::Rejected), "! ");
    assert_eq!(line_style(LineState::Unreviewed).fg, Some(Color::Gray));
    assert_eq!(line_style(LineState::Accepted).fg, Some(Color::Green));
    assert_eq!(line_style(LineState::Rejected).fg, Some(Color::Yellow));
}

#[test]
fn left_column_fits_the_screen() {
    let widths: Vec<u16> = [0, 1, 2, 3, 10, 18, 19, 20, 36, 40, 69, 70, 200]
        .into_iter()
        .map(sidebar_width)
        .collect();
    assert_eq!(widths, vec![0, 1, 2, 2, 9, 17, 18, 18, 18, 20, 34, 34, 34]);
}

#[test]
fn parts_of_the_screen_have_their_sizes() {
    let large = screen_sizes(Area { x: 0, y: 0, width: 100, height: 40 });
    assert_eq!(
        large,
        ScreenSizes {
            least_body_height: 1,
            footer_height: 2,
            sidebar_width: 34,
            least_main_width: 1,
            overview_height: 9,
            least_tree_height: 8,
            question_width: 60,
            question_height: 7,
        }
    );
    let small = screen_sizes(Area { x: 5, y: 5, width: 50, height: 6 });
    assert_eq!((small.question_width, small.question_height), (50, 6));
    assert_eq!(small.sidebar_width, 25);
}
