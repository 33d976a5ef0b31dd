use debth::app::display_path;
use debth::app::path_covers;
use debth::app::App;
use debth::app::Command;
use debth::app::GitignorePrompt;
use debth::app::Key;
use debth::app::KeyPress;
use debth::app::Pane;
use debth::app::WorkspaceOnDisk;
use debth::fs_tree::DiskEntry;
use debth::fs_tree::EntryType;
use debth::fs_tree::Listing;
use debth::path::FsPath;
use debth::review::LineState;
use debth::review::ReviewStats;
use debth::store::FileOnDisk;
use debth::store::PersistedFileReview;
use debth::store::StoreError;
use debth::store::WorkspaceFile;

fn app_path(text: &str) -> FsPath {
    let parts = text.split('/').filter(|part| !part.is_empty());
    FsPath::new(text.starts_with('/'), parts.map(|part| part.as_bytes().to_vec()).collect())
}

fn app_entry(name: &str, inside: Option<Vec<DiskEntry>>) -> DiskEntry {
    let is_dir = inside.is_some();
    DiskEntry {
        name: name.as_bytes().to_vec(),
        entry_type: if is_dir { EntryType::Directory } else { EntryType::Other },
        leads_to_dir: is_dir,
        leads_to_file: !is_dir,
        listing: Ok(inside.unwrap_or_default()),
    }
}

fn app_listing() -> Listing {
    Ok(vec![
        app_entry("b.rs", None),
        app_entry("src", Some(vec![app_entry("a.rs", None)])),
    ])
}

fn start(is_git_repo: bool) -> App {
    let disk = WorkspaceOnDisk {
        ignore: String::new(),
        listing: app_listing(),
        config: None,
        is_git_repo,
        gitignore: None,
        git_config: Some("[remote \"origin\"]\nurl = git@host:me/it.git\n".to_string()),
    };
    App::new(app_path("/w"), &disk).unwrap()
}

fn content(text: &str, record: Option<PersistedFileReview>) -> FileOnDisk {
    FileOnDisk { content: Ok(text.as_bytes().to_vec()), record }
}

fn press(app: &mut App, key: Key) -> Command {
    app.handle_key(KeyPress { key, control: false })
}

fn numbered_lines(n: usize) -> String {
    (0..n).map(|i| format!("line {i}\n")).collect()
}

#[test]
fn program_starts_with_the_explorer() {
    let app = start(false);
    assert_eq!(app.active_pane(), Pane::Files);
    assert_eq!(app.status(), "Ready");
    assert_eq!(app.prompt(), GitignorePrompt::Hidden);
    assert_eq!(app.repo_link().as_deref(), Some("https://host/me/it"));
    assert_eq!(app.stats(), ReviewStats::default());
    assert!(app.current_file().is_none());
    assert_eq!(app.tree().visible().len(), 2);
    assert_eq!(app.root().to_text(), "/w");
    assert!(app.cursor_fits());
}

#[test]
fn question_takes_all_keys() {
    let mut app = start(true);
    assert_eq!(app.prompt(), GitignorePrompt::Waiting);
    assert_eq!(press(&mut app, Key::Char('q')), Command::Continue);
    assert_eq!(
        app.handle_key(KeyPress { key: Key::Char('c'), control: true }),
        Command::Continue
    );
    assert_eq!(press(&mut app, Key::Char('Y')), Command::AnswerPrompt { add_line: true });
    assert_eq!(press(&mut app, Key::Char('n')), Command::AnswerPrompt { add_line: false });
    assert_eq!(press(&mut app, Key::Esc), Command::AnswerPrompt { add_line: false });
    let answer = app.answer_prompt(true, "target\n");
    assert_eq!(answer.gitignore.as_deref(), Some("target\n.debth/\n"));
    assert!(answer.config.gitignore_prompted);
    assert_eq!(app.prompt(), GitignorePrompt::Hidden);
    assert_eq!(app.status(), ".debth/ added to .gitignore");
    assert!(!app.store().needs_gitignore_prompt(true, None));
}

#[test]
fn refusal_is_told() {
    let mut app = start(true);
    let answer = app.answer_prompt(false, "target\n");
    assert_eq!(answer.gitignore, None);
    assert_eq!(app.status(), ".debth/ will not be added to .gitignore");
}

#[test]
fn panes_are_chosen_and_cycled() {
    let mut app = start(false);
    press(&mut app, Key::Char('1'));
    assert_eq!(app.active_pane(), Pane::Overview);
    press(&mut app, Key::Char('3'));
    assert_eq!(app.active_pane(), Pane::Viewer);
    press(&mut app, Key::Tab);
    assert_eq!(app.active_pane(), Pane::Overview);
    press(&mut app, Key::BackTab);
    assert_eq!(app.active_pane(), Pane::Viewer);
    press(&mut app, Key::Char('h'));
    assert_eq!(app.active_pane(), Pane::Files);
    press(&mut app, Key::Char('l'));
    assert_eq!(app.active_pane(), Pane::Viewer);
    press(&mut app, Key::Char('2'));
    assert_eq!(app.active_pane(), Pane::Files);
}

#[test]
fn keys_depend_on_the_pane() {
    let mut app = start(false);
    assert_eq!(press(&mut app, Key::Char('q')), Command::Quit);
    assert_eq!(app.handle_key(KeyPress { key: Key::Char('c'), control: true }), Command::Quit);
    assert_eq!(press(&mut app, Key::Char('c')), Command::Continue);
    assert_eq!(press(&mut app, Key::Char('a')), Command::MarkFile(LineState::Accepted));
    assert_eq!(press(&mut app, Key::Char('r')), Command::MarkFile(LineState::Rejected));
    assert_eq!(press(&mut app, Key::Char('i')), Command::IgnoreEntry);
    assert_eq!(press(&mut app, Key::Char('u')), Command::Continue);
    assert_eq!(press(&mut app, Key::Enter), Command::OpenOrToggle);
    assert_eq!(press(&mut app, Key::Char(' ')), Command::OpenOrToggle);
    assert_eq!(press(&mut app, Key::Left), Command::Collapse);
    assert_eq!(press(&mut app, Key::Right), Command::Expand);
    press(&mut app, Key::Char('3'));
    assert_eq!(press(&mut app, Key::Char('a')), Command::MarkLine(LineState::Accepted));
    assert_eq!(press(&mut app, Key::Char('r')), Command::MarkLine(LineState::Rejected));
    assert_eq!(press(&mut app, Key::Char('u')), Command::MarkLine(LineState::Unreviewed));
    assert_eq!(press(&mut app, Key::Char('i')), Command::Continue);
    assert_eq!(press(&mut app, Key::Enter), Command::Continue);
    assert_eq!(press(&mut app, Key::Left), Command::Continue);
    assert!(app.open_or_toggle_selected("", &app_listing()).unwrap().is_none());
    press(&mut app, Key::Char('1'));
    assert_eq!(press(&mut app, Key::Char('a')), Command::Continue);
    assert_eq!(press(&mut app, Key::Other), Command::Continue);
}

#[test]
fn explorer_opens_directories_and_files() {
    let mut app = start(false);
    assert!(app.open_or_toggle_selected("", &app_listing()).unwrap().is_none());
    assert_eq!(app.tree().visible().len(), 3);
    press(&mut app, Key::Char('j'));
    let path = app.open_or_toggle_selected("", &app_listing()).unwrap().unwrap();
    assert_eq!(path.to_text(), "/w/src/a.rs");
    let write = app.open_file(path, &content("x\ny\n", None)).unwrap();
    assert_eq!(write.record.state_codes, "uu");
    assert_eq!(app.active_pane(), Pane::Viewer);
    assert_eq!(app.status(), "Opened src/a.rs");
    assert_eq!(app.current_file().unwrap().to_text(), "/w/src/a.rs");
    assert_eq!(app.current_review().unwrap().lines.len(), 2);
    press(&mut app, Key::Char('2'));
    app.collapse_selected("", &app_listing()).unwrap();
    assert_eq!(app.tree().selected(), 0);
    app.collapse_selected("", &app_listing()).unwrap();
    assert_eq!(app.tree().visible().len(), 2);
    assert!(app.expand_selected("", &app_listing()).unwrap().is_none());
    assert_eq!(app.tree().visible().len(), 3);
}

#[test]
fn cursor_moves_within_the_file() {
    let mut app = start(false);
    app.open_file(app_path("/w/b.rs"), &content(&numbered_lines(40), None)).unwrap();
    app.set_viewer_height(10);
    for _ in 0..10 {
        press(&mut app, Key::Down);
    }
    assert_eq!((app.current_line(), app.scroll()), (10, 1));
    press(&mut app, Key::PageDown);
    assert_eq!((app.current_line(), app.scroll()), (22, 13));
    press(&mut app, Key::Char('G'));
    assert_eq!((app.current_line(), app.scroll()), (39, 31));
    press(&mut app, Key::Down);
    assert_eq!(app.current_line(), 39);
    press(&mut app, Key::PageUp);
    assert_eq!((app.current_line(), app.scroll()), (27, 27));
    press(&mut app, Key::Char('k'));
    assert_eq!((app.current_line(), app.scroll()), (26, 26));
    press(&mut app, Key::Char('g'));
    assert_eq!((app.current_line(), app.scroll()), (0, 0));
    press(&mut app, Key::Up);
    assert_eq!(app.current_line(), 0);
    press(&mut app, Key::Char('2'));
    press(&mut app, Key::PageDown);
    press(&mut app, Key::Char('G'));
    assert_eq!(app.current_line(), 0);
    assert!(app.cursor_fits());
}

#[test]
fn first_line_shown_is_kept_in_sixteen_bits() {
    let mut app = start(false);
    app.open_file(app_path("/w/b.rs"), &content(&"\n".repeat(65_600), None)).unwrap();
    press(&mut app, Key::Char('G'));
    assert_eq!((app.current_line(), app.scroll()), (65_599, 55));
}

#[test]
fn current_line_is_marked_and_then_left() {
    let mut app = start(false);
    let empty = content("", None);
    assert!(app.mark_current_line(LineState::Accepted, &empty).unwrap().is_none());
    assert_eq!(app.status(), "Ready");
    app.open_file(app_path("/w/b.rs"), &content("x\ny\n", None)).unwrap();
    let write = app.mark_current_line(LineState::Accepted, &empty).unwrap().unwrap();
    assert_eq!(write.record.state_codes, "au");
    assert_eq!(app.status(), "Accepted current line");
    assert_eq!(app.current_line(), 0);
    app.move_viewer_down();
    assert_eq!(app.current_line(), 1);
    app.mark_current_line(LineState::Rejected, &empty).unwrap();
    assert_eq!(app.status(), "Rejected current line");
    assert_eq!(
        app.current_review().unwrap().states,
        vec![LineState::Accepted, LineState::Rejected]
    );
    app.move_viewer_down();
    assert_eq!(app.current_line(), 1);
    let write = app.mark_current_line(LineState::Unreviewed, &empty).unwrap().unwrap();
    assert_eq!(write.record.state_codes, "au");
    assert_eq!(app.status(), "Marked current line unreviewed");

    app.open_file(app_path("/w/b.rs"), &empty).unwrap();
    assert!(app.mark_current_line(LineState::Accepted, &empty).unwrap().is_none());
}

#[test]
fn cursor_stays_where_the_count_fails() {
    let mut app = start(false);
    app.open_file(app_path("/w/b.rs"), &content("x\ny\n", None)).unwrap();
    app.mark_current_line(LineState::Accepted, &content("", None)).unwrap();
    let unreadable = FileOnDisk { content: Err("gone".to_string()), record: None };
    let files = vec![WorkspaceFile { path: app_path("/w/b.rs"), disk: unreadable }];
    let mut writes = Vec::new();
    assert!(app.refresh_stats(&files, &mut writes).is_err());
    assert_eq!(app.current_line(), 0);
    assert_eq!(app.status(), "Accepted current line");
}

#[test]
fn selected_file_is_marked_as_a_whole() {
    let mut app = start(false);
    assert!(app.selected_file_path().is_none());
    let disk = content("x\ny\n", None);
    assert!(app.mark_selected_file(LineState::Accepted, &disk).unwrap().is_none());
    assert_eq!(app.status(), "Select a file before accepting or rejecting it");
    press(&mut app, Key::Down);
    let marked = app.mark_selected_file(LineState::Rejected, &disk).unwrap().unwrap();
    assert_eq!(marked.path.to_text(), "/w/b.rs");
    assert_eq!(marked.lines, 2);
    assert!(!marked.reload);
    assert_eq!(marked.write.record.state_codes, "rr");
    assert_eq!(app.status(), "Rejected 2 lines in b.rs");
    app.mark_selected_file(LineState::Unreviewed, &disk).unwrap();
    assert_eq!(app.status(), "Marked 2 lines unreviewed in b.rs");
}

#[test]
fn open_file_is_taken_up_again_after_marking() {
    let mut app = start(false);
    press(&mut app, Key::Down);
    let path = app_path("/w/b.rs");
    app.open_file(path.clone(), &content("x\ny\nz\n", None)).unwrap();
    press(&mut app, Key::Char('G'));
    assert_eq!(app.current_line(), 2);
    let disk = content("x\ny\nz\n", None);
    let marked = app.mark_selected_file(LineState::Accepted, &disk).unwrap().unwrap();
    assert!(marked.reload);
    assert_eq!(app.status(), "Opened b.rs");
    let again = content("x\ny\nz\n", Some(marked.write.record));
    let write =
        app.reload_marked_file(LineState::Accepted, &path, marked.lines, &again).unwrap();
    assert_eq!(write.record.state_codes, "aaa");
    assert_eq!(app.status(), "Accepted 3 lines in b.rs");
    assert_eq!(app.current_line(), 2);
    assert!(app.cursor_fits());

    let shorter = content("x\n", None);
    app.reload_marked_file(LineState::Accepted, &path, 3, &shorter).unwrap();
    assert!(!app.cursor_fits());
    app.reload_marked_file(LineState::Accepted, &path, 1, &shorter).unwrap();
    assert_eq!(app.current_line(), 0);
}

#[test]
fn ignored_entry_closes_the_open_file() {
    let mut app = start(false);
    app.open_file(app_path("/w/src/a.rs"), &content("x\n", None)).unwrap();
    let ignored = app.ignore_selected_entry("", &app_listing()).unwrap().unwrap();
    assert_eq!(ignored.entry.pattern, "/src/");
    assert_eq!(app.status(), "Ignored /src/ in .debth/ignore");
    assert!(app.current_file().is_none());
    assert!(app.current_review().is_none());
    assert_eq!(app.tree().visible().len(), 1);

    app.open_file(app_path("/w/src/a.rs"), &content("x\n", None)).unwrap();
    app.ignore_selected_entry("", &app_listing()).unwrap();
    assert_eq!(app.status(), "Ignored /b.rs in .debth/ignore");
    assert!(app.current_file().is_some());
}

#[test]
fn nothing_selected_is_told() {
    let mut app = start(false);
    let none: Listing = Ok(Vec::new());
    app.refresh_tree("", &none).unwrap();
    assert!(app.ignore_selected_entry("", &none).unwrap().is_none());
    assert_eq!(app.status(), "Select a file or directory before ignoring it");
    let gone: Listing = Err("gone".to_string());
    assert!(app.refresh_tree("", &gone).is_err());
}

#[test]
fn numbers_are_counted_anew() {
    let mut app = start(false);
    let record = PersistedFileReview {
        lines: vec!["x".to_string(), "y".to_string()],
        state_codes: "au".to_string(),
        states: Vec::new(),
    };
    let files = vec![
        WorkspaceFile { path: app_path("/w/b.rs"), disk: content("x\ny\n", Some(record)) },
        WorkspaceFile { path: app_path("/w/src/a.rs"), disk: content("z", None) },
    ];
    let mut writes = Vec::new();
    app.refresh_stats(&files, &mut writes).unwrap();
    assert_eq!(app.stats(), ReviewStats { total: 3, accepted: 1, rejected: 0, unreviewed: 2 });
    assert_eq!(writes.len(), 2);
    let bad = vec![WorkspaceFile { path: app_path("/x"), disk: content("", None) }];
    let error = app.refresh_stats(&bad, &mut writes).unwrap_err();
    assert!(matches!(error, StoreError::Outside { .. }));
    assert_eq!(app.stats().total, 3);
}

#[test]
fn paths_are_shown_below_the_root() {
    let root = app_path("/w");
    assert_eq!(display_path(&root, &app_path("/w/a/b")), "a/b");
    assert_eq!(display_path(&root, &app_path("/x/a")), "/x/a");
    assert_eq!(display_path(&root, &root), "");
    assert!(path_covers(&app_path("/w/a"), &app_path("/w/a/b"), true));
    assert!(!path_covers(&app_path("/w/a"), &app_path("/w/ab"), true));
    assert!(!path_covers(&app_path("/w/a"), &app_path("/w/a/b"), false));
    assert!(path_covers(&app_path("/w/a"), &app_path("/w/a"), false));
}

#[test]
fn first_line_shown_moves_no_further_than_it_must() {
    let mut app = start(false);
    app.open_file(app_path("/w/b.rs"), &content(&numbered_lines(40), None)).unwrap();
    app.set_viewer_height(40);
    press(&mut app, Key::Char('G'));
    assert_eq!((app.current_line(), app.scroll()), (39, 31));
    app.ensure_cursor_visible();
    assert_eq!(app.scroll(), 31);
    app.set_viewer_height(5);
    app.ensure_cursor_visible();
    assert_eq!(app.scroll(), 35);
    app.ensure_cursor_visible();
    assert_eq!(app.scroll(), 35);
    app.set_viewer_height(0);
    app.ensure_cursor_visible();
    assert_eq!(app.scroll(), 39);
}
