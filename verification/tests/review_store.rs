use debth::path::FsPath;
use debth::review::LineState;
use debth::review::ReviewStats;
use debth::store::record_path;
use debth::store::FileOnDisk;
use debth::store::PersistedFileReview;
use debth::store::ReviewStore;
use debth::store::StoreConfig;
use debth::store::StoreError;
use debth::store::WorkspaceFile;

fn store_path(text: &str) -> FsPath {
    let parts = text.split('/').filter(|part| !part.is_empty());
    FsPath::new(text.starts_with('/'), parts.map(|part| part.as_bytes().to_vec()).collect())
}

fn on_disk(content: &str, record: Option<PersistedFileReview>) -> FileOnDisk {
    FileOnDisk { content: Ok(content.as_bytes().to_vec()), record }
}

fn unreadable() -> FileOnDisk {
    FileOnDisk { content: Err("gone".to_string()), record: None }
}

#[test]
fn set_file_state_marks_every_line() {
    let root = store_path("/w");
    let path = root.join(&store_path("main.rs"));
    let content = "fn main() {\n}\n";

    let mut store = ReviewStore::open(root, None);
    let (changed, write) =
        store.set_file_state(&path, LineState::Accepted, &on_disk(content, None)).unwrap();
    let loaded = store.load_file(&path, &on_disk(content, Some(write.record))).unwrap();

    assert_eq!(changed, 2);
    assert_eq!(
        loaded.review.states,
        vec![LineState::Accepted, LineState::Accepted]
    );
}

#[test]
fn record_is_named_by_the_digest_of_the_path() {
    let mut store = ReviewStore::open(store_path("/w"), None);
    let loaded = store.load_file(&store_path("main.rs"), &on_disk("a\nb", None)).unwrap();
    assert_eq!(
        loaded.write.path.to_text(),
        "/w/.debth/files/9177877afee1a3106b0dd6843541f808678413a3a09e942ec8a13c877db1e3f1.json"
    );
    assert_eq!(loaded.write.record.lines, vec!["a", "b"]);
    assert_eq!(loaded.write.record.state_codes, "uu");
    assert!(loaded.write.record.states.is_empty());
    assert_eq!(store.config_path().to_text(), "/w/.debth/config.json");
}

#[test]
fn marked_line_is_saved_and_read_back() {
    let path = store_path("/w/a/b.rs");
    let mut store = ReviewStore::open(store_path("/w"), None);
    assert!(!store.knows(&path));
    let write = store
        .set_line_state(&path, 1, LineState::Rejected, &on_disk("x\ny\nz\n", None))
        .unwrap();
    assert!(store.knows(&path));
    assert_eq!(write.record.state_codes, "uru");
    let write = store.set_line_state(&path, 0, LineState::Accepted, &unreadable()).unwrap();
    assert_eq!(write.record.state_codes, "aru");
    let write = store.set_line_state(&path, 9, LineState::Accepted, &unreadable()).unwrap();
    assert_eq!(write.record.state_codes, "aru");

    let mut other = ReviewStore::open(store_path("/w"), None);
    let loaded = other.load_file(&path, &on_disk("x\ny\nz\n", Some(write.record))).unwrap();
    assert_eq!(
        loaded.review.states,
        vec![LineState::Accepted, LineState::Rejected, LineState::Unreviewed]
    );
}

#[test]
fn changed_file_is_read_with_its_old_states() {
    let record = PersistedFileReview {
        lines: vec!["a".to_string(), "b".to_string()],
        state_codes: "ar".to_string(),
        states: Vec::new(),
    };
    let mut store = ReviewStore::open(store_path("/w"), None);
    let loaded =
        store.load_file(&store_path("/w/f"), &on_disk("a\nnew\nb\n", Some(record))).unwrap();
    assert_eq!(loaded.review.lines, vec!["a", "new", "b"]);
    assert_eq!(loaded.write.record.state_codes, "aur");
}

#[test]
fn bytes_that_are_no_text_are_repaired() {
    let disk = FileOnDisk { content: Ok(vec![0x61, 0xff, 0x0a, 0xc3, 0xa9]), record: None };
    let mut store = ReviewStore::open(store_path("/w"), None);
    let loaded = store.load_file(&store_path("/w/f"), &disk).unwrap();
    assert_eq!(loaded.review.lines, vec!["a\u{fffd}", "\u{e9}"]);
}

#[test]
fn errors_tell_what_is_wrong() {
    let mut store = ReviewStore::open(store_path("/w"), None);
    let outside = store.load_file(&store_path("/x/f"), &on_disk("a", None)).unwrap_err();
    assert!(matches!(outside, StoreError::Outside { .. }));
    assert_eq!(outside.message(), "/x/f is outside /w");
    let unread = store.file_stats(&store_path("/w/f"), &unreadable()).unwrap_err();
    assert!(matches!(unread, StoreError::Read { .. }));
    assert_eq!(unread.message(), "failed to read /w/f: gone");
    let many = StoreError::TooManyLines { path: store_path("/w/f") };
    assert_eq!(many.message(), "too many lines in /w/f");
    let marked = store.set_file_state(&store_path("/x"), LineState::Accepted, &unreadable());
    assert!(matches!(marked.unwrap_err(), StoreError::Outside { .. }));
}

#[test]
fn relative_paths_lie_in_the_workspace() {
    let store = ReviewStore::open(store_path("/w"), None);
    assert_eq!(store.relative_path(&store_path("a/b")).unwrap().to_text(), "a/b");
    assert_eq!(store.relative_path(&store_path("/w/a/b")).unwrap().to_text(), "a/b");
    assert_eq!(store.root().to_text(), "/w");
    assert!(store.save_relative(&store_path("a/b")).is_none());
}

#[test]
fn workspace_is_counted_file_by_file() {
    let record = PersistedFileReview {
        lines: vec!["1".to_string(), "2".to_string()],
        state_codes: "ar".to_string(),
        states: Vec::new(),
    };
    let files = vec![
        WorkspaceFile { path: store_path("/w/a"), disk: on_disk("1\n2\n", Some(record)) },
        WorkspaceFile { path: store_path("/w/b"), disk: on_disk("x", None) },
    ];
    let mut store = ReviewStore::open(store_path("/w"), None);
    let mut writes = Vec::new();
    let stats = store.workspace_stats(&files, &mut writes).unwrap();
    assert_eq!(stats, ReviewStats { total: 3, accepted: 1, rejected: 1, unreviewed: 1 });
    assert_eq!(writes.len(), 2);
    assert_eq!(writes[0].record.state_codes, "ar");
    assert_eq!(writes[1].record.state_codes, "u");
    let saved = store.save_relative(&store_path("b")).unwrap();
    assert_eq!(saved.record.lines, vec!["x"]);
}

#[test]
fn count_ends_at_a_file_that_cannot_be_read() {
    let files = vec![
        WorkspaceFile { path: store_path("/w/a"), disk: on_disk("1", None) },
        WorkspaceFile { path: store_path("/w/b"), disk: unreadable() },
        WorkspaceFile { path: store_path("/w/c"), disk: on_disk("1", None) },
    ];
    let mut store = ReviewStore::open(store_path("/w"), None);
    let mut writes = Vec::new();
    assert!(store.workspace_stats(&files, &mut writes).is_err());
    assert_eq!(writes.len(), 1);
    assert!(store.knows(&store_path("/w/a")));
    assert!(!store.knows(&store_path("/w/c")));
}

#[test]
fn question_is_asked_once() {
    let mut store = ReviewStore::open(store_path("/w"), None);
    assert!(!store.needs_gitignore_prompt(false, None));
    assert!(store.needs_gitignore_prompt(true, None));
    assert!(store.needs_gitignore_prompt(true, Some("target\n")));
    assert!(!store.needs_gitignore_prompt(true, Some("target\n.debth/\n")));
    let answer = store.answer_gitignore_prompt(true, "target");
    assert_eq!(answer.gitignore.as_deref(), Some("target\n.debth/\n"));
    assert_eq!(answer.config, StoreConfig { gitignore_prompted: true });
    assert!(!store.needs_gitignore_prompt(true, Some("target")));

    let mut refusing = ReviewStore::open(store_path("/w"), Some(StoreConfig::default()));
    let answer = refusing.answer_gitignore_prompt(false, "target");
    assert_eq!(answer.gitignore, None);
    assert!(!refusing.needs_gitignore_prompt(true, None));
}

#[test]
fn digest_becomes_a_file_name() {
    let place = record_path(&store_path("/w"), &[0x00, 0x9f, 0xa0, 0xff]);
    assert_eq!(place.to_text(), "/w/.debth/files/009fa0ff.json");
}

#[test]
fn file_with_a_blank_last_line_stays_accepted() {
    let path = store_path("/w/f");
    let mut store = ReviewStore::open(store_path("/w"), None);
    let (lines, write) =
        store.set_file_state(&path, LineState::Accepted, &on_disk("a\n\n", None)).unwrap();
    assert_eq!(lines, 2);
    let (stats, write) = store.file_stats(&path, &on_disk("a\n\n", Some(write.record))).unwrap();
    assert_eq!(stats, ReviewStats { total: 2, accepted: 2, rejected: 0, unreviewed: 0 });
    let loaded = store.load_file(&path, &on_disk("a\n\nb\n", Some(write.record))).unwrap();
    assert_eq!(loaded.write.record.state_codes, "aau");
}
