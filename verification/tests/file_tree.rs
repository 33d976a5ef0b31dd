use debth::fs_tree::is_builtin_ignored;
use debth::fs_tree::DiskEntry;
use debth::fs_tree::EntryType;
use debth::fs_tree::FileTree;
use debth::fs_tree::Listing;
use debth::fs_tree::TreeEntryKind;
use debth::fs_tree::TreeError;
use debth::ignore::IgnoreError;
use debth::path::FsPath;

fn tree_path(text: &str) -> FsPath {
    let parts = text.split('/').filter(|part| !part.is_empty());
    FsPath::new(text.starts_with('/'), parts.map(|part| part.as_bytes().to_vec()).collect())
}

fn file_entry(name: &str, _content: &str) -> DiskEntry {
    DiskEntry {
        name: name.as_bytes().to_vec(),
        entry_type: EntryType::Other,
        leads_to_dir: false,
        leads_to_file: true,
        listing: Ok(Vec::new()),
    }
}

fn dir_entry(name: &str, entries: Vec<DiskEntry>) -> DiskEntry {
    DiskEntry {
        name: name.as_bytes().to_vec(),
        entry_type: EntryType::Directory,
        leads_to_dir: true,
        leads_to_file: false,
        listing: Ok(entries),
    }
}

fn names(tree: &FileTree) -> Vec<&str> {
    tree.visible().iter().map(|entry| entry.name.as_str()).collect()
}

fn texts(paths: &[FsPath]) -> Vec<String> {
    paths.iter().map(|path| path.to_text()).collect()
}

#[test]
fn selected_directory_can_expand_and_collapse() {
    let root = tree_path("/w");
    let disk: Listing = Ok(vec![dir_entry("src", vec![file_entry("main.rs", "fn main() {}\n")])]);

    let mut tree = FileTree::new(root, "", &disk).unwrap();
    assert_eq!(tree.visible().len(), 1);
    assert_eq!(tree.visible()[0].name, "src");
    assert!(!tree.visible()[0].expanded);

    tree.toggle_selected("", &disk).unwrap();
    assert_eq!(tree.visible().len(), 2);
    assert!(tree.visible()[0].expanded);
    assert_eq!(tree.visible()[1].name, "main.rs");

    tree.toggle_selected("", &disk).unwrap();
    assert_eq!(tree.visible().len(), 1);
    assert!(!tree.visible()[0].expanded);
}

#[test]
fn ignored_selected_file_disappears_from_visible_tree() {
    let root = tree_path("/w");
    let disk: Listing = Ok(vec![
        file_entry("keep.rs", "fn keep() {}\n"),
        file_entry("skip.rs", "fn skip() {}\n"),
    ]);

    let mut tree = FileTree::new(root, "", &disk).unwrap();
    while tree
        .selected_entry()
        .is_some_and(|entry| entry.name != "skip.rs")
    {
        tree.move_down();
    }
    let ignored = tree.ignore_selected("", &disk).unwrap().expect("selected entry");

    assert_eq!(ignored.entry.pattern, "/skip.rs");
    assert!(tree.visible().iter().all(|entry| entry.name != "skip.rs"));
    assert!(tree.visible().iter().any(|entry| entry.name == "keep.rs"));
    assert!(ignored.refreshed.is_ok());
    assert!(ignored.content.unwrap().ends_with("\n/skip.rs\n"));
}

#[test]
fn ignored_selected_directory_hides_children_from_stats_files() {
    let root = tree_path("/w");
    let keep = root.join(&tree_path("keep"));
    let skip = root.join(&tree_path("skip"));
    let disk: Listing = Ok(vec![
        dir_entry("keep", vec![file_entry("main.rs", "fn keep() {}\n")]),
        dir_entry("skip", vec![file_entry("main.rs", "fn skip() {}\n")]),
    ]);

    let mut tree = FileTree::new(root, "", &disk).unwrap();
    while tree
        .selected_entry()
        .is_some_and(|entry| entry.name != "skip")
    {
        tree.move_down();
    }
    let ignored = tree.ignore_selected("", &disk).unwrap().expect("selected entry");

    assert_eq!(ignored.entry.pattern, "/skip/");
    assert!(tree.files(&disk).iter().all(|path| !path.starts_with(&skip)));
    assert!(tree.files(&disk).iter().any(|path| path.starts_with(&keep)));
    assert_eq!(ignored.entry.kind, TreeEntryKind::Directory);
}

#[test]
fn directories_come_first_and_names_decide() {
    let disk: Listing = Ok(vec![
        file_entry("b", ""),
        dir_entry("z", Vec::new()),
        file_entry("B", ""),
        dir_entry("a", Vec::new()),
        file_entry("ab", ""),
        dir_entry(".git", Vec::new()),
        dir_entry("target", Vec::new()),
        file_entry(".debth", ""),
    ]);
    let tree = FileTree::new(tree_path("/w"), "", &disk).unwrap();
    assert_eq!(names(&tree), vec!["a", "z", "B", "ab", "b"]);
    assert!(is_builtin_ignored(b"target"));
    assert!(!is_builtin_ignored(b"targets"));
    assert!(tree.is_hidden(&tree_path("/w/.git"), b".git", true));
}

#[test]
fn links_to_directories_sort_as_such_and_stay_closed() {
    let mut link = file_entry("link", "");
    link.leads_to_dir = true;
    link.leads_to_file = false;
    link.listing = Ok(vec![file_entry("inner", "")]);
    let disk: Listing = Ok(vec![file_entry("a", ""), link]);
    let mut tree = FileTree::new(tree_path("/w"), "", &disk).unwrap();
    assert_eq!(names(&tree), vec!["link", "a"]);
    assert_eq!(tree.visible()[0].kind, TreeEntryKind::File);
    assert_eq!(tree.toggle_selected("", &disk).unwrap().unwrap().to_text(), "/w/link");
    assert_eq!(texts(&tree.files(&disk)), vec!["/w/a", "/w/link/inner"]);
}

#[test]
fn rows_are_indented_by_depth() {
    let inner = dir_entry("b", vec![file_entry("c", "")]);
    let disk: Listing = Ok(vec![dir_entry("a", vec![inner]), file_entry("d", "")]);
    let mut tree = FileTree::new(tree_path("/w"), "", &disk).unwrap();
    assert!(tree.may_list(&tree_path("/w")));
    assert!(tree.may_list(&tree_path("/w/a")));
    assert!(!tree.may_list(&tree_path("/w/a/b")));
    assert!(tree.expand_selected("", &disk).unwrap().is_none());
    tree.move_down();
    assert!(tree.expand_selected("", &disk).unwrap().is_none());
    assert_eq!(names(&tree), vec!["a", "b", "c", "d"]);
    let depths: Vec<usize> = tree.visible().iter().map(|entry| entry.depth).collect();
    assert_eq!(depths, vec![0, 1, 2, 0]);
    assert_eq!(tree.selected_path().unwrap().to_text(), "/w/a/b");
    tree.move_down();
    assert_eq!(tree.expand_selected("", &disk).unwrap().unwrap().to_text(), "/w/a/b/c");
}

#[test]
fn collapsing_goes_up_before_it_closes() {
    let disk: Listing = Ok(vec![dir_entry("a", vec![file_entry("b", "")]), file_entry("c", "")]);
    let mut tree = FileTree::new(tree_path("/w"), "", &disk).unwrap();
    tree.toggle_selected("", &disk).unwrap();
    tree.move_down();
    assert_eq!(tree.selected(), 1);
    tree.collapse_selected("", &disk).unwrap();
    assert_eq!(tree.selected(), 0);
    assert_eq!(tree.visible().len(), 3);
    tree.collapse_selected("", &disk).unwrap();
    assert_eq!(names(&tree), vec!["a", "c"]);
    tree.move_down();
    tree.collapse_selected("", &disk).unwrap();
    assert_eq!(tree.selected(), 1);
}

#[test]
fn selection_stays_on_its_row() {
    let disk: Listing = Ok(vec![file_entry("b", ""), file_entry("d", "")]);
    let mut tree = FileTree::new(tree_path("/w"), "", &disk).unwrap();
    tree.move_down();
    tree.move_down();
    assert_eq!(tree.selected_entry().unwrap().name, "d");
    let more: Listing = Ok(vec![file_entry("a", ""), file_entry("d", ""), file_entry("b", "")]);
    tree.refresh("", &more).unwrap();
    assert_eq!(tree.selected(), 2);
    let fewer: Listing = Ok(vec![file_entry("a", "")]);
    tree.refresh("", &fewer).unwrap();
    assert_eq!(tree.selected_entry().unwrap().name, "a");
    let none: Listing = Ok(Vec::new());
    tree.refresh("", &none).unwrap();
    assert!(tree.selected_entry().is_none());
    tree.move_down();
    tree.move_up();
    assert_eq!(tree.selected(), 0);
    assert!(tree.toggle_selected("", &none).unwrap().is_none());
    assert!(tree.ignore_selected("", &none).unwrap().is_none());
}

#[test]
fn opening_and_closing_gives_the_same_rows() {
    let disk: Listing = Ok(vec![
        dir_entry("a", vec![dir_entry("b", vec![file_entry("c", "")])]),
        dir_entry("d", vec![file_entry("e", "")]),
    ]);
    let mut tree = FileTree::new(tree_path("/w"), "", &disk).unwrap();
    tree.toggle_selected("", &disk).unwrap();
    tree.move_down();
    tree.toggle_selected("", &disk).unwrap();
    tree.move_up();
    let before: Vec<String> = names(&tree).iter().map(|name| name.to_string()).collect();
    assert_eq!(before, vec!["a", "b", "c", "d"]);
    tree.toggle_selected("", &disk).unwrap();
    assert_eq!(names(&tree), vec!["a", "d"]);
    tree.toggle_selected("", &disk).unwrap();
    assert_eq!(names(&tree), before);
    assert_eq!(tree.selected(), 0);
}

#[test]
fn directory_that_cannot_be_read_is_an_error() {
    let mut closed = dir_entry("a", Vec::new());
    closed.listing = Err("denied".to_string());
    let disk: Listing = Ok(vec![closed, file_entry("b", "")]);
    let mut tree = FileTree::new(tree_path("/w"), "", &disk).unwrap();
    let error = tree.toggle_selected("", &disk).unwrap_err();
    assert!(matches!(error, TreeError::Listing { .. }));
    assert_eq!(error.message(), "failed to read /w/a: denied");
    assert_eq!(names(&tree), vec!["a"]);
    assert_eq!(texts(&tree.files(&disk)), vec!["/w/b"]);

    let gone: Listing = Err("gone".to_string());
    let error = FileTree::new(tree_path("/w"), "", &gone).unwrap_err();
    assert_eq!(error.message(), "failed to read /w: gone");
}

#[test]
fn entry_without_a_type_is_an_error() {
    let mut strange = file_entry("b", "");
    strange.entry_type = EntryType::Unknown("no type".to_string());
    let disk: Listing = Ok(vec![file_entry("a", ""), strange]);
    let error = FileTree::new(tree_path("/w"), "", &disk).unwrap_err();
    assert!(matches!(error, TreeError::EntryType { .. }));
    assert_eq!(error.message(), "no type");
    let outside = TreeError::Ignore(IgnoreError::WorkspaceRoot);
    assert_eq!(outside.message(), "cannot ignore the workspace root itself");
}

#[test]
fn ignored_directories_are_not_walked() {
    let disk: Listing = Ok(vec![
        dir_entry("logs", vec![file_entry("keep.txt", "")]),
        dir_entry("src", vec![file_entry("a.log", ""), file_entry("b.rs", "")]),
    ]);
    let tree = FileTree::new(tree_path("/w"), "logs/\n*.log\n!keep.txt\n", &disk).unwrap();
    assert_eq!(names(&tree), vec!["src"]);
    assert_eq!(texts(&tree.files(&disk)), vec!["/w/src/b.rs"]);
    assert_eq!(tree.root().to_text(), "/w");
}

#[test]
fn line_that_is_taken_back_again_leaves_the_entry() {
    let disk: Listing = Ok(vec![file_entry("a", "")]);
    let existing = "/a\n!/a\n";
    let mut tree = FileTree::new(tree_path("/w"), existing, &disk).unwrap();
    let ignored = tree.ignore_selected(existing, &disk).unwrap().unwrap();
    assert_eq!(ignored.content, None);
    assert_eq!(names(&tree), vec!["a"]);
}

#[test]
fn copies_go_their_own_way() {
    let disk: Listing = Ok(vec![dir_entry("a", vec![file_entry("b", "")])]);
    let mut tree = FileTree::new(tree_path("/w"), "*.log\n", &disk).unwrap();
    let mut copy = tree.clone();
    copy.toggle_selected("*.log\n", &disk).unwrap();
    assert_eq!(names(&tree), vec!["a"]);
    assert_eq!(names(&copy), vec!["a", "b"]);
    assert!(copy.is_hidden(&tree_path("/w/x.log"), b"x.log", false));
    tree.toggle_selected("*.log\n", &disk).unwrap();
    assert_eq!(names(&tree), names(&copy));
}

#[test]
fn toggling_turns_the_mark_and_keeps_the_selection() {
    let disk: Listing = Ok(vec![
        dir_entry("a", vec![dir_entry("b", vec![file_entry("c", "")])]),
        file_entry("d", ""),
    ]);
    let mut tree = FileTree::new(tree_path("/w"), "", &disk).unwrap();
    tree.expand_selected("", &disk).unwrap();
    tree.expand_selected("", &disk).unwrap();
    assert!(tree.selected_entry().unwrap().expanded);
    assert_eq!(names(&tree), vec!["a", "b", "d"]);
    tree.toggle_selected("", &disk).unwrap();
    assert_eq!(tree.selected_entry().unwrap().name, "a");
    assert!(!tree.selected_entry().unwrap().expanded);
    assert_eq!(names(&tree), vec!["a", "d"]);
    assert_eq!(texts(&tree.files(&disk)), vec!["/w/a/b/c", "/w/d"]);
}
