use debth::git::append_debth_to_gitignore;
use debth::git::git_repo_link;
use debth::git::gitignore_contains_debth;
use debth::git::normalize_git_url;

#[test]
fn normalizes_common_git_remote_urls() {
    assert_eq!(
        normalize_git_url("git@github.com:alieron/debth.git"),
        "https://github.com/alieron/debth"
    );
    assert_eq!(
        normalize_git_url("ssh://git@github.com/alieron/debth.git"),
        "https://github.com/alieron/debth"
    );
    assert_eq!(
        normalize_git_url("https://github.com/alieron/debth.git"),
        "https://github.com/alieron/debth"
    );
}

#[test]
fn other_urls_stay() {
    assert_eq!(normalize_git_url("git@host"), "git@host");
    assert_eq!(normalize_git_url("ssh://git@host"), "ssh://git@host");
    assert_eq!(normalize_git_url("/srv/repo.git"), "/srv/repo");
    assert_eq!(normalize_git_url(".git"), "");
    assert_eq!(normalize_git_url("git@a:b:c"), "https://a/b:c");
}

#[test]
fn link_comes_from_the_origin_section() {
    let config = "[core]\n\turl = no\n[remote \"up\"]\n\turl = x\n[remote \"origin\"]\r\n\tfetch = +a\n\turl = git@host:me/it.git \n\turl = second\n";
    assert_eq!(git_repo_link(config).as_deref(), Some("https://host/me/it"));
    assert_eq!(git_repo_link("[remote \"origin\"]\npushurl = x\n"), None);
    assert_eq!(git_repo_link(""), None);
}

#[test]
fn gitignore_line_is_recognized() {
    for line in [".debth", ".debth/", "/.debth", "/.debth/", "  .debth/ \t"] {
        assert!(gitignore_contains_debth(&format!("target\r\n{line}\n")), "{line}");
    }
    for line in ["# .debth/", "#.debth/", "a/.debth", ".debth/x", "!.debth/", ""] {
        assert!(!gitignore_contains_debth(line), "{line}");
    }
}

#[test]
fn gitignore_line_is_appended_and_then_seen() {
    assert_eq!(append_debth_to_gitignore(""), ".debth/\n");
    assert_eq!(append_debth_to_gitignore("target"), "target\n.debth/\n");
    assert_eq!(append_debth_to_gitignore("target\n"), "target\n.debth/\n");
    assert!(gitignore_contains_debth(&append_debth_to_gitignore("a")));
}
