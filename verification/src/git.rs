//! What the library reads of a git repository: its remote, and whether the review state is
//! kept out of it.

use vstd::prelude::*;

use crate::text;

verus! {

/// Whether a line of `.gitignore` names the directory for review state.
pub open spec fn names_state_dir(line: Seq<char>) -> bool {
    let line = text::trim(line);
    line == ".debth"@ || line == ".debth/"@ || line == "/.debth"@ || line == "/.debth/"@
}

/// Whether a `.gitignore` with this content leaves the review state out.
pub open spec fn leaves_out_state(content: Seq<char>) -> bool {
    let lines = text::text_lines(content);
    exists|i: int| 0 <= i < lines.len() && names_state_dir(#[trigger] lines[i])
}

/// A `.gitignore` with one more line for the review state.
pub open spec fn with_state_line(existing: Seq<char>) -> Seq<char> {
    let before = if existing.len() > 0 && existing.last() != '\n' {
        existing.push('\n')
    } else {
        existing
    };
    before + ".debth/\n"@
}

/// Whether a `.gitignore` with this content leaves the review state out.
pub fn gitignore_contains_debth(content: &str) -> (r: bool)
    ensures
        r == leaves_out_state(content@),
{
    let lines = text::lines_of_text(content);
    let ghost all = text::text_lines(content@);
    let mut i: usize = 0;
    while i < lines.len()
        invariant
            i <= lines@.len(),
            all == text::views(lines@),
            all == text::text_lines(content@),
            forall|k: int| 0 <= k < i ==> !names_state_dir(#[trigger] all[k]),
        decreases lines@.len() - i,
    {
        let line = text::trimmed(lines[i].as_slice());
        assert(all[i as int] == lines@[i as int]@);
        if text::chars_are(line.as_slice(), ".debth") || text::chars_are(line.as_slice(), ".debth/")
            || text::chars_are(line.as_slice(), "/.debth") || text::chars_are(
            line.as_slice(),
            "/.debth/",
        ) {
            return true;
        }
        i = i + 1;
    }
    false
}

/// The content of `.gitignore` with a line for the review state.
pub fn append_debth_to_gitignore(existing: &str) -> (r: String)
    ensures
        r@ == with_state_line(existing@),
        leaves_out_state(r@),
{
    let cs = text::chars_of(existing);
    let mut next: String = String::new();
    next.append(existing);
    assert(next@ =~= existing@);
    if cs.len() > 0 && cs[cs.len() - 1] != '\n' {
        next.push('\n');
    }
    next.append(".debth/\n");
    proof {
        state_line_is_seen(existing@);
    }
    next
}

/// Once the line has been added, the review state is left out.
pub proof fn state_line_is_seen(existing: Seq<char>)
    ensures
        leaves_out_state(with_state_line(existing)),
{
    reveal_strlit(".debth/");
    reveal_strlit(".debth/\n");
    let name = ".debth/"@;
    assert(".debth/\n"@ =~= name.push('\n'));
    reveal_with_fuel(text::lacks, 8);
    assert(text::lacks(name, '\n', 7));
    text::lemma_lacks(name, '\n', 7);
    assert(!name.contains('\n'));
    text::lemma_split_unbroken(name, '\n');
    let whole = with_state_line(existing);
    let pieces = text::split(whole, '\n');
    if existing.len() == 0 {
        assert(whole =~= name.push('\n'));
        assert(name.push('\n').drop_last() =~= name);
        assert(pieces =~= seq![name, Seq::empty()]);
    } else {
        let body = if existing.last() != '\n' {
            existing
        } else {
            existing.drop_last()
        };
        let front = body.push('\n') + name;
        assert(whole =~= front.push('\n'));
        assert(front.push('\n').drop_last() =~= front);
        text::lemma_split_around(body, '\n', name);
        assert(pieces == text::split(front, '\n').push(Seq::empty()));
    }
    let n = pieces.len() - 2;
    assert(pieces[n] == name);
    assert(pieces.last().len() == 0);
    let lines = text::text_lines(whole);
    assert(lines[n] == text::strip_return(name));
    assert(text::trim(name) == name);
    assert(names_state_dir(lines[n]));
}

/// Whether a line starts a section of a git configuration.
pub open spec fn is_section(line: Seq<char>) -> bool {
    line.len() > 0 && line[0] == '[' && line.last() == ']'
}

/// The value of a setting with the key `url`.
pub open spec fn url_setting(line: Seq<char>) -> Option<Seq<char>> {
    let i = text::first_at(line, '=');
    if i < line.len() && text::trim(line.take(i)) == "url"@ {
        Some(text::trim(line.skip(i + 1)))
    } else {
        None
    }
}

/// The first `url` of a section for the remote `origin`, from line `from` on, where
/// `in_origin` says whether that line lies in such a section.
pub open spec fn origin_url(lines: Seq<Seq<char>>, from: int, in_origin: bool) -> Option<Seq<char>>
    decreases lines.len() - from,
{
    if from < 0 || from >= lines.len() {
        None
    } else {
        let line = text::trim(lines[from]);
        if is_section(line) {
            origin_url(lines, from + 1, line == "[remote \"origin\"]"@)
        } else if in_origin && url_setting(line) is Some {
            url_setting(line)
        } else {
            origin_url(lines, from + 1, in_origin)
        }
    }
}

/// `s` without `suffix` at its end.
pub open spec fn without_suffix(s: Seq<char>, suffix: Seq<char>) -> Seq<char> {
    if suffix.is_suffix_of(s) {
        s.take(s.len() - suffix.len())
    } else {
        s
    }
}

/// The web address for `host`, `sep` and a path that follow `prefix`.
pub open spec fn web_address(url: Seq<char>, prefix: Seq<char>, sep: char) -> Option<Seq<char>> {
    let rest = url.skip(prefix.len() as int);
    let i = text::first_at(rest, sep);
    if prefix.is_prefix_of(url) && i < rest.len() {
        Some("https://"@ + rest.take(i) + "/"@ + rest.skip(i + 1))
    } else {
        None
    }
}

/// The web address for a remote: `git@host:path` and `ssh://git@host/path` become
/// `https://host/path`, and a `.git` at the end is dropped.
pub open spec fn web_url(url: Seq<char>) -> Seq<char> {
    let url = without_suffix(url, ".git"@);
    match web_address(url, "git@"@, ':') {
        Some(address) => address,
        None => match web_address(url, "ssh://git@"@, '/') {
            Some(address) => address,
            None => url,
        },
    }
}

/// The web address of the remote `origin` of a git configuration.
pub open spec fn origin_link(config: Seq<char>) -> Option<Seq<char>> {
    match origin_url(text::text_lines(config), 0, false) {
        Some(url) => Some(web_url(url)),
        None => None,
    }
}

fn address(url: &[char], prefix: &str, sep: char) -> (r: Option<String>)
    ensures
        match r {
            Some(text) => web_address(url@, prefix@, sep) == Some(text@),
            None => web_address(url@, prefix@, sep) is None,
        },
{
    if !text::starts_with(url, prefix) {
        return None;
    }
    let p = text::chars_of(prefix);
    let rest = text::copy_range(url, p.len(), url.len());
    assert(rest@ =~= url@.skip(prefix@.len() as int));
    match text::first_index(rest.as_slice(), sep) {
        None => None,
        Some(i) => {
            let host = text::copy_range(rest.as_slice(), 0, i);
            let path = text::copy_range(rest.as_slice(), i + 1, rest.len());
            assert(host@ =~= rest@.take(i as int));
            assert(path@ =~= rest@.skip(i + 1));
            let mut r: String = "https://".to_owned();
            r.append(text::string_of(host.as_slice()).as_str());
            r.append("/");
            r.append(text::string_of(path.as_slice()).as_str());
            Some(r)
        },
    }
}

/// The web address for a remote.
pub fn normalize_git_url(url: &str) -> (r: String)
    ensures
        r@ == web_url(url@),
{
    let cs = text::chars_of(url);
    normalize_chars(cs.as_slice())
}

fn normalize_chars(url: &[char]) -> (r: String)
    ensures
        r@ == web_url(url@),
{
    let suffix = text::chars_of(".git");
    let end: usize = if text::ends_with(url, ".git") {
        url.len() - suffix.len()
    } else {
        url.len()
    };
    let kept = text::copy_range(url, 0, end);
    assert(kept@ =~= without_suffix(url@, ".git"@));
    match address(kept.as_slice(), "git@", ':') {
        Some(r) => r,
        None => match address(kept.as_slice(), "ssh://git@", '/') {
            Some(r) => r,
            None => text::string_of(kept.as_slice()),
        },
    }
}

/// The web address of the remote `origin`, from the content of `.git/config`.
pub fn git_repo_link(config: &str) -> (r: Option<String>)
    ensures
        match r {
            Some(link) => origin_link(config@) == Some(link@),
            None => origin_link(config@) is None,
        },
{
    let lines = text::lines_of_text(config);
    let ghost all = text::text_lines(config@);
    let mut in_origin = false;
    let mut i: usize = 0;
    while i < lines.len()
        invariant
            i <= lines@.len(),
            all == text::views(lines@),
            all == text::text_lines(config@),
            origin_url(all, i as int, in_origin) == origin_url(all, 0, false),
        decreases lines@.len() - i,
    {
        let line = text::trimmed(lines[i].as_slice());
        assert(all[i as int] == lines@[i as int]@);
        if line.len() > 0 && line[0] == '[' && line[line.len() - 1] == ']' {
            in_origin = text::chars_are(line.as_slice(), "[remote \"origin\"]");
        } else if in_origin {
            if let Some(at) = text::first_index(line.as_slice(), '=') {
                let left = text::copy_range(line.as_slice(), 0, at);
                assert(left@ =~= line@.take(at as int));
                let key = text::trimmed(left.as_slice());
                if text::chars_are(key.as_slice(), "url") {
                    let right = text::copy_range(line.as_slice(), at + 1, line.len());
                    assert(right@ =~= line@.skip(at + 1));
                    let value = text::trimmed(right.as_slice());
                    return Some(normalize_chars(value.as_slice()));
                }
            }
        }
        i = i + 1;
    }
    None
}

} // verus!
