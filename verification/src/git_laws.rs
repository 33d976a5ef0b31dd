//! What holds of the files of git, whatever they hold.

use vstd::prelude::*;

use crate::git;
use crate::rule_laws;
use crate::text;
use crate::text_laws;

verus! {

/// A line names the directory if it is one of four spellings, with white space around it.
pub proof fn four_spellings_name_the_directory(
    before: Seq<char>,
    core: Seq<char>,
    after: Seq<char>,
)
    requires
        rule_laws::blank(before),
        rule_laws::blank(after),
        core.len() > 0,
        !text::is_white_space(core[0]),
        !text::is_white_space(core.last()),
    ensures
        git::names_state_dir(before + core + after) <==> (core == ".debth"@ || core == ".debth/"@
            || core == "/.debth"@ || core == "/.debth/"@),
        !git::names_state_dir(before),
{
    rule_laws::trim_takes_what_is_around(before, core, after);
    let (i, j) = text_laws::trim_takes_white_space(before);
    if i < j {
        assert(text::is_white_space(before[i]));
    }
    reveal_strlit(".debth");
    reveal_strlit(".debth/");
    reveal_strlit("/.debth");
    reveal_strlit("/.debth/");
    assert(".debth"@.len() == 6 && ".debth/"@.len() == 7 && "/.debth"@.len() == 7
        && "/.debth/"@.len() == 8);
}

/// The directory is left out as soon as one line of the file names it, wherever that line
/// stands and however its end is written.
pub proof fn one_line_is_enough(content: Seq<char>)
    ensures
        git::leaves_out_state(content) <==> exists|i: int|
            0 <= i < text::feed_lines(content).len() && git::names_state_dir(
                #[trigger] text::feed_lines(content)[i],
            ),
{
    let lines = text::text_lines(content);
    let feed = text::feed_lines(content);
    assert(lines.len() == feed.len()) by {
        if feed.len() > 0 {
            text_laws::text_lines_lose_a_return(content, 0);
        } else {
            text::lemma_split_nonempty(content, '\n');
        }
    }
    assert forall|i: int| 0 <= i < feed.len() implies git::names_state_dir(#[trigger] feed[i])
        == git::names_state_dir(lines[i]) by {
        text_laws::text_lines_lose_a_return(content, i);
        text::lemma_trim_strip_return(feed[i]);
        if lines[i] != feed[i] {
            assert(lines[i] =~= text::strip_return(feed[i]));
        }
    }
    if git::leaves_out_state(content) {
        let i = choose|i: int| 0 <= i < lines.len() && git::names_state_dir(#[trigger] lines[i]);
        assert(git::names_state_dir(feed[i]));
    }
    if exists|i: int| 0 <= i < feed.len() && git::names_state_dir(#[trigger] feed[i]) {
        let i = choose|i: int| 0 <= i < feed.len() && git::names_state_dir(#[trigger] feed[i]);
        assert(git::names_state_dir(lines[i]));
    }
}

/// The line is written at the end of the file, and what was there before stays; a line that
/// was not ended is ended first.
pub proof fn state_line_is_written_at_the_end(existing: Seq<char>)
    ensures
        existing.len() == 0 || existing.last() == '\n' ==> git::with_state_line(existing)
            == existing + ".debth/\n"@,
        existing.len() > 0 && existing.last() != '\n' ==> git::with_state_line(existing) == existing
            + seq!['\n'] + ".debth/\n"@,
{
    assert(existing.push('\n') =~= existing + seq!['\n']);
}

proof fn lemma_first_at(a: Seq<char>, c: char, b: Seq<char>)
    requires
        !a.contains(c),
    ensures
        text::first_at(a + seq![c] + b, c) == a.len(),
{
    let s = a + seq![c] + b;
    text_laws::first_at_is_first(s, c);
    let i = text::first_at(s, c);
    assert(s[a.len() as int] == c);
    assert(i <= a.len());
    if i < a.len() {
        assert(s[i] == a[i]);
        assert(a.contains(a[i]));
    }
}

/// An address for SSH, in either way of writing it, becomes one for the web: the same host and
/// the same path behind a slash. A `.git` at the end is taken off, once.
pub proof fn ssh_addresses_become_web_addresses(host: Seq<char>, path: Seq<char>)
    ensures
        !host.contains(':') ==> git::web_url("git@"@ + host + seq![':'] + path + ".git"@)
            == "https://"@ + host + "/"@ + path,
        !host.contains('/') ==> git::web_url("ssh://git@"@ + host + seq!['/'] + path + ".git"@)
            == "https://"@ + host + "/"@ + path,
{
    let end = ".git"@;
    if !host.contains(':') {
        let url = "git@"@ + host + seq![':'] + path;
        lemma_suffix_taken(url, end);
        lemma_web_address(url, "git@"@, host, ':', path);
    }
    if !host.contains('/') {
        let url = "ssh://git@"@ + host + seq!['/'] + path;
        lemma_suffix_taken(url, end);
        lemma_web_address(url, "ssh://git@"@, host, '/', path);
        reveal_strlit("git@");
        reveal_strlit("ssh://git@");
        assert("git@"@[0] == 'g');
        assert("ssh://git@"@[0] == 's');
        assert(url[0] == 's');
        if "git@"@.is_prefix_of(url) {
            assert(url.subrange(0, "git@"@.len() as int)[0] == url[0]);
        }
    }
}

proof fn lemma_suffix_taken(s: Seq<char>, suffix: Seq<char>)
    ensures
        git::without_suffix(s + suffix, suffix) == s,
{
    let all = s + suffix;
    assert(suffix =~= all.subrange(all.len() - suffix.len(), all.len() as int));
    assert(all.take(all.len() - suffix.len()) =~= s);
}

proof fn lemma_web_address(
    url: Seq<char>,
    prefix: Seq<char>,
    host: Seq<char>,
    sep: char,
    path: Seq<char>,
)
    requires
        url == prefix + host + seq![sep] + path,
        !host.contains(sep),
    ensures
        git::web_address(url, prefix, sep) == Some("https://"@ + host + "/"@ + path),
{
    let rest = url.skip(prefix.len() as int);
    assert(rest =~= host + seq![sep] + path);
    lemma_first_at(host, sep, path);
    assert(prefix =~= url.subrange(0, prefix.len() as int));
    assert(rest.take(host.len() as int) =~= host);
    assert(rest.skip(host.len() as int + 1) =~= path);
}

/// Taking `.git` off the end is all that happens to an address that is not for SSH, and an
/// address with and without it leads to the same page.
pub proof fn other_addresses_stay(url: Seq<char>)
    requires
        !".git"@.is_suffix_of(url),
    ensures
        git::web_url(url + ".git"@) == git::web_url(url),
        !"git@"@.is_prefix_of(url) && !"ssh://git@"@.is_prefix_of(url) ==> git::web_url(url) == url,
{
    lemma_suffix_taken(url, ".git"@);
}

/// A setting is the name `url`, an equals sign and the value, each with white space around it;
/// an equals sign in the value is part of it.
pub proof fn url_setting_is_read(before: Seq<char>, mid: Seq<char>, value: Seq<char>)
    requires
        rule_laws::blank(before),
        rule_laws::blank(mid),
    ensures
        git::url_setting(before + "url"@ + mid + seq!['='] + value) == Some(text::trim(value)),
{
    let key = before + "url"@ + mid;
    let line = key + seq!['='] + value;
    reveal_strlit("url");
    assert("url"@[0] == 'u' && "url"@[1] == 'r' && "url"@[2] == 'l');
    assert("url"@.len() == 3);
    assert forall|k: int| 0 <= k < key.len() implies key[k] != '=' by {
        if k < before.len() {
            assert(text::is_white_space(before[k]));
        } else if k >= before.len() + 3 {
            assert(text::is_white_space(mid[k - before.len() - 3]));
        } else {
            assert(key[k] == "url"@[k - before.len()]);
        }
    }
    lemma_first_at(key, '=', value);
    assert(line.take(key.len() as int) =~= key);
    assert(line.skip(key.len() as int + 1) =~= value);
    rule_laws::trim_takes_what_is_around(before, "url"@, mid);
}

/// A line without an equals sign is no setting, nor is one with another name in front of the
/// first equals sign.
pub proof fn other_settings_are_passed_over(key: Seq<char>, value: Seq<char>)
    requires
        !key.contains('='),
        text::trim(key) != "url"@,
    ensures
        git::url_setting(key) is None,
        git::url_setting(key + seq!['='] + value) is None,
{
    text_laws::first_at_is_first(key, '=');
    let i = text::first_at(key, '=');
    if i < key.len() {
        assert(key.contains(key[i]));
    }
    lemma_first_at(key, '=', value);
    let line = key + seq!['='] + value;
    assert(line.take(key.len() as int) =~= key);
}

/// Whether a line opens the section of the remote `origin`.
pub open spec fn opens_origin(line: Seq<char>) -> bool {
    text::trim(line) == "[remote \"origin\"]"@
}

/// Whether a line opens a section: it is in square brackets.
pub open spec fn opens_section(line: Seq<char>) -> bool {
    let line = text::trim(line);
    line.len() > 0 && line[0] == '[' && line.last() == ']'
}

/// The address is the first `url` in the first section of the remote `origin`: what stands in
/// other sections, before it or after it, does not count.
pub proof fn address_is_the_first_of_origin(
    lines: Seq<Seq<char>>,
    i: int,
    j: int,
    url: Seq<char>,
)
    requires
        0 <= i < j < lines.len(),
        forall|k: int| 0 <= k < i ==> !opens_origin(#[trigger] lines[k]),
        opens_origin(lines[i]),
        forall|k: int| i < k <= j ==> !opens_section(#[trigger] lines[k]),
        forall|k: int| i < k < j ==> git::url_setting(text::trim(#[trigger] lines[k])) is None,
        git::url_setting(text::trim(lines[j])) == Some(url),
    ensures
        git::origin_url(lines, 0, false) == Some(url),
{
    reveal_strlit("[remote \"origin\"]");
    assert(opens_section(lines[i]));
    lemma_before_origin(lines, 0, i);
    lemma_in_origin(lines, i + 1, j);
}

proof fn lemma_before_origin(lines: Seq<Seq<char>>, from: int, i: int)
    requires
        0 <= from <= i <= lines.len(),
        forall|k: int| from <= k < i ==> !opens_origin(#[trigger] lines[k]),
    ensures
        git::origin_url(lines, from, false) == git::origin_url(lines, i, false),
    decreases i - from,
{
    if from < i {
        assert(!opens_origin(lines[from]));
        lemma_before_origin(lines, from + 1, i);
    }
}

proof fn lemma_in_origin(lines: Seq<Seq<char>>, from: int, j: int)
    requires
        0 <= from <= j < lines.len(),
        forall|k: int| from <= k <= j ==> !opens_section(#[trigger] lines[k]),
        forall|k: int| from <= k < j ==> git::url_setting(text::trim(#[trigger] lines[k])) is None,
        git::url_setting(text::trim(lines[j])) is Some,
    ensures
        git::origin_url(lines, from, true) == git::url_setting(text::trim(lines[j])),
    decreases j - from,
{
    assert(!opens_section(lines[from]));
    if from < j {
        lemma_in_origin(lines, from + 1, j);
    }
}

/// The section of the remote `origin` ends where another one starts: a `url` behind that does
/// not count.
pub proof fn section_of_origin_ends(lines: Seq<Seq<char>>, i: int, j: int)
    requires
        0 <= i < j < lines.len(),
        forall|k: int| 0 <= k < lines.len() && k != i ==> !opens_origin(#[trigger] lines[k]),
        opens_origin(lines[i]),
        opens_section(lines[j]),
        forall|k: int| i < k < j ==> !opens_section(#[trigger] lines[k]),
        forall|k: int| i < k < j ==> git::url_setting(text::trim(#[trigger] lines[k])) is None,
    ensures
        git::origin_url(lines, 0, false) is None,
{
    reveal_strlit("[remote \"origin\"]");
    assert(opens_section(lines[i]));
    lemma_before_origin(lines, 0, i);
    lemma_through_origin(lines, i + 1, j);
    assert(!opens_origin(lines[j]));
    lemma_before_origin(lines, j + 1, lines.len() as int);
}

proof fn lemma_through_origin(lines: Seq<Seq<char>>, from: int, j: int)
    requires
        0 <= from <= j < lines.len(),
        forall|k: int| from <= k < j ==> !opens_section(#[trigger] lines[k]),
        forall|k: int| from <= k < j ==> git::url_setting(text::trim(#[trigger] lines[k])) is None,
    ensures
        git::origin_url(lines, from, true) == git::origin_url(lines, j, true),
    decreases j - from,
{
    if from < j {
        assert(!opens_section(lines[from]));
        lemma_through_origin(lines, from + 1, j);
    }
}

/// Without a section of the remote `origin` there is no address, whatever other sections say.
pub proof fn no_origin_has_no_address(lines: Seq<Seq<char>>)
    requires
        forall|k: int| 0 <= k < lines.len() ==> !opens_origin(#[trigger] lines[k]),
    ensures
        git::origin_url(lines, 0, false) is None,
{
    lemma_before_origin(lines, 0, lines.len() as int);
}

/// The link is the address of `origin` made one for the web.
pub proof fn link_is_the_web_address_of_origin(config: Seq<char>)
    ensures
        git::origin_url(text::text_lines(config), 0, false) matches Some(url) ==> git::origin_link(
            config,
        ) == Some(git::web_url(url)),
        git::origin_url(text::text_lines(config), 0, false) is None ==> git::origin_link(config)
            is None,
{
}

} // verus!
