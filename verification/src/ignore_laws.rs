//! What holds of the ignore file as a whole: what a line added to it does, and what it
//! leaves alone.

use vstd::prelude::*;

use crate::ignore;
use crate::ignore::PatternModel;
use crate::ignore::RulesModel;
use crate::path::PathModel;
use crate::text;
use crate::wildcard;

verus! {

proof fn lemma_parse_append(a: Seq<Seq<char>>, b: Seq<Seq<char>>)
    ensures
        ignore::parse_lines(a + b) == ignore::parse_lines(a) + ignore::parse_lines(b),
    decreases b.len(),
{
    if b.len() == 0 {
        assert(a + b =~= a);
        assert(ignore::parse_lines(a) =~= ignore::parse_lines(a) + ignore::parse_lines(b));
    } else {
        lemma_parse_append(a, b.drop_last());
        assert((a + b).drop_last() =~= a + b.drop_last());
        assert(ignore::parse_lines(a + b) =~= ignore::parse_lines(a) + ignore::parse_lines(b));
    }
}

proof fn lemma_parse_stripped(lines: Seq<Seq<char>>)
    ensures
        ignore::parse_lines(lines.map_values(|line: Seq<char>| text::strip_return(line)))
            == ignore::parse_lines(lines),
    decreases lines.len(),
{
    let stripped = lines.map_values(|line: Seq<char>| text::strip_return(line));
    if lines.len() > 0 {
        lemma_parse_stripped(lines.drop_last());
        assert(stripped.drop_last() =~= lines.drop_last().map_values(
            |line: Seq<char>| text::strip_return(line),
        ));
        text::lemma_trim_strip_return(lines.last());
    } else {
        assert(stripped =~= lines);
    }
}

/// Only the line feeds matter for the rules of a text.
proof fn lemma_parse_text(s: Seq<char>)
    ensures
        ignore::parse_text(s) == ignore::parse_lines(text::split(s, '\n')),
{
    let pieces = text::split(s, '\n');
    text::lemma_split_nonempty(s, '\n');
    let front = pieces.drop_last();
    let ended = front.map_values(|line: Seq<char>| text::strip_return(line));
    lemma_parse_stripped(front);
    if pieces.last().len() > 0 {
        assert(ended.push(pieces.last()).drop_last() =~= ended);
    }
}

/// A line feed after a text ends its last line.
proof fn lemma_split_ended(s: Seq<char>)
    ensures
        text::split(s.push('\n'), '\n') == text::split(s, '\n').push(Seq::empty()),
{
    assert(s.push('\n').drop_last() =~= s);
}

proof fn lemma_white_pieces(s: Seq<char>, k: int)
    requires
        forall|i: int| 0 <= i < s.len() ==> text::is_white_space(#[trigger] s[i]),
        0 <= k < text::split(s, '\n').len(),
    ensures
        forall|i: int|
            0 <= i < text::split(s, '\n')[k].len() ==> text::is_white_space(
                #[trigger] text::split(s, '\n')[k][i],
            ),
    decreases s.len(),
{
    if s.len() > 0 {
        let front = s.drop_last();
        text::lemma_split_nonempty(front, '\n');
        assert(forall|i: int| 0 <= i < front.len() ==> #[trigger] front[i] == s[i]);
        let before = text::split(front, '\n');
        assert(text::is_white_space(s[s.len() - 1]));
        if k < before.len() {
            lemma_white_pieces(front, k);
        }
    }
}

proof fn lemma_trim_white(s: Seq<char>)
    requires
        forall|i: int| 0 <= i < s.len() ==> text::is_white_space(#[trigger] s[i]),
    ensures
        text::trim_start(s).len() == 0,
    decreases s.len(),
{
    if s.len() > 0 {
        assert(forall|i: int| 0 <= i < s.skip(1).len() ==> #[trigger] s.skip(1)[i] == s[i + 1]);
        lemma_trim_white(s.skip(1));
    }
}

proof fn lemma_trim_end_blank(s: Seq<char>)
    requires
        text::trim_end(s).len() == 0,
    ensures
        forall|i: int| 0 <= i < s.len() ==> text::is_white_space(#[trigger] s[i]),
    decreases s.len(),
{
    if s.len() > 0 {
        lemma_trim_end_blank(s.drop_last());
        assert forall|i: int| 0 <= i < s.len() implies text::is_white_space(#[trigger] s[i]) by {
            if i < s.len() - 1 {
                assert(s.drop_last()[i] == s[i]);
            }
        }
    }
}

proof fn lemma_trim_blank(s: Seq<char>)
    requires
        text::trim(s).len() == 0,
    ensures
        forall|i: int| 0 <= i < s.len() ==> text::is_white_space(#[trigger] s[i]),
    decreases s.len(),
{
    if s.len() > 0 {
        if text::is_white_space(s[0]) {
            lemma_trim_blank(s.skip(1));
            assert forall|i: int| 0 <= i < s.len() implies text::is_white_space(
                #[trigger] s[i],
            ) by {
                if i > 0 {
                    assert(s.skip(1)[i - 1] == s[i]);
                }
            }
        } else {
            lemma_trim_end_blank(s);
        }
    }
}

proof fn lemma_blank_lines(lines: Seq<Seq<char>>)
    requires
        forall|k: int, i: int|
            0 <= k < lines.len() && 0 <= i < lines[k].len() ==> text::is_white_space(
                #[trigger] lines[k][i],
            ),
    ensures
        ignore::parse_lines(lines) == Seq::<PatternModel>::empty(),
    decreases lines.len(),
{
    if lines.len() > 0 {
        let front = lines.drop_last();
        assert forall|k: int, i: int|
            0 <= k < front.len() && 0 <= i < front[k].len() implies text::is_white_space(
            #[trigger] front[k][i],
        ) by {
            assert(front[k] == lines[k]);
            assert(text::is_white_space(lines[k][i]));
        }
        lemma_blank_lines(front);
        let last = lines[lines.len() - 1];
        assert forall|i: int| 0 <= i < last.len() implies text::is_white_space(
            #[trigger] last[i],
        ) by {
            assert(text::is_white_space(lines[lines.len() - 1][i]));
        }
        lemma_trim_white(last);
    }
}

/// A file of white space states no rule.
proof fn lemma_blank_text(s: Seq<char>)
    requires
        text::trim(s).len() == 0,
    ensures
        ignore::parse_text(s) == Seq::<PatternModel>::empty(),
{
    lemma_trim_blank(s);
    lemma_parse_text(s);
    let pieces = text::split(s, '\n');
    assert forall|k: int, i: int|
        0 <= k < pieces.len() && 0 <= i < pieces[k].len() implies text::is_white_space(
        #[trigger] pieces[k][i],
    ) by {
        lemma_white_pieces(s, k);
    }
    lemma_blank_lines(pieces);
}

/// A line that starts with `#` states no rule.
proof fn lemma_comment(line: Seq<char>)
    requires
        line.len() > 0,
        line[0] == '#',
    ensures
        ignore::parse_line(line) is None,
{
    assert(text::trim_start(line) == line);
    lemma_trim_end_keeps_first(line);
}

proof fn lemma_trim_end_keeps_first(s: Seq<char>)
    requires
        s.len() > 0,
        !text::is_white_space(s[0]),
    ensures
        text::trim_end(s).len() > 0,
        text::trim_end(s)[0] == s[0],
    decreases s.len(),
{
    if text::is_white_space(s.last()) {
        assert(s.len() > 1);
        lemma_trim_end_keeps_first(s.drop_last());
    }
}

#[verifier::rlimit(40)]
proof fn lemma_header_lines()
    ensures
        ignore::HEADER_TITLE@.len() > 0 && ignore::HEADER_TITLE@[0] == '#',
        ignore::HEADER_EDIT@.len() > 0 && ignore::HEADER_EDIT@[0] == '#',
        ignore::HEADER_SYNTAX@.len() > 0 && ignore::HEADER_SYNTAX@[0] == '#',
        !ignore::HEADER_TITLE@.contains('\n'),
        !ignore::HEADER_EDIT@.contains('\n'),
        !ignore::HEADER_SYNTAX@.contains('\n'),
{
    reveal_strlit("# debth ignore file");
    reveal_strlit("# Edit this file to unignore paths or add more patterns.");
    reveal_strlit("# Blank lines and # comments are ignored. Use !pattern to unignore.");
    reveal_with_fuel(text::lacks, 70);
    assert(text::lacks(ignore::HEADER_TITLE@, '\n', 19));
    assert(text::lacks(ignore::HEADER_EDIT@, '\n', 56));
    assert(text::lacks(ignore::HEADER_SYNTAX@, '\n', 67));
    text::lemma_lacks(ignore::HEADER_TITLE@, '\n', 19);
    text::lemma_lacks(ignore::HEADER_EDIT@, '\n', 56);
    text::lemma_lacks(ignore::HEADER_SYNTAX@, '\n', 67);
}

/// The rules of a text that has one more line after a line feed.
proof fn lemma_parse_one_more(before: Seq<char>, line: Seq<char>)
    requires
        !line.contains('\n'),
    ensures
        ignore::parse_text((before.push('\n') + line).push('\n')) == ignore::parse_text(before)
            + ignore::parse_lines(seq![line]),
{
    let whole = before.push('\n') + line;
    lemma_parse_text(whole.push('\n'));
    lemma_split_ended(whole);
    text::lemma_split_around(before, '\n', line);
    text::lemma_split_unbroken(line, '\n');
    let pieces = text::split(whole.push('\n'), '\n');
    assert(pieces.drop_last() =~= text::split(before, '\n') + seq![line]);
    lemma_parse_append(text::split(before, '\n'), seq![line]);
    lemma_parse_text(before);
    assert(ignore::parse_line(pieces.last()) is None);
}

/// The header states no rule.
proof fn lemma_header_states_nothing()
    ensures
        ignore::ignore_header().len() > 0,
        ignore::ignore_header().last() == '\n',
        ignore::parse_text(ignore::ignore_header().drop_last()) == Seq::<PatternModel>::empty(),
{
    lemma_header_lines();
    let title = ignore::HEADER_TITLE@;
    let edit = ignore::HEADER_EDIT@;
    let syntax = ignore::HEADER_SYNTAX@;
    let header = ignore::ignore_header();
    let body = title.push('\n') + (edit.push('\n') + syntax);
    assert(header =~= body.push('\n'));
    assert(header.drop_last() =~= body);
    lemma_parse_text(body);
    text::lemma_split_around(title, '\n', edit.push('\n') + syntax);
    text::lemma_split_around(edit, '\n', syntax);
    text::lemma_split_unbroken(title, '\n');
    text::lemma_split_unbroken(edit, '\n');
    text::lemma_split_unbroken(syntax, '\n');
    let pieces = text::split(body, '\n');
    assert(pieces =~= seq![title, edit, syntax]);
    lemma_comment(title);
    lemma_comment(edit);
    lemma_comment(syntax);
    assert(pieces.drop_last() =~= seq![title, edit]);
    assert(pieces.drop_last().drop_last() =~= seq![title]);
    assert(pieces.drop_last().drop_last().drop_last() =~= Seq::<Seq<char>>::empty());
    reveal_with_fuel(ignore::parse_lines, 4);
}

/// A line written into the ignore file comes after the rules that it holds already, and
/// leaves all of them as they were.
pub proof fn added_line_keeps_rules(existing: Seq<char>, line: Seq<char>)
    requires
        !line.contains('\n'),
    ensures
        ignore::parse_text(ignore::with_line(existing, line)) == ignore::parse_text(existing)
            + ignore::parse_lines(seq![line]),
{
    if text::trim(existing).len() == 0 {
        lemma_blank_text(existing);
        lemma_header_states_nothing();
        let header = ignore::ignore_header();
        let body = header.drop_last();
        assert(body.push('\n') =~= header);
        lemma_parse_one_more(body, line);
    } else {
        text::lemma_trim_empty(existing);
        if existing.last() == '\n' {
            let body = existing.drop_last();
            assert(body.push('\n') =~= existing);
            lemma_parse_one_more(body, line);
            lemma_split_ended(body);
            lemma_parse_text(existing);
            lemma_parse_text(body);
            let pieces = text::split(existing, '\n');
            assert(pieces.drop_last() =~= text::split(body, '\n'));
            assert(ignore::parse_line(pieces.last()) is None);
        } else {
            lemma_parse_one_more(existing, line);
        }
    }
}

/// A relative path whose line says what it should: the rules read white space around a line,
/// a backslash and a line feed in another way.
pub open spec fn plain_relative(relative: Seq<char>) -> bool {
    &&& relative.len() > 0
    &&& text::trim(relative) == relative
    &&& relative.last() != '/'
    &&& !relative.contains('\\')
    &&& !relative.contains('\n')
}

/// The rule for exactly the path at `relative`.
pub open spec fn exact_rule(relative: Seq<char>, is_dir: bool) -> PatternModel {
    PatternModel {
        pattern: relative,
        negated: false,
        anchored: true,
        dir_only: is_dir,
        has_slash: relative.contains('/'),
    }
}

proof fn lemma_replace_absent(s: Seq<char>, from: char, to: Seq<char>)
    requires
        !s.contains(from),
    ensures
        text::replace(s, from, to) == s,
    decreases s.len(),
{
    if s.len() > 0 {
        assert(s.contains(s[s.len() - 1]));
        assert forall|c: char| s.drop_last().contains(c) implies s.contains(c) by {
            let i = choose|i: int| 0 <= i < s.drop_last().len() && s.drop_last()[i] == c;
            assert(s[i] == c);
        }
        lemma_replace_absent(s.drop_last(), from, to);
        assert(s.drop_last().push(s.last()) =~= s);
    } else {
        assert(s =~= Seq::empty());
    }
}

proof fn lemma_trim_end_shorter(s: Seq<char>)
    ensures
        text::trim_end(s).len() <= s.len(),
        text::trim_end(s).len() == s.len() ==> text::trim_end(s) == s,
        s.len() > 0 && text::is_white_space(s.last()) ==> text::trim_end(s).len() < s.len(),
    decreases s.len(),
{
    if s.len() > 0 && text::is_white_space(s.last()) {
        lemma_trim_end_shorter(s.drop_last());
    }
}

proof fn lemma_trim_start_shorter(s: Seq<char>)
    ensures
        text::trim_start(s).len() <= s.len(),
        text::trim_start(s).len() == s.len() ==> text::trim_start(s) == s,
        s.len() > 0 && text::is_white_space(s[0]) ==> text::trim_start(s).len() < s.len(),
    decreases s.len(),
{
    if s.len() > 0 && text::is_white_space(s[0]) {
        lemma_trim_start_shorter(s.skip(1));
    }
}

/// The line written for a path reads back as the rule for exactly that path.
pub proof fn written_line_reads_back(relative: Seq<char>, is_dir: bool)
    requires
        plain_relative(relative),
    ensures
        ignore::parse_line(ignore::pattern_line(relative, is_dir)) == Some(
            exact_rule(relative, is_dir),
        ),
{
    let line = ignore::pattern_line(relative, is_dir);
    let start = text::trim_start(relative);
    lemma_trim_start_shorter(relative);
    lemma_trim_end_shorter(start);
    assert(start == relative);
    lemma_trim_end_shorter(relative);
    assert(!text::is_white_space(relative.last()));
    assert(line[0] == '/');
    assert(text::trim_start(line) == line);
    if is_dir {
        assert(line.last() == '/');
    } else {
        assert(line.last() == relative.last());
    }
    assert(text::trim(line) == line);
    let rest = line.skip(1);
    if is_dir {
        assert(rest =~= relative.push('/'));
        assert(rest.drop_last() =~= relative);
        assert(text::trim_end_char(relative, '/') == relative);
    } else {
        assert(rest =~= relative);
    }
    lemma_replace_absent(relative, '\\', seq!['/']);
}

/// The rule for exactly one path speaks of that path. Only one that is kept to directories
/// asks what the path is.
proof fn lemma_exact_rule_matches(relative: Seq<char>, is_dir: bool, seen_as_dir: bool)
    requires
        is_dir ==> seen_as_dir,
    ensures
        ignore::rule_matches(exact_rule(relative, is_dir), relative, seen_as_dir),
{
    wildcard::wildcard_matches_itself(vstd::utf8::encode_utf8(relative));
    if is_dir {
        let parts = text::split(relative, '/');
        text::lemma_split_nonempty(relative, '/');
        text::lemma_join_split(relative, '/');
        let dirs = ignore::candidates(relative, true);
        assert(parts.take(parts.len() as int) =~= parts);
        assert(dirs[parts.len() - 1] == relative);
    }
}

/// The rule for a directory speaks of everything in it.
proof fn lemma_exact_rule_covers(relative: Seq<char>, rest: Seq<char>, is_dir: bool)
    ensures
        ignore::rule_matches(
            exact_rule(relative, true),
            relative.push('/') + rest,
            is_dir,
        ),
{
    let whole = relative.push('/') + rest;
    wildcard::wildcard_matches_itself(vstd::utf8::encode_utf8(relative));
    text::lemma_split_around(relative, '/', rest);
    text::lemma_split_nonempty(relative, '/');
    text::lemma_split_nonempty(rest, '/');
    text::lemma_join_split(relative, '/');
    let parts = text::split(whole, '/');
    let n = text::split(relative, '/').len() as int;
    let dirs = ignore::candidates(whole, is_dir);
    assert(parts.take(n) =~= text::split(relative, '/'));
    assert(dirs[n - 1] == relative);
}

/// The rules after a line for `path` has been added to an ignore file that did not hold it.
pub open spec fn rules_with(
    root: PathModel,
    existing: Seq<char>,
    path: PathModel,
    is_dir: bool,
) -> RulesModel {
    RulesModel {
        root,
        patterns: ignore::parse_text(
            ignore::with_line(
                existing,
                ignore::pattern_line(ignore::relative_text(path.below(root))->0, is_dir),
            ),
        ),
    }
}

proof fn lemma_rules_with(root: PathModel, existing: Seq<char>, path: PathModel, is_dir: bool)
    requires
        path.starts_with(root),
        ignore::relative_text(path.below(root)) is Some,
        plain_relative(ignore::relative_text(path.below(root))->0),
    ensures
        rules_with(root, existing, path, is_dir).patterns == ignore::parse_text(existing).push(
            exact_rule(ignore::relative_text(path.below(root))->0, is_dir),
        ),
{
    let relative = ignore::relative_text(path.below(root))->0;
    let line = ignore::pattern_line(relative, is_dir);
    assert(!line.contains('\n')) by {
        assert forall|i: int| 0 <= i < line.len() implies line[i] != '\n' by {
            if 1 <= i <= relative.len() {
                assert(line[i] == relative[i - 1]);
                assert(relative.contains(relative[i - 1]));
            }
        }
    }
    added_line_keeps_rules(existing, line);
    written_line_reads_back(relative, is_dir);
    reveal_with_fuel(ignore::parse_lines, 2);
    assert(seq![line].drop_last() =~= Seq::<Seq<char>>::empty());
    assert(ignore::parse_lines(seq![line]) =~= seq![exact_rule(relative, is_dir)]);
    assert(ignore::parse_text(existing) + seq![exact_rule(relative, is_dir)]
        =~= ignore::parse_text(existing).push(exact_rule(relative, is_dir)));
}

/// A path that has been written into the ignore file is left out from then on, whatever the
/// file held before. One written as a directory is left out as long as it is one.
pub proof fn added_path_is_ignored(
    root: PathModel,
    existing: Seq<char>,
    path: PathModel,
    is_dir: bool,
    seen_as_dir: bool,
)
    requires
        path.starts_with(root),
        ignore::relative_text(path.below(root)) is Some,
        plain_relative(ignore::relative_text(path.below(root))->0),
        is_dir ==> seen_as_dir,
    ensures
        rules_with(root, existing, path, is_dir).ignores(path, seen_as_dir),
{
    let relative = ignore::relative_text(path.below(root))->0;
    lemma_rules_with(root, existing, path, is_dir);
    lemma_exact_rule_matches(relative, is_dir, seen_as_dir);
}

/// With a directory, everything in it is left out.
pub proof fn added_directory_hides_its_contents(
    root: PathModel,
    existing: Seq<char>,
    dir: PathModel,
    path: PathModel,
    is_dir: bool,
)
    requires
        root.absolute,
        dir.starts_with(root),
        ignore::relative_text(dir.below(root)) is Some,
        plain_relative(ignore::relative_text(dir.below(root))->0),
        path.starts_with(dir),
        path.parts.len() > dir.parts.len(),
    ensures
        rules_with(root, existing, dir, true).ignores(path, is_dir),
{
    let relative = ignore::relative_text(dir.below(root))->0;
    lemma_rules_with(root, existing, dir, true);
    let names = dir.below(root).part_texts();
    let n = root.parts.len() as int;
    let more = PathModel { absolute: false, parts: path.parts.skip(dir.parts.len() as int) };
    assert(root.parts =~= path.parts.subrange(0, n)) by {
        assert(forall|i: int| 0 <= i < dir.parts.len() ==> dir.parts[i] == path.parts.subrange(0, dir.parts.len() as int)[i]);
        assert(forall|i: int| 0 <= i < n ==> root.parts[i] == dir.parts.subrange(0, n)[i]);
    }
    assert(path.below(root).parts =~= dir.below(root).parts + more.parts) by {
        assert(forall|i: int| 0 <= i < dir.parts.len() ==> dir.parts[i] == path.parts.subrange(0, dir.parts.len() as int)[i]);
    }
    assert(path.below(root).part_texts() =~= names + more.part_texts());
    if names.len() == 0 {
        assert(relative.len() == 0);
    }
    text::lemma_join_append(names, more.part_texts(), '/');
    lemma_exact_rule_covers(relative, text::join(more.part_texts(), '/'), is_dir);
}

proof fn lemma_trim_start_push(s: Seq<char>, c: char)
    ensures
        text::trim_start(s).len() > 0 ==> text::trim_start(s.push(c)) == text::trim_start(s).push(
            c,
        ),
        text::trim_start(s).len() == 0 && text::is_white_space(c) ==> text::trim_start(
            s.push(c),
        ).len() == 0,
        text::trim_start(s).len() == 0 && !text::is_white_space(c) ==> text::trim_start(s.push(c))
            == seq![c],
    decreases s.len(),
{
    let more = s.push(c);
    if s.len() > 0 {
        assert(more[0] == s[0]);
        if text::is_white_space(s[0]) {
            lemma_trim_start_push(s.skip(1), c);
            assert(more.skip(1) =~= s.skip(1).push(c));
        }
    } else {
        assert(more =~= seq![c]);
        assert(more.skip(1) =~= Seq::empty());
        reveal_with_fuel(text::trim_start, 2);
    }
}

/// The two ends of a text can be trimmed in either order.
proof fn lemma_trim_either_way(s: Seq<char>)
    ensures
        text::trim_start(text::trim_end(s)) == text::trim_end(text::trim_start(s)),
    decreases s.len(),
{
    if s.len() > 0 {
        let front = s.drop_last();
        let c = s.last();
        assert(front.push(c) =~= s);
        lemma_trim_start_push(front, c);
        if text::is_white_space(c) {
            lemma_trim_either_way(front);
            if text::trim_start(front).len() > 0 {
                let start = text::trim_start(s);
                assert(start.drop_last() =~= text::trim_start(front));
            }
        } else {
            assert(text::trim_start(s).last() == c);
        }
    }
}

proof fn lemma_trim_end_behind(c: char, s: Seq<char>)
    requires
        !text::is_white_space(c),
    ensures
        text::trim_end(seq![c] + s) == seq![c] + text::trim_end(s),
    decreases s.len(),
{
    let whole = seq![c] + s;
    if s.len() > 0 {
        assert(whole.last() == s.last());
        if text::is_white_space(s.last()) {
            assert(whole.drop_last() =~= seq![c] + s.drop_last());
            lemma_trim_end_behind(c, s.drop_last());
        }
    } else {
        assert(whole =~= seq![c]);
    }
}

/// A `!` in front of a line states the same rule, taken back.
pub proof fn marked_line_is_negated(line: Seq<char>)
    requires
        ignore::parse_line(line) is Some,
        !ignore::parse_line(line)->0.negated,
    ensures
        ignore::parse_line(seq!['!'] + line) == Some(
            (PatternModel { negated: true, ..ignore::parse_line(line)->0 }),
        ),
{
    let marked = seq!['!'] + line;
    assert(text::trim_start(marked) == marked);
    lemma_trim_end_behind('!', line);
    let body = text::trim(marked);
    assert(body.skip(1) =~= text::trim_end(line));
    lemma_trim_either_way(line);
}

/// What a line leaves out comes back in once the line, with a `!` in front, is added to the
/// ignore file.
pub proof fn unignored_path_stays_in(
    root: PathModel,
    existing: Seq<char>,
    line: Seq<char>,
    path: PathModel,
    is_dir: bool,
)
    requires
        !line.contains('\n'),
        ignore::parse_line(line) is Some,
        !ignore::parse_line(line)->0.negated,
        (RulesModel { root, patterns: seq![ignore::parse_line(line)->0] }).ignores(path, is_dir),
    ensures
        !(RulesModel {
            root,
            patterns: ignore::parse_text(ignore::with_line(existing, seq!['!'] + line)),
        }).ignores(path, is_dir),
{
    let rule = ignore::parse_line(line)->0;
    let marked = seq!['!'] + line;
    let taken_back = PatternModel { negated: true, ..rule };
    marked_line_is_negated(line);
    assert(!marked.contains('\n')) by {
        assert forall|i: int| 0 <= i < marked.len() implies marked[i] != '\n' by {
            if i > 0 {
                assert(marked[i] == line[i - 1]);
                assert(line.contains(line[i - 1]));
            }
        }
    }
    added_line_keeps_rules(existing, marked);
    reveal_with_fuel(ignore::parse_lines, 2);
    assert(seq![marked].drop_last() =~= Seq::<Seq<char>>::empty());
    assert(ignore::parse_lines(seq![marked]) =~= seq![taken_back]);
    let rules = ignore::parse_text(ignore::with_line(existing, marked));
    assert(rules.last() == taken_back);
    reveal_with_fuel(ignore::verdict, 2);
    assert(seq![rule].drop_last() =~= Seq::<PatternModel>::empty());
}

/// A line that has been written into the ignore file is held by it.
pub proof fn written_line_is_held(existing: Seq<char>, line: Seq<char>)
    requires
        !line.contains('\n'),
        text::trim(line) == line,
    ensures
        ignore::holds_line(ignore::with_line(existing, line), line),
{
    let before = if text::trim(existing).len() == 0 {
        ignore::ignore_header()
    } else if existing.last() == '\n' {
        existing
    } else {
        existing.push('\n')
    };
    lemma_header_states_nothing();
    text::lemma_trim_empty(existing);
    assert(before.len() > 0 && before.last() == '\n');
    let body = before.drop_last();
    assert(body.push('\n') =~= before);
    let content = ignore::with_line(existing, line);
    let whole = body.push('\n') + line;
    assert(content =~= whole.push('\n'));
    lemma_split_ended(whole);
    text::lemma_split_around(body, '\n', line);
    text::lemma_split_unbroken(line, '\n');
    let pieces = text::split(content, '\n');
    let n = pieces.len() - 2;
    assert(pieces.drop_last()[n] == line);
    if line.len() > 0 && line.last() == '\r' {
        let start = text::trim_start(line);
        lemma_trim_start_shorter(line);
        lemma_trim_end_shorter(start);
        assert(start == line);
    }
    assert(text::strip_return(line) == line);
    let lines = text::text_lines(content);
    assert(text::trim(lines[n]) == line);
}

/// Asking for the same line a second time changes nothing in the ignore file.
pub proof fn asking_twice_writes_once(existing: Seq<char>, line: Seq<char>)
    requires
        !line.contains('\n'),
        text::trim(line) == line,
    ensures
        ({
            let once = ignore::content_with(existing, line);
            ignore::holds_line(once, line) && ignore::content_with(once, line) == once
        }),
{
    if !ignore::holds_line(existing, line) {
        written_line_is_held(existing, line);
    }
}

} // verus!
