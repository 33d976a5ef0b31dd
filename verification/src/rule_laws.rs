//! What a line of the ignore file says, and of which paths.

use vstd::prelude::*;

use crate::ignore;
use crate::ignore::PatternModel;
use crate::ignore::RulesModel;
use crate::path;
use crate::path::PathModel;
use crate::text;
use crate::text_laws;
use crate::wildcard;

verus! {

/// Whether the glob of a pattern matches a text, byte by byte: `*` stands for any run of
/// bytes, `?` for one byte, and every other byte for itself.
pub open spec fn globs(pattern: Seq<char>, text: Seq<char>) -> bool {
    wildcard::glob(vstd::utf8::encode_utf8(pattern), vstd::utf8::encode_utf8(text))
}

/// Whether some names can be the names of a path that holds no `*`.
pub open spec fn plain_names(names: Seq<Seq<char>>) -> bool {
    forall|i: int|
        0 <= i < names.len() ==> !(#[trigger] names[i]).contains('/') && !names[i].contains('*')
}

/// Some names with a slash between them.
pub open spec fn slashed(names: Seq<Seq<char>>) -> Seq<char> {
    text::join(names, '/')
}

/// A rule that is tied to the root, and not kept to directories, speaks of a path without `*`
/// exactly when the glob of its pattern matches the whole path below the root.
pub proof fn rooted_rule_is_a_glob(rule: PatternModel, relative: Seq<char>, is_dir: bool)
    requires
        rule.anchored,
        !rule.dir_only,
        !relative.contains('*'),
    ensures
        ignore::rule_matches(rule, relative, is_dir) <==> globs(rule.pattern, relative),
{
    wildcard::text_match_is_glob(rule.pattern, relative);
}

proof fn lemma_slashed_lacks(names: Seq<Seq<char>>, c: char)
    requires
        c != '/',
        forall|i: int| 0 <= i < names.len() ==> !(#[trigger] names[i]).contains(c),
    ensures
        !slashed(names).contains(c),
    decreases names.len(),
{
    if names.len() == 1 {
        assert(!names[0].contains(c));
    } else if names.len() > 1 {
        let front = names.drop_last();
        assert forall|i: int| 0 <= i < front.len() implies !(#[trigger] front[i]).contains(c) by {
            assert(front[i] == names[i]);
        }
        lemma_slashed_lacks(front, c);
        let a = slashed(front);
        let b = names[names.len() - 1];
        let all = slashed(names);
        assert(all == a.push('/') + b);
        assert forall|k: int| 0 <= k < all.len() implies all[k] != c by {
            if k < a.len() {
                assert(a.contains(a[k]));
            } else if k > a.len() {
                assert(b.contains(b[k - a.len() - 1]));
            }
        }
    }
}

/// Any run of the names makes a text without `*` and is found again by cutting it.
proof fn lemma_run(names: Seq<Seq<char>>, i: int, k: int)
    requires
        plain_names(names),
        0 <= i < k <= names.len(),
    ensures
        !slashed(names.subrange(i, k)).contains('*'),
        text::split(slashed(names.subrange(i, k)), '/') == names.subrange(i, k),
{
    let run = names.subrange(i, k);
    assert forall|n: int| 0 <= n < run.len() implies !(#[trigger] run[n]).contains('/')
        && !run[n].contains('*') by {
        assert(run[n] == names[i + n]);
    }
    lemma_slashed_lacks(run, '*');
    text_laws::joined_pieces_are_found_again(run, '/');
}

/// A rule without a slash, not tied to the root and not kept to directories, speaks of a path
/// exactly when the glob of its pattern matches one of the path's names.
pub proof fn name_rule_speaks_of_every_name(
    rule: PatternModel,
    names: Seq<Seq<char>>,
    is_dir: bool,
)
    requires
        !rule.anchored,
        !rule.dir_only,
        !rule.has_slash,
        names.len() > 0,
        plain_names(names),
    ensures
        ignore::rule_matches(rule, slashed(names), is_dir) <==> exists|i: int|
            0 <= i < names.len() && globs(rule.pattern, #[trigger] names[i]),
{
    lemma_run(names, 0, names.len() as int);
    assert(names.subrange(0, names.len() as int) =~= names);
    lemma_some_name(rule.pattern, names, names.len() as int);
}

/// Whether some of the first names match is the same for the scan and for the glob.
proof fn lemma_some_name(pattern: Seq<char>, names: Seq<Seq<char>>, n: int)
    requires
        plain_names(names),
        0 <= n <= names.len(),
    ensures
        ignore::some_matches(pattern, names.take(n)) <==> exists|i: int|
            0 <= i < n && globs(pattern, #[trigger] names[i]),
        n == names.len() ==> names.take(n) == names,
{
    let front = names.take(n);
    if n == names.len() {
        assert(front =~= names);
    }
    if ignore::some_matches(pattern, front) {
        let i = choose|i: int|
            0 <= i < front.len() && wildcard::text_matches(pattern, #[trigger] front[i]);
        assert(front[i] == names[i]);
        wildcard::text_match_is_glob(pattern, names[i]);
        assert(globs(pattern, names[i]));
    }
    if exists|i: int| 0 <= i < n && globs(pattern, #[trigger] names[i]) {
        let i = choose|i: int| 0 <= i < n && globs(pattern, #[trigger] names[i]);
        wildcard::text_match_is_glob(pattern, names[i]);
        assert(wildcard::text_matches(pattern, front[i]));
    }
}

/// A rule with a slash, not tied to the root and not kept to directories, speaks of a path
/// exactly when the glob of its pattern matches the path, or what is left of it after some of
/// its first names.
pub proof fn slashed_rule_speaks_of_every_tail(
    rule: PatternModel,
    names: Seq<Seq<char>>,
    is_dir: bool,
)
    requires
        !rule.anchored,
        !rule.dir_only,
        rule.has_slash,
        names.len() > 0,
        plain_names(names),
    ensures
        ignore::rule_matches(rule, slashed(names), is_dir) <==> exists|i: int|
            0 <= i < names.len() && globs(rule.pattern, slashed(#[trigger] names.skip(i))),
{
    lemma_some_tail(rule.pattern, names);
}

proof fn lemma_some_tail(pattern: Seq<char>, names: Seq<Seq<char>>)
    requires
        names.len() > 0,
        plain_names(names),
    ensures
        ignore::some_matches(pattern, ignore::path_suffixes(slashed(names))) <==> exists|i: int|
            0 <= i < names.len() && globs(pattern, slashed(#[trigger] names.skip(i))),
{
    let n = names.len() as int;
    lemma_run(names, 0, n);
    assert(names.subrange(0, n) =~= names);
    let tails = ignore::path_suffixes(slashed(names));
    if ignore::some_matches(pattern, tails) {
        let i = choose|i: int|
            0 <= i < tails.len() && wildcard::text_matches(pattern, #[trigger] tails[i]);
        lemma_run(names, i, n);
        assert(names.subrange(i, n) =~= names.skip(i));
        assert(tails[i] == slashed(names.skip(i)));
        wildcard::text_match_is_glob(pattern, tails[i]);
        assert(globs(pattern, slashed(names.skip(i))));
    }
    if exists|i: int| 0 <= i < n && globs(pattern, slashed(#[trigger] names.skip(i))) {
        let i = choose|i: int| 0 <= i < n && globs(pattern, slashed(#[trigger] names.skip(i)));
        lemma_run(names, i, n);
        assert(names.subrange(i, n) =~= names.skip(i));
        assert(tails[i] == slashed(names.skip(i)));
        wildcard::text_match_is_glob(pattern, tails[i]);
        assert(wildcard::text_matches(pattern, tails[i]));
    }
}

/// How many of the names of a path are names of directories: all of them where the path is
/// one, and all but the last otherwise.
pub open spec fn directory_names(names: Seq<Seq<char>>, is_dir: bool) -> int {
    if is_dir {
        names.len() as int
    } else {
        names.len() - 1
    }
}

/// A rule that is kept to directories and tied to the root speaks of a path exactly when the
/// glob of its pattern matches the path of a directory on the way, or of the path itself where
/// that is a directory.
pub proof fn rooted_directory_rule(rule: PatternModel, names: Seq<Seq<char>>, is_dir: bool)
    requires
        rule.anchored,
        rule.dir_only,
        names.len() > 0,
        plain_names(names),
    ensures
        ignore::rule_matches(rule, slashed(names), is_dir) <==> exists|k: int|
            0 < k <= directory_names(names, is_dir) && globs(
                rule.pattern,
                slashed(#[trigger] names.take(k)),
            ),
{
    let n = names.len() as int;
    let pattern = rule.pattern;
    lemma_run(names, 0, n);
    assert(names.subrange(0, n) =~= names);
    let dirs = ignore::candidates(slashed(names), is_dir);
    if ignore::some_matches(pattern, dirs) {
        let i = choose|i: int|
            0 <= i < dirs.len() && wildcard::text_matches(pattern, #[trigger] dirs[i]);
        lemma_run(names, 0, i + 1);
        assert(names.subrange(0, i + 1) =~= names.take(i + 1));
        assert(dirs[i] == slashed(names.take(i + 1)));
        wildcard::text_match_is_glob(pattern, dirs[i]);
        assert(globs(pattern, slashed(names.take(i + 1))));
    }
    if exists|k: int|
        0 < k <= directory_names(names, is_dir) && globs(
            pattern,
            slashed(#[trigger] names.take(k)),
        ) {
        let k = choose|k: int|
            0 < k <= directory_names(names, is_dir) && globs(
                pattern,
                slashed(#[trigger] names.take(k)),
            );
        lemma_run(names, 0, k);
        assert(names.subrange(0, k) =~= names.take(k));
        assert(dirs[k - 1] == slashed(names.take(k)));
        wildcard::text_match_is_glob(pattern, dirs[k - 1]);
        assert(wildcard::text_matches(pattern, dirs[k - 1]));
    }
}

/// A rule without a slash that is kept to directories speaks of a path exactly when the glob
/// of its pattern matches the name of a directory on the way, or of the path itself where that
/// is a directory.
pub proof fn named_directory_rule(rule: PatternModel, names: Seq<Seq<char>>, is_dir: bool)
    requires
        !rule.anchored,
        rule.dir_only,
        !rule.has_slash,
        names.len() > 0,
        plain_names(names),
    ensures
        ignore::rule_matches(rule, slashed(names), is_dir) <==> exists|i: int|
            0 <= i < directory_names(names, is_dir) && globs(rule.pattern, #[trigger] names[i]),
{
    let n = names.len() as int;
    lemma_run(names, 0, n);
    assert(names.subrange(0, n) =~= names);
    assert(names.drop_last() =~= names.take(n - 1));
    assert(names.take(n) =~= names);
    lemma_some_name(rule.pattern, names, directory_names(names, is_dir));
}

/// Whether the glob of a pattern matches some names that follow each other, the last of them
/// the one before index `k`.
pub open spec fn globs_up_to(pattern: Seq<char>, names: Seq<Seq<char>>, k: int) -> bool {
    exists|i: int| 0 <= i < k && globs(pattern, slashed(#[trigger] names.subrange(i, k)))
}

/// A rule with a slash that is kept to directories speaks of a path exactly when the glob of
/// its pattern matches the last names of the path of a directory on the way, or of the path
/// itself where that is a directory.
pub proof fn slashed_directory_rule(rule: PatternModel, names: Seq<Seq<char>>, is_dir: bool)
    requires
        !rule.anchored,
        rule.dir_only,
        rule.has_slash,
        names.len() > 0,
        plain_names(names),
    ensures
        ignore::rule_matches(rule, slashed(names), is_dir) <==> exists|k: int|
            0 < k <= directory_names(names, is_dir) && #[trigger] globs_up_to(
                rule.pattern,
                names,
                k,
            ),
{
    let n = names.len() as int;
    let pattern = rule.pattern;
    lemma_run(names, 0, n);
    assert(names.subrange(0, n) =~= names);
    let dirs = ignore::candidates(slashed(names), is_dir);
    assert forall|k: int| 0 < k <= dirs.len() implies (ignore::some_matches(
        pattern,
        ignore::path_suffixes(#[trigger] dirs[k - 1]),
    ) <==> globs_up_to(pattern, names, k)) by {
        let front = names.take(k);
        assert(dirs[k - 1] == slashed(front));
        assert forall|x: int| 0 <= x < front.len() implies !(#[trigger] front[x]).contains('/')
            && !front[x].contains('*') by {
            assert(front[x] == names[x]);
        }
        lemma_some_tail(pattern, front);
        assert forall|i: int| 0 <= i < k implies #[trigger] front.skip(i) == names.subrange(
            i,
            k,
        ) by {
            assert(front.skip(i) =~= names.subrange(i, k));
        }
        if globs_up_to(pattern, names, k) {
            let i = choose|i: int|
                0 <= i < k && globs(pattern, slashed(#[trigger] names.subrange(i, k)));
            assert(front.skip(i) == names.subrange(i, k));
        }
    }
    if ignore::rule_matches(rule, slashed(names), is_dir) {
        let i = choose|i: int|
            0 <= i < dirs.len() && ignore::some_matches(
                pattern,
                ignore::path_suffixes(#[trigger] dirs[i]),
            );
        assert(dirs[i + 1 - 1] == dirs[i]);
        assert(globs_up_to(pattern, names, i + 1));
    }
    if exists|k: int|
        0 < k <= directory_names(names, is_dir) && #[trigger] globs_up_to(pattern, names, k) {
        let k = choose|k: int|
            0 < k <= directory_names(names, is_dir) && #[trigger] globs_up_to(pattern, names, k);
        assert(ignore::some_matches(pattern, ignore::path_suffixes(dirs[k - 1])));
    }
}

/// The last rule that speaks of a path decides: the path is ignored unless that rule is
/// negated. Where no rule speaks of it, it is not ignored.
pub proof fn last_rule_decides(
    rules: Seq<PatternModel>,
    relative: Seq<char>,
    is_dir: bool,
    i: int,
)
    requires
        -1 <= i < rules.len(),
        i >= 0 ==> ignore::rule_matches(rules[i], relative, is_dir),
        forall|j: int|
            i < j < rules.len() ==> !ignore::rule_matches(#[trigger] rules[j], relative, is_dir),
    ensures
        i == -1 ==> !ignore::verdict(rules, relative, is_dir),
        i >= 0 ==> ignore::verdict(rules, relative, is_dir) == !rules[i].negated,
    decreases rules.len(),
{
    if rules.len() > 0 && i < rules.len() - 1 {
        let front = rules.drop_last();
        assert(!ignore::rule_matches(rules[rules.len() - 1], relative, is_dir));
        assert forall|j: int| i < j < front.len() implies !ignore::rule_matches(
            #[trigger] front[j],
            relative,
            is_dir,
        ) by {
            assert(front[j] == rules[j]);
        }
        last_rule_decides(front, relative, is_dir, i);
    }
}

/// The bytes of some names.
pub open spec fn name_bytes(names: Seq<Seq<char>>) -> Seq<Seq<u8>> {
    names.map_values(|name: Seq<char>| vstd::utf8::encode_utf8(name))
}

/// A path below the root is written as its names with a slash between them; the root itself
/// cannot be written.
pub proof fn names_below_the_root(root: PathModel, names: Seq<Seq<char>>)
    requires
        forall|i: int| 0 <= i < names.len() ==> (#[trigger] names[i]).len() > 0,
    ensures
        ({
            let path = PathModel {
                absolute: root.absolute,
                parts: root.parts + name_bytes(names),
            };
            &&& path.starts_with(root)
            &&& names.len() > 0 ==> ignore::relative_text(path.below(root)) == Some(slashed(names))
            &&& names.len() == 0 ==> ignore::relative_text(path.below(root)) is None
        }),
{
    let path = PathModel { absolute: root.absolute, parts: root.parts + name_bytes(names) };
    let below = path.below(root);
    assert(below.parts =~= name_bytes(names));
    assert(root.parts =~= path.parts.subrange(0, root.parts.len() as int));
    assert forall|i: int| 0 <= i < names.len() implies #[trigger] below.part_texts()[i]
        == names[i] by {
        assert(below.parts[i] == vstd::utf8::encode_utf8(names[i]));
        vstd::utf8::encode_utf8_valid_utf8(names[i]);
        vstd::utf8::encode_utf8_decode_utf8(names[i]);
        assert(path::lossy(below.parts[i]) == names[i]);
    }
    assert(below.part_texts() =~= names);
    if names.len() == 1 {
        assert(names[0].len() > 0);
    } else if names.len() > 1 {
        assert(slashed(names).len() > 0);
    }
}

/// The rules speak of a path by its names below the root, with a slash between them. Neither
/// the root itself nor a path elsewhere is ignored.
pub proof fn rules_speak_of_names_below_the_root(
    rules: RulesModel,
    names: Seq<Seq<char>>,
    is_dir: bool,
)
    requires
        forall|i: int| 0 <= i < names.len() ==> (#[trigger] names[i]).len() > 0,
    ensures
        ({
            let path = PathModel {
                absolute: rules.root.absolute,
                parts: rules.root.parts + name_bytes(names),
            };
            &&& names.len() > 0 ==> rules.ignores(path, is_dir) == ignore::verdict(
                rules.patterns,
                slashed(names),
                is_dir,
            )
            &&& names.len() == 0 ==> !rules.ignores(path, is_dir)
        }),
        forall|path: PathModel|
            !rules.root.parts.is_prefix_of(path.parts) ==> !#[trigger] rules.ignores(path, is_dir),
        forall|path: PathModel|
            rules.root.absolute && !path.absolute ==> !#[trigger] rules.ignores(path, is_dir),
{
    names_below_the_root(rules.root, names);
}

/// The ignore file is `ignore` in the directory `.debth` at the root.
pub proof fn ignore_file_lies_at_the_root(root: PathModel)
    ensures
        ignore::ignore_place(root) == (PathModel {
            absolute: root.absolute,
            parts: root.parts + name_bytes(seq![".debth"@, "ignore"@]),
        }),
{
    assert(ignore::ignore_place(root).parts =~= root.parts + name_bytes(
        seq![".debth"@, "ignore"@],
    ));
}

/// Whether some text is white space alone.
pub open spec fn blank(s: Seq<char>) -> bool {
    forall|i: int| 0 <= i < s.len() ==> text::is_white_space(#[trigger] s[i])
}

/// White space around a text that neither starts nor ends with it is all that trimming takes.
pub proof fn trim_takes_what_is_around(before: Seq<char>, core: Seq<char>, after: Seq<char>)
    requires
        blank(before),
        blank(after),
        core.len() > 0,
        !text::is_white_space(core[0]),
        !text::is_white_space(core.last()),
    ensures
        text::trim(before + core + after) == core,
{
    let s = before + core + after;
    let (i, j) = text_laws::trim_takes_white_space(s);
    let b = before.len() as int;
    let e = b + core.len();
    assert(s[b] == core[0]);
    assert(s[e - 1] == core.last());
    assert(i <= b);
    assert(j >= e);
    if i < b {
        assert(s[i] == before[i]);
    }
    if j > e {
        assert(s[j - 1] == after[j - 1 - e]);
    }
    assert(s.subrange(i, j) =~= core);
}

/// Whether some text can be the pattern of a line by itself: it does not start or end with
/// white space or a slash, nor start with one of the marks.
pub open spec fn bare_pattern(p: Seq<char>) -> bool {
    &&& p.len() > 0
    &&& !text::is_white_space(p[0]) && !text::is_white_space(p.last())
    &&& p[0] != '#' && p[0] != '!' && p[0] != '/'
    &&& p.last() != '/'
}

/// The mark, where there is one.
pub open spec fn mark_if(there: bool, c: char) -> Seq<char> {
    if there {
        seq![c]
    } else {
        Seq::empty()
    }
}

/// The parts of a line: a pattern, marks before and behind it, and white space around all of
/// them.
pub struct LineParts {
    pub before: Seq<char>,
    pub negated: bool,
    /// White space behind the `!`.
    pub after_mark: Seq<char>,
    pub anchored: bool,
    /// White space behind the `/` in front.
    pub after_root: Seq<char>,
    pub pattern: Seq<char>,
    /// White space in front of the slashes at the end.
    pub before_end: Seq<char>,
    /// How many slashes there are at the end.
    pub slashes: nat,
    pub after: Seq<char>,
}

impl LineParts {
    /// Whether the parts are a line.
    pub open spec fn fit(self) -> bool {
        &&& blank(self.before) && blank(self.after_mark) && blank(self.after_root) && blank(
            self.before_end,
        ) && blank(self.after)
        &&& !self.negated ==> self.after_mark.len() == 0
        &&& !self.anchored ==> self.after_root.len() == 0
        &&& self.slashes == 0 ==> self.before_end.len() == 0
        &&& bare_pattern(self.pattern)
    }

    /// The pattern and what stands behind it.
    pub open spec fn ending(self) -> Seq<char> {
        self.pattern + self.before_end + Seq::new(self.slashes, |i: int| '/')
    }

    /// What stands behind the `!`.
    pub open spec fn marked(self) -> Seq<char> {
        mark_if(self.anchored, '/') + self.after_root + self.ending()
    }

    /// The line without the white space around it.
    pub open spec fn trimmed(self) -> Seq<char> {
        mark_if(self.negated, '!') + self.after_mark + self.marked()
    }

    /// The line.
    pub open spec fn line(self) -> Seq<char> {
        self.before + self.trimmed() + self.after
    }
}

/// A line is a pattern with a `!` in front where it is negated, a `/` in front where it is tied
/// to the root, and slashes behind where it is kept to directories; white space between them
/// and around them does not count. A backslash in the pattern counts as a slash, but does not
/// make it a pattern with one.
pub proof fn line_states_its_rule(parts: LineParts)
    requires
        parts.fit(),
    ensures
        ({
            let p = parts.pattern;
            let rule = ignore::parse_line(parts.line());
            &&& rule is Some
            &&& rule->0.negated == parts.negated
            &&& rule->0.anchored == parts.anchored
            &&& rule->0.dir_only == (parts.slashes > 0)
            &&& rule->0.has_slash == p.contains('/')
            &&& rule->0.pattern == text::replace(p, '\\', seq!['/'])
            &&& !p.contains('\\') ==> rule->0.pattern == p
        }),
{
    let p = parts.pattern;
    lemma_marks_off(parts);
    lemma_slashes_off(parts);
    if !p.contains('\\') {
        text_laws::replacing_nothing_changes_nothing(p, '\\', seq!['/']);
    }
}

proof fn lemma_ending(parts: LineParts)
    requires
        parts.fit(),
    ensures
        ({
            let ending = parts.ending();
            &&& ending.len() > 0
            &&& ending[0] == parts.pattern[0]
            &&& parts.slashes > 0 ==> ending.last() == '/'
            &&& parts.slashes == 0 ==> ending == parts.pattern
            &&& !text::is_white_space(ending.last())
        }),
{
    let ending = parts.ending();
    if parts.slashes == 0 {
        assert(ending =~= parts.pattern);
    }
}

/// What is left of a line after the white space around it and its marks have been taken off.
proof fn lemma_marks_off(parts: LineParts)
    requires
        parts.fit(),
    ensures
        ({
            let all = parts.trimmed();
            let marked = parts.marked();
            let rooted = parts.after_root + parts.ending();
            &&& text::trim(parts.line()) == all
            &&& all.len() > 0 && all[0] != '#'
            &&& all[0] == '!' <==> parts.negated
            &&& parts.negated ==> text::trim_start(all.skip(1)) == marked
            &&& !parts.negated ==> all == marked
            &&& marked.len() > 0
            &&& marked[0] == '/' <==> parts.anchored
            &&& parts.anchored ==> marked.skip(1) == rooted
            &&& !parts.anchored ==> marked == rooted
        }),
{
    let all = parts.trimmed();
    let marked = parts.marked();
    let ending = parts.ending();
    let rooted = parts.after_root + ending;
    lemma_ending(parts);
    if parts.anchored {
        assert(marked[0] == '/');
        assert(marked.skip(1) =~= rooted);
    } else {
        assert(marked =~= rooted);
        assert(marked =~= ending);
    }
    assert(marked.last() == ending.last());
    assert(!text::is_white_space(marked[0]));
    if parts.negated {
        let rest = parts.after_mark + marked;
        assert(all[0] == '!');
        assert(all.skip(1) =~= rest);
        let i = text_laws::trim_start_takes_white_space(rest);
        let m = parts.after_mark.len() as int;
        assert(rest[m] == marked[0]);
        assert(i <= m);
        if i < m {
            assert(rest[i] == parts.after_mark[i]);
        }
        assert(rest.skip(m) =~= marked);
    } else {
        assert(all =~= marked);
    }
    assert(all.last() == marked.last());
    trim_takes_what_is_around(parts.before, all, parts.after);
}

/// What is left of it after the slashes at the end have been taken off too.
proof fn lemma_slashes_off(parts: LineParts)
    requires
        parts.fit(),
    ensures
        ({
            let rooted = parts.after_root + parts.ending();
            &&& rooted.len() > 0
            &&& rooted.last() == '/' <==> parts.slashes > 0
            &&& parts.slashes > 0 ==> text::trim(text::trim_end_char(rooted, '/')) == parts.pattern
            &&& parts.slashes == 0 ==> text::trim(rooted) == parts.pattern
        }),
{
    let p = parts.pattern;
    let rooted = parts.after_root + parts.ending();
    let left = parts.after_root + p + parts.before_end;
    lemma_ending(parts);
    assert(rooted.last() == parts.ending().last());
    trim_takes_what_is_around(parts.after_root, p, parts.before_end);
    if parts.slashes > 0 {
        let run = Seq::new(parts.slashes, |i: int| '/');
        let j = text_laws::trim_end_char_takes_the_run(rooted, '/');
        let e = left.len() as int;
        assert(rooted =~= left + run);
        assert(left.last() != '/') by {
            if parts.before_end.len() > 0 {
                assert(left.last() == parts.before_end.last());
                assert(text::is_white_space(parts.before_end[parts.before_end.len() - 1]));
            } else {
                assert(left.last() == p.last());
            }
        }
        assert(rooted[e - 1] == left.last());
        assert(j >= e);
        if j > e {
            assert(rooted[j - 1] == run[j - 1 - e]);
        }
        assert(rooted.take(e) =~= left);
    } else {
        assert(rooted =~= left);
    }
}

/// Marks without a pattern state no rule.
pub proof fn marks_alone_state_no_rule(negated: bool, slashes: nat)
    ensures
        ignore::parse_line(mark_if(negated, '!') + Seq::new(slashes, |i: int| '/')) is None,
{
    let run = Seq::new(slashes, |i: int| '/');
    let line = mark_if(negated, '!') + run;
    if line.len() > 0 {
        trim_takes_what_is_around(Seq::empty(), line, Seq::empty());
        assert(Seq::empty() + line + Seq::<char>::empty() =~= line);
        if negated {
            assert(line.skip(1) =~= run);
        } else {
            assert(line =~= run);
        }
        assert(text::trim_start(run) == run);
        let rest = if run.len() > 0 {
            run.skip(1)
        } else {
            run
        };
        let j = text_laws::trim_end_char_takes_the_run(rest, '/');
        if j > 0 {
            assert(rest[j - 1] == '/');
        }
        assert(rest.take(0) =~= Seq::empty());
        if rest.len() > 0 {
            assert(rest.last() == '/');
        } else {
            assert(rest =~= Seq::empty());
        }
    }
}

/// A line of white space, and one whose first other character is `#`, state no rule.
pub proof fn comments_state_no_rule(before: Seq<char>, rest: Seq<char>)
    requires
        blank(before),
    ensures
        ignore::parse_line(before) is None,
        ignore::parse_line(before + seq!['#'] + rest) is None,
{
    let (i, j) = text_laws::trim_takes_white_space(before);
    if i < j {
        assert(text::is_white_space(before[i]));
    }
    let s = before + seq!['#'] + rest;
    let b = before.len() as int;
    assert(s[b] == '#');
    let (x, y) = text_laws::trim_takes_white_space(s);
    assert(x <= b);
    assert(y > b);
    if x < b {
        assert(s[x] == before[x]);
    }
    assert(text::trim(s)[0] == s[x]);
}

/// The rules of two lists of lines are those of the first list and behind them those of the
/// second; a line by itself gives its rule or none.
pub proof fn rules_keep_the_order_of_lines(
    a: Seq<Seq<char>>,
    b: Seq<Seq<char>>,
    line: Seq<char>,
)
    ensures
        ignore::parse_lines(a + b) == ignore::parse_lines(a) + ignore::parse_lines(b),
        ignore::parse_line(line) is Some ==> ignore::parse_lines(seq![line]) == seq![
            ignore::parse_line(line)->0,
        ],
        ignore::parse_line(line) is None ==> ignore::parse_lines(seq![line]).len() == 0,
    decreases b.len(),
{
    reveal_with_fuel(ignore::parse_lines, 2);
    assert(seq![line].drop_last() =~= Seq::empty());
    if b.len() == 0 {
        assert(a + b =~= a);
        assert(ignore::parse_lines(a) =~= ignore::parse_lines(a) + ignore::parse_lines(b));
    } else {
        rules_keep_the_order_of_lines(a, b.drop_last(), line);
        assert((a + b).drop_last() =~= a + b.drop_last());
        assert(ignore::parse_lines(a + b) =~= ignore::parse_lines(a) + ignore::parse_lines(b));
    }
    if ignore::parse_line(line) is Some {
        assert(ignore::parse_lines(seq![line]) =~= seq![ignore::parse_line(line)->0]);
    }
}

/// A line is written at the end of the file, with a line feed behind it. What was in the file
/// before stays in front of it, with a line feed more where it did not end with one; a file of
/// white space alone gives way to lines of comment.
pub proof fn line_is_written_at_the_end(existing: Seq<char>, line: Seq<char>)
    ensures
        ({
            let content = ignore::with_line(existing, line);
            let end = line + seq!['\n'];
            &&& end.is_suffix_of(content)
            &&& !blank(existing) && existing.last() == '\n' ==> content == existing + end
            &&& !blank(existing) && existing.last() != '\n' ==> content == existing + seq!['\n']
                + end
            &&& blank(existing) ==> content == ignore::ignore_header() + end
        }),
        ignore::holds_line(existing, line) ==> ignore::content_with(existing, line) == existing,
        !ignore::holds_line(existing, line) ==> ignore::content_with(existing, line)
            == ignore::with_line(existing, line),
{
    let content = ignore::with_line(existing, line);
    let end = line + seq!['\n'];
    let (i, j) = text_laws::trim_takes_white_space(existing);
    if blank(existing) {
        if i < j {
            assert(text::is_white_space(existing[i]));
        }
        assert(content =~= ignore::ignore_header() + end);
    } else {
        if i == j {
            assert forall|k: int| 0 <= k < existing.len() implies text::is_white_space(
                #[trigger] existing[k],
            ) by {}
        }
        assert(text::trim(existing).len() > 0);
        if existing.last() == '\n' {
            assert(content =~= existing + end);
        } else {
            assert(content =~= existing + seq!['\n'] + end);
        }
    }
    assert(end =~= content.subrange(content.len() - end.len(), content.len() as int));
}

/// The line that is written for a path has a slash in front, and one behind for a directory.
pub proof fn written_line_has_its_slashes(relative: Seq<char>)
    ensures
        ignore::pattern_line(relative, false) == seq!['/'] + relative,
        ignore::pattern_line(relative, true) == seq!['/'] + relative + seq!['/'],
{
    assert((seq!['/'] + relative).push('/') =~= seq!['/'] + relative + seq!['/']);
}

/// A line is held by the file as soon as one of its lines is that line with white space around
/// it, however its end is written.
pub proof fn held_line_may_have_white_space(existing: Seq<char>, line: Seq<char>)
    ensures
        ignore::holds_line(existing, line) <==> exists|i: int|
            0 <= i < text::feed_lines(existing).len() && text::trim(
                #[trigger] text::feed_lines(existing)[i],
            ) == line,
{
    let lines = text::text_lines(existing);
    let feed = text::feed_lines(existing);
    assert(lines.len() == feed.len()) by {
        if feed.len() > 0 {
            text_laws::text_lines_lose_a_return(existing, 0);
        } else {
            text::lemma_split_nonempty(existing, '\n');
        }
    }
    assert forall|i: int| 0 <= i < feed.len() implies text::trim(#[trigger] feed[i]) == text::trim(
        lines[i],
    ) by {
        text_laws::text_lines_lose_a_return(existing, i);
        text::lemma_trim_strip_return(feed[i]);
        if lines[i] != feed[i] {
            assert(lines[i] =~= text::strip_return(feed[i]));
        }
    }
    if ignore::holds_line(existing, line) {
        let i = choose|i: int| 0 <= i < lines.len() && text::trim(#[trigger] lines[i]) == line;
        assert(text::trim(feed[i]) == line);
    }
    if exists|i: int| 0 <= i < feed.len() && text::trim(#[trigger] feed[i]) == line {
        let i = choose|i: int| 0 <= i < feed.len() && text::trim(#[trigger] feed[i]) == line;
        assert(text::trim(lines[i]) == line);
    }
}

} // verus!
