//! Which paths of a workspace are left out of the review: the rules of its ignore file.

use vstd::prelude::*;

use crate::path;
use crate::path::FsPath;
use crate::path::PathModel;
use crate::text;
use crate::wildcard;
use crate::wildcard::wildcard_match;

verus! {

/// What one line of the ignore file says.
#[verifier::ext_equal]
pub struct PatternModel {
    pub pattern: Seq<char>,
    pub negated: bool,
    pub anchored: bool,
    pub dir_only: bool,
    pub has_slash: bool,
}

/// What an ignore file says of the workspace below `root`.
#[verifier::ext_equal]
pub struct RulesModel {
    pub root: PathModel,
    pub patterns: Seq<PatternModel>,
}

/// The rule that a line states. White space around it does not count; an empty line and one
/// that starts with `#` state none. A `!` in front takes paths back in, a `/` in front ties
/// the pattern to the workspace root, a `/` at the end keeps it to directories.
pub open spec fn parse_line(line: Seq<char>) -> Option<PatternModel> {
    let line = text::trim(line);
    if line.len() == 0 || line[0] == '#' {
        None
    } else {
        let negated = line[0] == '!';
        let line = if negated {
            text::trim_start(line.skip(1))
        } else {
            line
        };
        let anchored = line.len() > 0 && line[0] == '/';
        let line = if anchored {
            line.skip(1)
        } else {
            line
        };
        let dir_only = line.len() > 0 && line.last() == '/';
        let line = if dir_only {
            text::trim_end_char(line, '/')
        } else {
            line
        };
        let pattern = text::trim(line);
        if pattern.len() == 0 {
            None
        } else {
            Some(
                PatternModel {
                    pattern: text::replace(pattern, '\\', seq!['/']),
                    negated,
                    anchored,
                    dir_only,
                    has_slash: pattern.contains('/'),
                },
            )
        }
    }
}

/// The rules that the lines state, in their order.
pub open spec fn parse_lines(lines: Seq<Seq<char>>) -> Seq<PatternModel>
    decreases lines.len(),
{
    if lines.len() == 0 {
        Seq::empty()
    } else {
        let before = parse_lines(lines.drop_last());
        match parse_line(lines.last()) {
            Some(rule) => before.push(rule),
            None => before,
        }
    }
}

/// The rules of an ignore file with this content.
pub open spec fn parse_text(content: Seq<char>) -> Seq<PatternModel> {
    parse_lines(text::text_lines(content))
}

/// The directories that `relative` names: each one on the way, and `relative` itself if it
/// is one.
pub open spec fn candidates(relative: Seq<char>, is_dir: bool) -> Seq<Seq<char>> {
    let parts = text::split(relative, '/');
    let n = if is_dir {
        parts.len() as int
    } else {
        parts.len() - 1
    };
    Seq::new(n as nat, |i: int| text::join(parts.take(i + 1), '/'))
}

/// `path` without its first names: without none, one, two, up to all but the last.
pub open spec fn path_suffixes(path: Seq<char>) -> Seq<Seq<char>> {
    let parts = text::split(path, '/');
    Seq::new(parts.len(), |i: int| text::join(parts.skip(i), '/'))
}

/// Whether one of the texts matches the pattern.
pub open spec fn some_matches(pattern: Seq<char>, list: Seq<Seq<char>>) -> bool {
    exists|i: int| 0 <= i < list.len() && wildcard::text_matches(pattern, #[trigger] list[i])
}

/// Whether the pattern matches a path that lies in the workspace at `relative`.
pub open spec fn rule_matches(rule: PatternModel, relative: Seq<char>, is_dir: bool) -> bool {
    if rule.dir_only {
        directory_rule_matches(rule, relative, is_dir)
    } else if rule.anchored {
        wildcard::text_matches(rule.pattern, relative)
    } else if rule.has_slash {
        some_matches(rule.pattern, path_suffixes(relative))
    } else {
        some_matches(rule.pattern, text::split(relative, '/'))
    }
}

/// Whether a pattern that is kept to directories matches the path: it does if it matches the
/// path, where that is a directory, or a directory that the path lies in.
pub open spec fn directory_rule_matches(
    rule: PatternModel,
    relative: Seq<char>,
    is_dir: bool,
) -> bool {
    let dirs = candidates(relative, is_dir);
    if rule.anchored {
        some_matches(rule.pattern, dirs)
    } else if rule.has_slash {
        exists|i: int|
            0 <= i < dirs.len() && some_matches(rule.pattern, path_suffixes(#[trigger] dirs[i]))
    } else {
        let parts = text::split(relative, '/');
        some_matches(
            rule.pattern,
            if is_dir {
                parts
            } else {
                parts.drop_last()
            },
        )
    }
}

/// The last rule that matches decides; without one the path stays in.
pub open spec fn verdict(rules: Seq<PatternModel>, relative: Seq<char>, is_dir: bool) -> bool
    decreases rules.len(),
{
    if rules.len() == 0 {
        false
    } else if rule_matches(rules.last(), relative, is_dir) {
        !rules.last().negated
    } else {
        verdict(rules.drop_last(), relative, is_dir)
    }
}

/// The names of a path with `/` between them, unless nothing is left.
pub open spec fn relative_text(path: PathModel) -> Option<Seq<char>> {
    let joined = text::join(path.part_texts(), '/');
    if joined.len() == 0 {
        None
    } else {
        Some(joined)
    }
}

impl RulesModel {
    /// Whether the rules leave the path out. Paths outside the workspace, and the workspace
    /// itself, stay in.
    pub open spec fn ignores(self, path: PathModel, is_dir: bool) -> bool {
        path.starts_with(self.root) && match relative_text(path.below(self.root)) {
            Some(relative) => verdict(self.patterns, relative, is_dir),
            None => false,
        }
    }
}

/// The line that leaves out exactly the path at `relative`.
pub open spec fn pattern_line(relative: Seq<char>, is_dir: bool) -> Seq<char> {
    let line = seq!['/'] + relative;
    if is_dir {
        line.push('/')
    } else {
        line
    }
}

/// Why a path cannot be written into the ignore file.
#[derive(Debug)]
pub enum IgnoreError {
    /// The path does not lie in the workspace.
    Outside { path: FsPath, root: FsPath },
    /// The path is the workspace.
    WorkspaceRoot,
}

/// One rule of an ignore file.
#[derive(Debug)]
pub struct IgnorePattern {
    pub pattern: String,
    pub negated: bool,
    pub anchored: bool,
    pub dir_only: bool,
    pub has_slash: bool,
}

impl View for IgnorePattern {
    type V = PatternModel;

    open spec fn view(&self) -> PatternModel {
        PatternModel {
            pattern: self.pattern@,
            negated: self.negated,
            anchored: self.anchored,
            dir_only: self.dir_only,
            has_slash: self.has_slash,
        }
    }
}

impl Clone for IgnorePattern {
    fn clone(&self) -> (r: Self)
        ensures
            r@ == self@,
    {
        IgnorePattern {
            pattern: self.pattern.clone(),
            negated: self.negated,
            anchored: self.anchored,
            dir_only: self.dir_only,
            has_slash: self.has_slash,
        }
    }
}

/// The models of several rules.
pub open spec fn pattern_views(v: Seq<IgnorePattern>) -> Seq<PatternModel> {
    v.map_values(|p: IgnorePattern| p@)
}

fn any_text_matches(pattern: &str, list: &Vec<String>) -> (r: bool)
    ensures
        r == some_matches(pattern@, text::texts(list@)),
{
    let ghost all = text::texts(list@);
    let mut i: usize = 0;
    while i < list.len()
        invariant
            i <= list.len(),
            all == text::texts(list@),
            forall|k: int| 0 <= k < i ==> !wildcard::text_matches(pattern@, #[trigger] all[k]),
        decreases list.len() - i,
    {
        if wildcard_match(pattern, list[i].as_str()) {
            assert(wildcard::text_matches(pattern@, all[i as int]));
            return true;
        }
        assert(all[i as int] == list@[i as int]@);
        i = i + 1;
    }
    false
}

/// The first `n` pieces as strings.
fn piece_strings(parts: &Vec<Vec<char>>, n: usize) -> (r: Vec<String>)
    requires
        n <= parts@.len(),
    ensures
        text::texts(r@) == text::views(parts@).take(n as int),
{
    let ghost all = text::views(parts@);
    let mut r: Vec<String> = Vec::new();
    let mut i: usize = 0;
    assert(text::texts(r@) =~= all.take(0));
    while i < n
        invariant
            i <= n <= parts@.len(),
            all == text::views(parts@),
            text::texts(r@) == all.take(i as int),
        decreases n - i,
    {
        let ghost was = text::texts(r@);
        let piece = text::string_of(parts[i].as_slice());
        r.push(piece);
        assert(text::texts(r@) =~= was.push(piece@));
        assert(all.take(i + 1) =~= all.take(i as int).push(all[i as int]));
        i = i + 1;
    }
    r
}

/// The directories that `relative` names, from the outermost to the innermost.
pub fn directory_candidates(relative: &str, is_dir: bool) -> (r: Vec<String>)
    ensures
        text::texts(r@) == candidates(relative@, is_dir),
{
    let cs = text::chars_of(relative);
    let components = text::pieces(cs.as_slice(), '/');
    proof {
        text::lemma_split_nonempty(relative@, '/');
    }
    let last_directory: usize = if is_dir {
        components.len()
    } else {
        components.len() - 1
    };
    let ghost parts = text::split(relative@, '/');
    let ghost all = candidates(relative@, is_dir);
    let mut r: Vec<String> = Vec::new();
    let mut count: usize = 0;
    assert(text::texts(r@) =~= all.take(0));
    while count < last_directory
        invariant
            count <= last_directory <= components@.len(),
            parts == text::views(components@),
            parts == text::split(relative@, '/'),
            all == candidates(relative@, is_dir),
            all.len() == last_directory,
            text::texts(r@) == all.take(count as int),
        decreases last_directory - count,
    {
        let ghost was = text::texts(r@);
        let names = vstd::slice::slice_subrange(components.as_slice(), 0, count + 1);
        let chars = text::joined(names, '/');
        assert(text::views(names@) =~= parts.take(count + 1));
        let candidate = text::string_of(chars.as_slice());
        r.push(candidate);
        assert(candidate@ == all[count as int]);
        assert(text::texts(r@) =~= was.push(candidate@));
        assert(all.take(count + 1) =~= all.take(count as int).push(all[count as int]));
        count = count + 1;
    }
    assert(all.take(all.len() as int) =~= all);
    r
}

/// `path` and what is left of it without its first names.
pub fn suffixes(path: &str) -> (r: Vec<String>)
    ensures
        text::texts(r@) == path_suffixes(path@),
{
    let cs = text::chars_of(path);
    let components = text::pieces(cs.as_slice(), '/');
    let ghost parts = text::split(path@, '/');
    let ghost all = path_suffixes(path@);
    let mut r: Vec<String> = Vec::new();
    let mut index: usize = 0;
    assert(text::texts(r@) =~= all.take(0));
    while index < components.len()
        invariant
            index <= components@.len(),
            parts == text::views(components@),
            parts == text::split(path@, '/'),
            all == path_suffixes(path@),
            text::texts(r@) == all.take(index as int),
        decreases components@.len() - index,
    {
        let ghost was = text::texts(r@);
        let names = vstd::slice::slice_subrange(components.as_slice(), index, components.len());
        let chars = text::joined(names, '/');
        assert(text::views(names@) =~= parts.skip(index as int));
        let suffix = text::string_of(chars.as_slice());
        r.push(suffix);
        assert(suffix@ == all[index as int]);
        assert(text::texts(r@) =~= was.push(suffix@));
        assert(all.take(index + 1) =~= all.take(index as int).push(all[index as int]));
        index = index + 1;
    }
    assert(all.take(all.len() as int) =~= all);
    r
}

impl IgnorePattern {
    /// The rule that a line states.
    pub fn parse(line: &str) -> (r: Option<IgnorePattern>)
        ensures
            match r {
                Some(rule) => parse_line(line@) == Some(rule@),
                None => parse_line(line@) is None,
            },
    {
        let cs = text::chars_of(line);
        Self::parse_chars(cs.as_slice())
    }

    fn parse_chars(line: &[char]) -> (r: Option<IgnorePattern>)
        ensures
            match r {
                Some(rule) => parse_line(line@) == Some(rule@),
                None => parse_line(line@) is None,
            },
    {
        let mut line = text::trimmed(line);
        if line.len() == 0 || line[0] == '#' {
            return None;
        }
        let negated = line[0] == '!';
        if negated {
            let rest = text::copy_range(line.as_slice(), 1, line.len());
            assert(rest@ =~= line@.skip(1));
            line = text::trimmed_start(rest.as_slice());
        }
        let anchored = line.len() > 0 && line[0] == '/';
        if anchored {
            let rest = text::copy_range(line.as_slice(), 1, line.len());
            assert(rest@ =~= line@.skip(1));
            line = rest;
        }
        let dir_only = line.len() > 0 && line[line.len() - 1] == '/';
        if dir_only {
            line = text::trimmed_end_char(line.as_slice(), '/');
        }
        let pattern = text::trimmed(line.as_slice());
        if pattern.len() == 0 {
            return None;
        }
        let mut slash: Vec<char> = Vec::new();
        slash.push('/');
        assert(slash@ =~= seq!['/']);
        let written = text::replaced(pattern.as_slice(), '\\', slash.as_slice());
        let has_slash = match text::first_index(pattern.as_slice(), '/') {
            Some(i) => {
                assert(pattern@.contains(pattern@[i as int]));
                true
            },
            None => false,
        };
        Some(
            IgnorePattern {
                pattern: text::string_of(written.as_slice()),
                negated,
                anchored,
                dir_only,
                has_slash,
            },
        )
    }

    /// Whether the rule speaks of the path at `relative` in the workspace.
    pub fn matches(&self, relative: &str, is_dir: bool) -> (r: bool)
        ensures
            r == rule_matches(self@, relative@, is_dir),
    {
        if self.dir_only {
            return self.matches_directory_pattern(relative, is_dir);
        }
        if self.anchored {
            return wildcard_match(self.pattern.as_str(), relative);
        }
        if self.has_slash {
            let list = suffixes(relative);
            return any_text_matches(self.pattern.as_str(), &list);
        }
        let cs = text::chars_of(relative);
        let components = text::pieces(cs.as_slice(), '/');
        let list = piece_strings(&components, components.len());
        proof {
            let all = text::views(components@);
            assert(all.take(all.len() as int) =~= all);
        }
        any_text_matches(self.pattern.as_str(), &list)
    }

    /// Whether the rule speaks of the path, or of a directory that it lies in.
    pub fn matches_directory_pattern(&self, relative: &str, is_dir: bool) -> (r: bool)
        ensures
            r == directory_rule_matches(self@, relative@, is_dir),
    {
        let dirs = directory_candidates(relative, is_dir);
        if self.anchored {
            return any_text_matches(self.pattern.as_str(), &dirs);
        }
        if self.has_slash {
            let ghost all = candidates(relative@, is_dir);
            let mut i: usize = 0;
            while i < dirs.len()
                invariant
                    i <= dirs@.len(),
                    all == text::texts(dirs@),
                    all == candidates(relative@, is_dir),
                    !self.anchored && self.has_slash,
                    forall|k: int|
                        0 <= k < i ==> !some_matches(
                            self.pattern@,
                            path_suffixes(#[trigger] all[k]),
                        ),
                decreases dirs@.len() - i,
            {
                let list = suffixes(dirs[i].as_str());
                assert(all[i as int] == dirs@[i as int]@);
                if any_text_matches(self.pattern.as_str(), &list) {
                    return true;
                }
                i = i + 1;
            }
            return false;
        }
        let cs = text::chars_of(relative);
        let components = text::pieces(cs.as_slice(), '/');
        proof {
            text::lemma_split_nonempty(relative@, '/');
        }
        let count: usize = if is_dir {
            components.len()
        } else {
            components.len() - 1
        };
        let list = piece_strings(&components, count);
        proof {
            let all = text::views(components@);
            assert(all.take(all.len() as int) =~= all);
            assert(all.take(all.len() - 1) =~= all.drop_last());
        }
        any_text_matches(self.pattern.as_str(), &list)
    }
}

/// The rules of one workspace.
#[derive(Debug)]
pub struct IgnoreRules {
    root: FsPath,
    patterns: Vec<IgnorePattern>,
}

impl View for IgnoreRules {
    type V = RulesModel;

    closed spec fn view(&self) -> RulesModel {
        RulesModel { root: self.root@, patterns: pattern_views(self.patterns@) }
    }
}

impl Default for IgnoreRules {
    fn default() -> (r: IgnoreRules)
        ensures
            r@.root == (PathModel { absolute: false, parts: Seq::empty() }),
            r@.patterns == Seq::<PatternModel>::empty(),
    {
        let parts: Vec<Vec<u8>> = Vec::new();
        let patterns: Vec<IgnorePattern> = Vec::new();
        assert(path::byte_views(parts@) =~= Seq::empty());
        assert(pattern_views(patterns@) =~= Seq::empty());
        IgnoreRules { root: FsPath::new(false, parts), patterns }
    }
}

impl Clone for IgnoreRules {
    fn clone(&self) -> (r: Self)
        ensures
            r@ == self@,
    {
        let ghost all = pattern_views(self.patterns@);
        let mut patterns: Vec<IgnorePattern> = Vec::new();
        let mut i: usize = 0;
        assert(pattern_views(patterns@) =~= all.take(0));
        while i < self.patterns.len()
            invariant
                i <= self.patterns@.len(),
                all == pattern_views(self.patterns@),
                pattern_views(patterns@) == all.take(i as int),
            decreases self.patterns@.len() - i,
        {
            let ghost was = pattern_views(patterns@);
            let pattern = self.patterns[i].clone();
            patterns.push(pattern);
            assert(pattern_views(patterns@) =~= was.push(pattern@));
            assert(all.take(i + 1) =~= all.take(i as int).push(all[i as int]));
            i = i + 1;
        }
        assert(all.take(all.len() as int) =~= all);
        IgnoreRules { root: self.root.clone(), patterns }
    }
}

/// A line for the ignore file, and what the file has to hold with it.
#[derive(Debug)]
pub struct AddedPattern {
    pub pattern: String,
    /// The new content, unless the file holds the line already.
    pub content: Option<String>,
}

pub const HEADER_TITLE: &'static str = "# debth ignore file";

pub const HEADER_EDIT: &'static str = "# Edit this file to unignore paths or add more patterns.";

pub const HEADER_SYNTAX: &'static str =
    "# Blank lines and # comments are ignored. Use !pattern to unignore.";

/// The comment that a new ignore file starts with.
pub open spec fn ignore_header() -> Seq<char> {
    HEADER_TITLE@.push('\n') + HEADER_EDIT@.push('\n') + HEADER_SYNTAX@.push('\n')
}

/// Whether the file holds the line already, white space aside.
pub open spec fn holds_line(existing: Seq<char>, line: Seq<char>) -> bool {
    let lines = text::text_lines(existing);
    exists|i: int| 0 <= i < lines.len() && text::trim(#[trigger] lines[i]) == line
}

/// The content of the ignore file with one more line at its end. A file that holds nothing
/// but white space starts afresh, with the header.
pub open spec fn with_line(existing: Seq<char>, line: Seq<char>) -> Seq<char> {
    let before = if text::trim(existing).len() == 0 {
        ignore_header()
    } else if existing.last() == '\n' {
        existing
    } else {
        existing.push('\n')
    };
    (before + line).push('\n')
}

/// The content of the ignore file once `line` has been asked for.
pub open spec fn content_with(existing: Seq<char>, line: Seq<char>) -> Seq<char> {
    if holds_line(existing, line) {
        existing
    } else {
        with_line(existing, line)
    }
}

/// The place of the ignore file in the workspace at `root`.
pub open spec fn ignore_place(root: PathModel) -> PathModel {
    root.child(vstd::utf8::encode_utf8(".debth"@)).child(vstd::utf8::encode_utf8("ignore"@))
}

/// The path of the ignore file of the workspace at `root`.
pub fn ignore_path(root: &FsPath) -> (r: FsPath)
    ensures
        r@ == ignore_place(root@),
{
    root.child(".debth".as_bytes()).child("ignore".as_bytes())
}

/// The names of a path with `/` between them; nothing for an empty path.
pub fn normalize_relative(path: &FsPath) -> (r: Option<String>)
    ensures
        match r {
            Some(relative) => relative_text(path@) == Some(relative@),
            None => relative_text(path@) is None,
        },
{
    let names = path.part_texts();
    let normalized = text::joined_texts(names.as_slice(), '/');
    if normalized.as_str().is_empty() {
        None
    } else {
        Some(normalized)
    }
}

/// The line that leaves out `path`, which has to lie in the workspace at `root`.
pub fn ignore_pattern_for_path(root: &FsPath, path: &FsPath, is_dir: bool) -> (r: Result<
    String,
    IgnoreError,
>)
    ensures
        match r {
            Ok(line) => {
                &&& path@.starts_with(root@)
                &&& relative_text(path@.below(root@)) is Some
                &&& line@ == pattern_line(relative_text(path@.below(root@))->0, is_dir)
            },
            Err(IgnoreError::Outside { path: p, root: r }) => {
                &&& !path@.starts_with(root@)
                &&& p@ == path@
                &&& r@ == root@
            },
            Err(IgnoreError::WorkspaceRoot) => {
                &&& path@.starts_with(root@)
                &&& relative_text(path@.below(root@)) is None
            },
        },
{
    match path.strip_prefix(root) {
        None => Err(IgnoreError::Outside { path: path.clone(), root: root.clone() }),
        Some(below) => match normalize_relative(&below) {
            None => Err(IgnoreError::WorkspaceRoot),
            Some(relative) => {
                let mut pattern: String = String::new();
                pattern.push('/');
                pattern.append(relative.as_str());
                assert(pattern@ =~= seq!['/'] + relative@);
                if is_dir {
                    pattern.push('/');
                }
                Ok(pattern)
            },
        },
    }
}

impl IgnoreRules {
    /// The rules of the workspace at `root`, whose ignore file has this content.
    pub fn load(root: &FsPath, content: &str) -> (r: IgnoreRules)
        ensures
            r@ == (RulesModel { root: root@, patterns: parse_text(content@) }),
    {
        let lines = text::lines_of_text(content);
        let ghost all = text::text_lines(content@);
        let mut patterns: Vec<IgnorePattern> = Vec::new();
        let mut i: usize = 0;
        assert(pattern_views(patterns@) =~= parse_lines(all.take(0)));
        while i < lines.len()
            invariant
                i <= lines@.len(),
                all == text::views(lines@),
                pattern_views(patterns@) == parse_lines(all.take(i as int)),
            decreases lines@.len() - i,
        {
            let ghost was = pattern_views(patterns@);
            assert(all.take(i + 1).drop_last() =~= all.take(i as int));
            assert(all.take(i + 1).last() == lines@[i as int]@);
            if let Some(pattern) = IgnorePattern::parse_chars(lines[i].as_slice()) {
                patterns.push(pattern);
                assert(pattern_views(patterns@) =~= was.push(pattern@));
            }
            i = i + 1;
        }
        assert(all.take(all.len() as int) =~= all);
        IgnoreRules { root: root.clone(), patterns }
    }

    /// Whether the rules leave out `path`.
    pub fn is_ignored(&self, path: &FsPath, is_dir: bool) -> (r: bool)
        ensures
            r == self@.ignores(path@, is_dir),
    {
        let relative = match path.strip_prefix(&self.root) {
            None => {
                return false;
            },
            Some(below) => match normalize_relative(&below) {
                None => {
                    return false;
                },
                Some(relative) => relative,
            },
        };
        let ghost rules = self@.patterns;
        let mut ignored = false;
        let mut i: usize = 0;
        while i < self.patterns.len()
            invariant
                i <= self.patterns@.len(),
                rules == pattern_views(self.patterns@),
                ignored == verdict(rules.take(i as int), relative@, is_dir),
            decreases self.patterns@.len() - i,
        {
            let pattern = &self.patterns[i];
            assert(rules.take(i + 1).drop_last() =~= rules.take(i as int));
            assert(rules.take(i + 1).last() == pattern@);
            if pattern.matches(relative.as_str(), is_dir) {
                ignored = !pattern.negated;
            }
            i = i + 1;
        }
        assert(rules.take(rules.len() as int) =~= rules);
        ignored
    }

    /// Leaves `path` out from now on. `existing` is what the ignore file holds; the rules
    /// become those of the content that it has to hold afterwards.
    pub fn add_path(&mut self, path: &FsPath, is_dir: bool, existing: &str) -> (r: Result<
        AddedPattern,
        IgnoreError,
    >)
        ensures
            final(self)@.root == old(self)@.root,
            match r {
                Ok(added) => {
                    &&& path@.starts_with(old(self)@.root)
                    &&& relative_text(path@.below(old(self)@.root)) is Some
                    &&& added.pattern@ == pattern_line(
                        relative_text(path@.below(old(self)@.root))->0,
                        is_dir,
                    )
                    &&& match added.content {
                        Some(content) => !holds_line(existing@, added.pattern@) && content@
                            == with_line(existing@, added.pattern@),
                        None => holds_line(existing@, added.pattern@),
                    }
                    &&& final(self)@.patterns == parse_text(
                        content_with(existing@, added.pattern@),
                    )
                },
                Err(IgnoreError::Outside { path: p, root: r }) => {
                    &&& !path@.starts_with(old(self)@.root)
                    &&& p@ == path@
                    &&& r@ == old(self)@.root
                    &&& final(self)@ == old(self)@
                },
                Err(IgnoreError::WorkspaceRoot) => {
                    &&& path@.starts_with(old(self)@.root)
                    &&& relative_text(path@.below(old(self)@.root)) is None
                    &&& final(self)@ == old(self)@
                },
            },
    {
        let pattern = match ignore_pattern_for_path(&self.root, path, is_dir) {
            Ok(pattern) => pattern,
            Err(error) => {
                return Err(error);
            },
        };
        let root = self.root.clone();
        if Self::has_line(existing, pattern.as_str()) {
            *self = IgnoreRules::load(&root, existing);
            return Ok(AddedPattern { pattern, content: None });
        }
        let cs = text::chars_of(existing);
        let mut next: String = String::new();
        let kept = text::trimmed(cs.as_slice());
        if kept.len() == 0 {
            next.append(HEADER_TITLE);
            next.push('\n');
            next.append(HEADER_EDIT);
            next.push('\n');
            next.append(HEADER_SYNTAX);
            next.push('\n');
            assert(next@ =~= ignore_header());
        } else {
            next.append(existing);
            assert(next@ =~= existing@);
            proof {
                text::lemma_trim_empty(existing@);
            }
            if cs[cs.len() - 1] != '\n' {
                next.push('\n');
            }
        }
        next.append(pattern.as_str());
        next.push('\n');
        *self = IgnoreRules::load(&root, next.as_str());
        Ok(AddedPattern { pattern, content: Some(next) })
    }

    fn has_line(existing: &str, line: &str) -> (r: bool)
        ensures
            r == holds_line(existing@, line@),
    {
        let lines = text::lines_of_text(existing);
        let ghost all = text::text_lines(existing@);
        let mut i: usize = 0;
        while i < lines.len()
            invariant
                i <= lines@.len(),
                all == text::views(lines@),
                all == text::text_lines(existing@),
                forall|k: int| 0 <= k < i ==> text::trim(#[trigger] all[k]) != line@,
            decreases lines@.len() - i,
        {
            let kept = text::trimmed(lines[i].as_slice());
            assert(all[i as int] == lines@[i as int]@);
            if text::chars_are(kept.as_slice(), line) {
                return true;
            }
            i = i + 1;
        }
        false
    }
}

impl IgnoreError {
    /// What to tell the user.
    pub fn message(&self) -> (r: String)
        ensures
            r@ == (match *self {
                IgnoreError::Outside { path, root } => path@.text() + " is outside "@ + root@.text(),
                IgnoreError::WorkspaceRoot => "cannot ignore the workspace root itself"@,
            }),
    {
        match self {
            IgnoreError::Outside { path, root } => {
                let mut message = path.to_text();
                message.append(" is outside ");
                message.append(root.to_text().as_str());
                message
            },
            IgnoreError::WorkspaceRoot => "cannot ignore the workspace root itself".to_owned(),
        }
    }
}

} // verus!
