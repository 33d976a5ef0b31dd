//! How the lines of one text turn into the lines of another.

use similar::ChangeTag;
use similar::TextDiff;
use vstd::prelude::*;

use crate::text;

verus! {

/// What happens to one line on the way from the old text to the new one.
#[derive(Clone, Copy, Debug, PartialEq, Eq, Structural)]
pub enum LineChange {
    Delete,
    Equal,
    Insert,
}

/// How many lines of the old text the changes go through.
pub open spec fn old_lines(changes: Seq<LineChange>) -> nat
    decreases changes.len(),
{
    if changes.len() == 0 {
        0
    } else {
        old_lines(changes.drop_last()) + (if changes.last() == LineChange::Insert {
            0nat
        } else {
            1nat
        })
    }
}

/// How many lines of the new text the changes go through.
pub open spec fn new_lines(changes: Seq<LineChange>) -> nat
    decreases changes.len(),
{
    if changes.len() == 0 {
        0
    } else {
        new_lines(changes.drop_last()) + (if changes.last() == LineChange::Delete {
            0nat
        } else {
            1nat
        })
    }
}

/// Whether the changes lead from the old lines to the new ones: they go through all lines of
/// both in order, and a line that they call equal is the same in both.
pub open spec fn leads_to(
    old: Seq<Seq<char>>,
    new: Seq<Seq<char>>,
    changes: Seq<LineChange>,
) -> bool {
    &&& old_lines(changes) == old.len()
    &&& new_lines(changes) == new.len()
    &&& forall|k: int|
        0 <= k < changes.len() && #[trigger] changes[k] == LineChange::Equal ==> old[old_lines(
            changes.take(k),
        ) as int] == new[new_lines(changes.take(k)) as int]
}

/// Whether `m` finds the lines of `short` in `long`, one behind the other.
pub open spec fn finds(short: Seq<Seq<char>>, long: Seq<Seq<char>>, m: Seq<int>) -> bool {
    &&& m.len() == short.len()
    &&& forall|i: int|
        0 <= i < m.len() ==> 0 <= #[trigger] m[i] < long.len() && long[m[i]] == short[i]
    &&& forall|i: int, j: int| 0 <= i < j < m.len() ==> #[trigger] m[i] < #[trigger] m[j]
}

/// Whether `long` is `short` with some lines put in, wherever they are.
pub open spec fn within(short: Seq<Seq<char>>, long: Seq<Seq<char>>) -> bool {
    exists|m: Seq<int>| #[trigger] finds(short, long, m)
}

/// Every list of lines lies within itself.
pub proof fn lemma_within_itself(lines: Seq<Seq<char>>)
    ensures
        within(lines, lines),
{
    assert(finds(lines, lines, Seq::new(lines.len(), |i: int| i)));
}

/// The changes that `TextDiff::from_slices` finds between two lists of lines.
pub uninterp spec fn line_diff(old: Seq<Seq<char>>, new: Seq<Seq<char>>) -> Seq<LineChange>;

/// How many different lines two lists hold.
pub open spec fn distinct_lines(old: Seq<Seq<char>>, new: Seq<Seq<char>>) -> nat {
    (old + new).to_set().len()
}

/// Whether `TextDiff::from_slices` has a number for each of the different lines. It always
/// does for lists that are not longer.
pub open spec fn can_diff(old: Seq<Seq<char>>, new: Seq<Seq<char>>) -> bool {
    old.len() + new.len() <= u32::MAX || distinct_lines(old, new) <= u32::MAX
}

/// Calls `TextDiff::from_slices` of the crate `similar` and takes the tag of each change.
///
/// The changes go through all lines of both lists in order and call only equal lines equal.
/// Without a deadline the crate splits the lists along a shortest way from one to the other,
/// so where lines were only put in none is deleted, and where lines were only taken out none
/// is inserted. Which lines are paired where several pairings are possible is left to the
/// name `line_diff`. With more than `u32::MAX` different lines the crate runs out of numbers
/// for them.
#[verifier::external_body]
pub(crate) fn line_changes(old: &[String], new: &[String]) -> (r: Vec<LineChange>)
    requires
        can_diff(text::texts(old@), text::texts(new@)),
    ensures
        r@ == line_diff(text::texts(old@), text::texts(new@)),
        leads_to(text::texts(old@), text::texts(new@), r@),
        within(text::texts(old@), text::texts(new@)) ==> forall|k: int|
            0 <= k < r@.len() ==> r@[k] != LineChange::Delete,
        within(text::texts(new@), text::texts(old@)) ==> forall|k: int|
            0 <= k < r@.len() ==> r@[k] != LineChange::Insert,
{
    let old: Vec<&str> = old.iter().map(|line| line.as_str()).collect();
    let new: Vec<&str> = new.iter().map(|line| line.as_str()).collect();
    TextDiff::from_slices(&old, &new)
        .iter_all_changes()
        .map(|change| match change.tag() {
            ChangeTag::Delete => LineChange::Delete,
            ChangeTag::Equal => LineChange::Equal,
            ChangeTag::Insert => LineChange::Insert,
        })
        .collect()
}

fn holds_text(lines: &Vec<String>, line: &str) -> (r: bool)
    ensures
        r == text::texts(lines@).contains(line@),
{
    let ghost all = text::texts(lines@);
    let cs = text::chars_of(line);
    let mut i: usize = 0;
    while i < lines.len()
        invariant
            i <= lines@.len(),
            all == text::texts(lines@),
            cs@ == line@,
            forall|k: int| 0 <= k < i ==> all[k] != line@,
        decreases lines@.len() - i,
    {
        if text::chars_are(cs.as_slice(), lines[i].as_str()) {
            assert(all[i as int] == line@);
            return true;
        }
        i = i + 1;
    }
    false
}

/// Adds the lines that are not there yet, as long as there are no more than `limit`.
fn add_distinct(distinct: &mut Vec<String>, lines: &[String], limit: usize) -> (r: bool)
    requires
        text::texts(old(distinct)@).no_duplicates(),
        old(distinct)@.len() <= limit,
    ensures
        text::texts(final(distinct)@).no_duplicates(),
        final(distinct)@.len() <= limit,
        ({
            let all = text::texts(old(distinct)@) + text::texts(lines@);
            if r {
                text::texts(final(distinct)@).to_set() == all.to_set()
            } else {
                all.to_set().len() > limit
            }
        }),
{
    let ghost before = text::texts(distinct@);
    let ghost more = text::texts(lines@);
    let mut i: usize = 0;
    assert(before + more.take(0) =~= before);
    while i < lines.len()
        invariant
            i <= lines@.len(),
            before == text::texts(old(distinct)@),
            more == text::texts(lines@),
            text::texts(distinct@).no_duplicates(),
            distinct@.len() <= limit,
            text::texts(distinct@).to_set() == (before + more.take(i as int)).to_set(),
        decreases lines@.len() - i,
    {
        let ghost was = text::texts(distinct@);
        let ghost seen = before + more.take(i as int);
        let ghost line = more[i as int];
        proof {
            assert(before + more.take(i + 1) =~= seen.push(line));
            lemma_set_of_one_more(seen, line);
        }
        if !holds_text(distinct, lines[i].as_str()) {
            if distinct.len() == limit {
                proof {
                    let all = before + more;
                    assert forall|k: int| 0 <= k < was.len() implies all.contains(
                        #[trigger] was[k],
                    ) by {
                        assert(was.to_set().contains(was[k]));
                        let j = choose|j: int| 0 <= j < seen.len() && seen[j] == was[k];
                        assert(all[j] == was[k]);
                    }
                    assert(all[before.len() + i] == line);
                    lemma_too_many(was, all, line);
                }
                return false;
            }
            let copy = lines[i].clone();
            distinct.push(copy);
            proof {
                assert(text::texts(distinct@) =~= was.push(line));
                lemma_set_of_one_more(was, line);
            }
        } else {
            assert(was.to_set().contains(line));
            assert(seen.to_set().insert(line) =~= seen.to_set());
        }
        i = i + 1;
    }
    assert(more.take(more.len() as int) =~= more);
    true
}

proof fn lemma_set_of_one_more(s: Seq<Seq<char>>, line: Seq<char>)
    ensures
        s.push(line).to_set() == s.to_set().insert(line),
{
    let more = s.push(line);
    assert forall|x: Seq<char>| #[trigger] more.to_set().contains(x) <==> s.to_set().insert(
        line,
    ).contains(x) by {
        vstd::seq_lib::lemma_seq_contains_after_push(s, line, x);
    }
    assert(more.to_set() =~= s.to_set().insert(line));
}

/// Different lines and one more are more than there are.
proof fn lemma_too_many(distinct: Seq<Seq<char>>, all: Seq<Seq<char>>, line: Seq<char>)
    requires
        distinct.no_duplicates(),
        forall|i: int| 0 <= i < distinct.len() ==> all.contains(#[trigger] distinct[i]),
        all.contains(line),
        !distinct.contains(line),
    ensures
        all.to_set().len() > distinct.len(),
{
    let more = distinct.push(line);
    assert(more.no_duplicates()) by {
        assert forall|i: int, j: int|
            0 <= i < more.len() && 0 <= j < more.len() && i != j implies more[i] != more[j] by {
            if i < distinct.len() {
                assert(distinct.contains(distinct[i]));
            }
            if j < distinct.len() {
                assert(distinct.contains(distinct[j]));
            }
        }
    }
    more.unique_seq_to_set();
    assert(more.to_set().subset_of(all.to_set())) by {
        assert forall|x: Seq<char>| more.to_set().contains(x) implies all.to_set().contains(x) by {
            let i = choose|i: int| 0 <= i < more.len() && more[i] == x;
            if i < distinct.len() {
                assert(all.contains(distinct[i]));
            }
        }
    }
    vstd::seq_lib::seq_to_set_is_finite(all);
    vstd::set_lib::lemma_len_subset(more.to_set(), all.to_set());
}

/// Whether two lists hold no more than `limit` different lines.
pub fn distinct_at_most(old: &[String], new: &[String], limit: usize) -> (r: bool)
    ensures
        r == (distinct_lines(text::texts(old@), text::texts(new@)) <= limit),
{
    let ghost a = text::texts(old@);
    let ghost b = text::texts(new@);
    let mut distinct: Vec<String> = Vec::new();
    assert(text::texts(distinct@) + a =~= a);
    if !add_distinct(&mut distinct, old, limit) {
        proof {
            vstd::seq_lib::seq_to_set_is_finite(a + b);
            assert(a.to_set().subset_of((a + b).to_set())) by {
                assert forall|x: Seq<char>| a.to_set().contains(x) implies (
                a + b).to_set().contains(x) by {
                    let i = choose|i: int| 0 <= i < a.len() && a[i] == x;
                    assert((a + b)[i] == x);
                }
            }
            vstd::set_lib::lemma_len_subset(a.to_set(), (a + b).to_set());
        }
        return false;
    }
    let ghost first = text::texts(distinct@);
    let fits = add_distinct(&mut distinct, new, limit);
    proof {
        assert((first + b).to_set() =~= (a + b).to_set()) by {
            lemma_set_of_both(first, b);
            lemma_set_of_both(a, b);
        }
        text::texts(distinct@).unique_seq_to_set();
    }
    fits
}

proof fn lemma_set_of_both(a: Seq<Seq<char>>, b: Seq<Seq<char>>)
    ensures
        (a + b).to_set() == a.to_set().union(b.to_set()),
{
    assert forall|x: Seq<char>| #[trigger] (a + b).to_set().contains(x) <==> (
    a.to_set().contains(x) || b.to_set().contains(x)) by {
        if a.contains(x) {
            let i = choose|i: int| 0 <= i < a.len() && a[i] == x;
            assert((a + b)[i] == x);
        }
        if b.contains(x) {
            let i = choose|i: int| 0 <= i < b.len() && b[i] == x;
            assert((a + b)[a.len() + i] == x);
        }
        if (a + b).contains(x) {
            let i = choose|i: int| 0 <= i < (a + b).len() && (a + b)[i] == x;
            if i < a.len() {
                assert(a[i] == x);
            } else {
                assert(b[i - a.len()] == x);
            }
        }
    }
    assert((a + b).to_set() =~= a.to_set().union(b.to_set()));
}

/// Whether the changes between two lists of lines can be found.
pub fn diff_fits(old: &[String], new: &[String]) -> (r: bool)
    ensures
        r == can_diff(text::texts(old@), text::texts(new@)),
        r == (distinct_lines(text::texts(old@), text::texts(new@)) <= u32::MAX),
{
    let limit: usize = u32::MAX as usize;
    proof {
        (text::texts(old@) + text::texts(new@)).lemma_cardinality_of_set();
    }
    (old.len() <= limit && new.len() <= limit - old.len()) || distinct_at_most(old, new, limit)
}

/// The old line that each new line comes from; -1 for a line that was put in.
pub open spec fn origins(changes: Seq<LineChange>) -> Seq<int>
    decreases changes.len(),
{
    if changes.len() == 0 {
        Seq::empty()
    } else {
        let front = changes.drop_last();
        match changes.last() {
            LineChange::Delete => origins(front),
            LineChange::Equal => origins(front).push(old_lines(front) as int),
            LineChange::Insert => origins(front).push(-1),
        }
    }
}

/// The new lines come from old lines in order, each from a line of its own.
pub proof fn lemma_origins(changes: Seq<LineChange>)
    ensures
        origins(changes).len() == new_lines(changes),
        forall|i: int|
            0 <= i < origins(changes).len() ==> -1 <= #[trigger] origins(changes)[i] < old_lines(
                changes,
            ),
        forall|i: int, j: int|
            0 <= i < j < origins(changes).len() && origins(changes)[j] >= 0 ==> #[trigger] origins(
                changes,
            )[i] < #[trigger] origins(changes)[j],
    decreases changes.len(),
{
    if changes.len() > 0 {
        lemma_origins(changes.drop_last());
    }
}

/// The change that a new line comes from.
pub proof fn lemma_origin_change(changes: Seq<LineChange>, i: int) -> (k: int)
    requires
        0 <= i < origins(changes).len(),
        origins(changes)[i] >= 0,
    ensures
        0 <= k < changes.len(),
        changes[k] == LineChange::Equal,
        new_lines(changes.take(k)) == i,
        old_lines(changes.take(k)) == origins(changes)[i],
    decreases changes.len(),
{
    let front = changes.drop_last();
    lemma_origins(front);
    assert(changes.take(changes.len() - 1) =~= front);
    if i < origins(front).len() {
        let k = lemma_origin_change(front, i);
        assert(front.take(k) =~= changes.take(k));
        k
    } else {
        changes.len() - 1
    }
}

/// Where nothing is inserted, every new line comes from an old one.
pub proof fn lemma_all_have_origins(changes: Seq<LineChange>)
    requires
        forall|k: int| 0 <= k < changes.len() ==> changes[k] != LineChange::Insert,
    ensures
        forall|i: int| 0 <= i < origins(changes).len() ==> #[trigger] origins(changes)[i] >= 0,
    decreases changes.len(),
{
    if changes.len() > 0 {
        let front = changes.drop_last();
        lemma_all_have_origins(front);
        assert(changes[changes.len() - 1] != LineChange::Insert);
        assert(forall|i: int|
            0 <= i < origins(front).len() ==> #[trigger] origins(changes)[i] == origins(front)[i]);
    }
}

} // verus!
