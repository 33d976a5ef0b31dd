//! What holds of the states of lines, whatever the lines and the states are.

use vstd::prelude::*;

use crate::diff;
use crate::diff::LineChange;
use crate::review;
use crate::review::LineState;
use crate::review::ReviewModel;
use crate::review::ReviewStats;
use crate::store;

verus! {

/// The changes that are not insertions are the lines of the old text, those that are not
/// deletions the lines of the new one.
pub proof fn changes_count_lines(changes: Seq<LineChange>)
    ensures
        diff::old_lines(changes) == changes.filter(|c: LineChange| c != LineChange::Insert).len(),
        diff::new_lines(changes) == changes.filter(|c: LineChange| c != LineChange::Delete).len(),
    decreases changes.len(),
{
    reveal(Seq::filter);
    if changes.len() > 0 {
        changes_count_lines(changes.drop_last());
    }
}

/// What the change at `k` leaves behind in the carried states.
proof fn lemma_carried_at(changes: Seq<LineChange>, previous: Seq<LineState>, k: int)
    requires
        0 <= k < changes.len(),
    ensures
        review::carried(changes, previous).len() == diff::new_lines(changes),
        changes[k] != LineChange::Insert ==> diff::old_lines(changes.take(k)) < diff::old_lines(
            changes,
        ),
        changes[k] != LineChange::Delete ==> diff::new_lines(changes.take(k)) < diff::new_lines(
            changes,
        ),
        changes[k] == LineChange::Equal ==> review::carried(changes, previous)[diff::new_lines(
            changes.take(k),
        ) as int] == review::state_at(previous, diff::old_lines(changes.take(k)) as int),
        changes[k] == LineChange::Insert ==> review::carried(changes, previous)[diff::new_lines(
            changes.take(k),
        ) as int] == LineState::Unreviewed,
    decreases changes.len(),
{
    let front = changes.drop_last();
    if k == changes.len() - 1 {
        assert(changes.take(k) =~= front);
        lemma_carried_len(front, previous);
    } else {
        lemma_carried_at(front, previous, k);
        assert(front.take(k) =~= changes.take(k));
        assert(front[k] == changes[k]);
    }
}

proof fn lemma_carried_len(changes: Seq<LineChange>, previous: Seq<LineState>)
    ensures
        review::carried(changes, previous).len() == diff::new_lines(changes),
    decreases changes.len(),
{
    if changes.len() > 0 {
        lemma_carried_len(changes.drop_last(), previous);
    }
}

/// A current line that the diff pairs with a previous line has the same text and has that
/// line's state, also where other lines were taken out and put in. A line that the diff calls
/// inserted has not been reviewed.
///
/// The change at `k` comes after as many previous lines as there are changes before it that
/// are not insertions, and after as many current lines as there are changes before it that are
/// not deletions.
pub proof fn paired_lines_keep_their_states(
    previous_lines: Seq<Seq<char>>,
    previous_states: Seq<LineState>,
    current_lines: Seq<Seq<char>>,
    k: int,
)
    requires
        previous_lines.len() > 0,
        diff::leads_to(
            previous_lines,
            current_lines,
            diff::line_diff(previous_lines, current_lines),
        ),
        0 <= k < diff::line_diff(previous_lines, current_lines).len(),
    ensures
        ({
            let changes = diff::line_diff(previous_lines, current_lines);
            let from = changes.take(k).filter(|c: LineChange| c != LineChange::Insert).len();
            let to = changes.take(k).filter(|c: LineChange| c != LineChange::Delete).len();
            let states = review::reconciled(previous_lines, previous_states, current_lines);
            &&& states.len() == current_lines.len()
            &&& changes[k] == LineChange::Equal ==> {
                &&& from < previous_lines.len()
                &&& to < current_lines.len()
                &&& previous_lines[from as int] == current_lines[to as int]
                &&& from < previous_states.len() ==> states[to as int]
                    == previous_states[from as int]
                &&& from >= previous_states.len() ==> states[to as int] == LineState::Unreviewed
            }
            &&& changes[k] == LineChange::Insert ==> {
                &&& to < current_lines.len()
                &&& states[to as int] == LineState::Unreviewed
            }
        }),
{
    let changes = diff::line_diff(previous_lines, current_lines);
    changes_count_lines(changes.take(k));
    lemma_carried_at(changes, previous_states, k);
}

/// Every current line is reached by a change that pairs it with a previous line or inserts it.
pub proof fn every_line_is_reached(changes: Seq<LineChange>, i: int) -> (k: int)
    requires
        0 <= i < changes.filter(|c: LineChange| c != LineChange::Delete).len(),
    ensures
        0 <= k < changes.len(),
        changes[k] != LineChange::Delete,
        changes.take(k).filter(|c: LineChange| c != LineChange::Delete).len() == i,
    decreases changes.len(),
{
    reveal(Seq::filter);
    let front = changes.drop_last();
    if i < front.filter(|c: LineChange| c != LineChange::Delete).len() {
        let k = every_line_is_reached(front, i);
        assert(front.take(k) =~= changes.take(k));
        assert(front[k] == changes[k]);
        k
    } else {
        assert(changes.take(changes.len() - 1) =~= front);
        changes.len() - 1
    }
}

/// Where nothing was saved before, every line starts without review.
pub proof fn new_files_are_unreviewed(
    previous_states: Seq<LineState>,
    current_lines: Seq<Seq<char>>,
    i: int,
)
    requires
        0 <= i < current_lines.len(),
    ensures
        review::reconciled(Seq::empty(), previous_states, current_lines).len()
            == current_lines.len(),
        review::reconciled(Seq::empty(), previous_states, current_lines)[i]
            == LineState::Unreviewed,
{
}

/// A line without a saved state has not been reviewed, and a state without a line is dropped;
/// the others stay with their lines.
pub proof fn states_are_made_to_fit(states: Seq<LineState>, n: nat, i: int)
    requires
        0 <= i < n,
    ensures
        review::fitted(states, n).len() == n,
        i < states.len() ==> review::fitted(states, n)[i] == states[i],
        i >= states.len() ==> review::fitted(states, n)[i] == LineState::Unreviewed,
{
}

/// How many lines are in a state is how many are left when the others are taken away.
pub proof fn count_is_of_equal_states(states: Seq<LineState>, state: LineState)
    ensures
        review::count(states, state) == states.filter(|s: LineState| s == state).len(),
    decreases states.len(),
{
    reveal(Seq::filter);
    if states.len() > 0 {
        count_is_of_equal_states(states.drop_last(), state);
    }
}

/// Where every line is in one state, all of them count for it.
pub proof fn one_state_counts_for_all(states: Seq<LineState>, state: LineState)
    requires
        forall|i: int| 0 <= i < states.len() ==> states[i] == state,
    ensures
        review::count(states, state) == states.len(),
        forall|other: LineState| other != state ==> #[trigger] review::count(states, other) == 0,
    decreases states.len(),
{
    if states.len() > 0 {
        let front = states.drop_last();
        assert forall|i: int| 0 <= i < front.len() implies front[i] == state by {
            assert(front[i] == states[i]);
        }
        one_state_counts_for_all(front, state);
        assert(states.last() == states[states.len() - 1]);
        assert forall|other: LineState| other != state implies #[trigger] review::count(
            states,
            other,
        ) == 0 by {
            assert(review::count(front, other) == 0);
        }
    }
}

/// Marking a file gives every one of its lines the state, whatever it had before, and leaves
/// the lines themselves alone. What is saved reads back as that state at every line.
pub proof fn marked_file_is_marked_throughout(review: ReviewModel, state: LineState, i: int)
    requires
        0 <= i < review.states.len(),
    ensures
        ({
            let marked = store::with_file_state(review, state);
            &&& marked.lines == review.lines
            &&& marked.states.len() == review.states.len()
            &&& marked.states[i] == state
            &&& review::count(marked.states, state) == review.states.len()
            &&& store::record_of(marked).lines == review.lines
            &&& store::record_of(marked).state_codes.len() == review.states.len()
            &&& review::state_of(store::record_of(marked).state_codes[i]) == state
        }),
{
    one_state_counts_for_all(store::with_file_state(review, state).states, state);
}

/// Marking a line gives that line the state and leaves every other line as it was.
pub proof fn marked_line_alone_is_marked(review: ReviewModel, i: int, state: LineState, j: int)
    requires
        0 <= i < review.states.len(),
        0 <= j < review.states.len(),
    ensures
        ({
            let marked = store::with_line_state(review, i, state);
            &&& marked.lines == review.lines
            &&& marked.states.len() == review.states.len()
            &&& marked.states[i] == state
            &&& j != i ==> marked.states[j] == review.states[j]
            &&& review::state_of(store::record_of(marked).state_codes[j]) == marked.states[j]
        }),
{
}

/// What is marked last holds: marking a file after marking one of its lines, or marking it
/// twice, is as if only the last mark had been made.
pub proof fn last_mark_holds(
    review: ReviewModel,
    i: int,
    first: LineState,
    second: LineState,
)
    ensures
        store::with_file_state(store::with_file_state(review, first), second)
            == store::with_file_state(review, second),
        store::with_file_state(store::with_line_state(review, i, first), second)
            == store::with_file_state(review, second),
        store::with_line_state(store::with_line_state(review, i, first), i, second)
            == store::with_line_state(review, i, second),
{
    assert(store::with_file_state(store::with_file_state(review, first), second)
        =~= store::with_file_state(review, second));
    assert(store::with_file_state(store::with_line_state(review, i, first), second)
        =~= store::with_file_state(review, second));
    assert(store::with_line_state(store::with_line_state(review, i, first), i, second)
        =~= store::with_line_state(review, i, second));
}

/// The share is the largest whole number of hundredths that are reviewed: all of them exactly
/// where no line waits, none where none has been reviewed.
pub proof fn percent_is_the_share(stats: ReviewStats)
    requires
        stats.total > 0,
        stats.total == stats.accepted + stats.rejected + stats.unreviewed,
        (stats.accepted + stats.rejected) * 100 <= usize::MAX,
    ensures
        review::percent(stats) * stats.total <= 100 * (stats.accepted + stats.rejected),
        100 * (stats.accepted + stats.rejected) < (review::percent(stats) + 1) * stats.total,
        review::percent(stats) == 100 <==> stats.unreviewed == 0,
        stats.accepted + stats.rejected == 0 ==> review::percent(stats) == 0,
{
    let n: int = (stats.accepted + stats.rejected) * 100;
    let d: int = stats.total as int;
    assert(n / d * d <= n < (n / d + 1) * d && 0 <= n / d <= 100) by (nonlinear_arith)
        requires
            d > 0,
            0 <= n <= 100 * d,
    ;
    let q: int = n / d;
    if stats.unreviewed > 0 && q >= 100 {
        assert(100 * d <= q * d) by (nonlinear_arith)
            requires
                d > 0,
                q >= 100,
        ;
    }
    if stats.unreviewed == 0 && q < 100 {
        assert((q + 1) * d <= 100 * d) by (nonlinear_arith)
            requires
                d > 0,
                q < 100,
        ;
    }
    assert(n == 0 ==> q == 0) by (nonlinear_arith)
        requires
            q * d <= n,
            q >= 0,
            d > 0,
    ;
}

/// A letter stands for a state in either case; every other character stands for a line that
/// has not been reviewed, and no two states are saved as the same letter.
pub proof fn letters_stand_for_states(code: char)
    ensures
        review::state_of(code) == LineState::Accepted <==> code == 'a' || code == 'A',
        review::state_of(code) == LineState::Rejected <==> code == 'r' || code == 'R',
        review::code_of(LineState::Accepted) == 'a',
        review::code_of(LineState::Rejected) == 'r',
        review::code_of(LineState::Unreviewed) == 'u',
{
}

/// The numbers for two files together are the sums, line by line and state by state.
pub proof fn sums_are_of_both(a: ReviewStats, b: ReviewStats)
    requires
        a.total + b.total <= usize::MAX,
        a.accepted + b.accepted <= usize::MAX,
        a.rejected + b.rejected <= usize::MAX,
        a.unreviewed + b.unreviewed <= usize::MAX,
    ensures
        review::sum_of(a, b).total == a.total + b.total,
        review::sum_of(a, b).accepted == a.accepted + b.accepted,
        review::sum_of(a, b).rejected == a.rejected + b.rejected,
        review::sum_of(a, b).unreviewed == a.unreviewed + b.unreviewed,
{
}

} // verus!
