//! The state of the lines of a file, and how it survives a change of the file.

use vstd::prelude::*;

use crate::diff;
use crate::diff::LineChange;
use crate::review_laws;
use crate::text;

verus! {

/// What has been said of a line.
#[derive(Clone, Copy, Debug, PartialEq, Eq, Structural)]
pub enum LineState {
    Unreviewed,
    Accepted,
    Rejected,
}

impl Default for LineState {
    fn default() -> (r: LineState)
        ensures
            r == LineState::Unreviewed,
    {
        LineState::Unreviewed
    }
}

/// The letter that a state is saved as.
pub open spec fn code_of(state: LineState) -> char {
    match state {
        LineState::Unreviewed => 'u',
        LineState::Accepted => 'a',
        LineState::Rejected => 'r',
    }
}

/// The state that a letter stands for, in either case. Every other character stands for a
/// line that has not been reviewed.
pub open spec fn state_of(code: char) -> LineState {
    if code == 'a' || code == 'A' {
        LineState::Accepted
    } else if code == 'r' || code == 'R' {
        LineState::Rejected
    } else {
        LineState::Unreviewed
    }
}

impl LineState {
    /// The letter for this state.
    pub fn code(self) -> (r: char)
        ensures
            r == code_of(self),
    {
        match self {
            LineState::Unreviewed => 'u',
            LineState::Accepted => 'a',
            LineState::Rejected => 'r',
        }
    }

    /// The state for a letter.
    pub fn from_code(code: char) -> (r: LineState)
        ensures
            r == state_of(code),
    {
        if code == 'a' || code == 'A' {
            LineState::Accepted
        } else if code == 'r' || code == 'R' {
            LineState::Rejected
        } else {
            LineState::Unreviewed
        }
    }
}

/// The letters for some states.
pub open spec fn codes_of(states: Seq<LineState>) -> Seq<char> {
    states.map_values(|s: LineState| code_of(s))
}

/// The states for some letters.
pub open spec fn states_of(codes: Seq<char>) -> Seq<LineState> {
    codes.map_values(|c: char| state_of(c))
}

/// States that are written down as letters read back as they were.
pub proof fn state_codes_read_back(states: Seq<LineState>)
    ensures
        states_of(codes_of(states)) == states,
        codes_of(states).len() == states.len(),
{
    assert(states_of(codes_of(states)) =~= states);
}

/// Writes one letter for each state.
pub fn encode_state_codes(states: &[LineState]) -> (r: String)
    ensures
        r@ == codes_of(states@),
{
    let mut r: String = String::new();
    let mut i: usize = 0;
    while i < states.len()
        invariant
            i <= states@.len(),
            r@ == codes_of(states@.take(i as int)),
        decreases states@.len() - i,
    {
        r.push(states[i].code());
        assert(codes_of(states@.take(i + 1)) =~= codes_of(states@.take(i as int)).push(
            code_of(states@[i as int]),
        ));
        i = i + 1;
    }
    assert(states@.take(states@.len() as int) =~= states@);
    r
}

/// Reads one state from each letter.
pub fn decode_state_codes(codes: &str) -> (r: Vec<LineState>)
    ensures
        r@ == states_of(codes@),
{
    let cs = text::chars_of(codes);
    let mut r: Vec<LineState> = Vec::new();
    let mut i: usize = 0;
    while i < cs.len()
        invariant
            i <= cs@.len(),
            r@ == states_of(cs@.take(i as int)),
        decreases cs@.len() - i,
    {
        r.push(LineState::from_code(cs[i]));
        assert(states_of(cs@.take(i + 1)) =~= states_of(cs@.take(i as int)).push(
            state_of(cs@[i as int]),
        ));
        i = i + 1;
    }
    assert(cs@.take(cs@.len() as int) =~= cs@);
    r
}

/// A copy of some states.
pub fn copy_states(states: &[LineState]) -> (r: Vec<LineState>)
    ensures
        r@ == states@,
{
    let mut r: Vec<LineState> = Vec::new();
    let mut i: usize = 0;
    while i < states.len()
        invariant
            i <= states@.len(),
            r@ == states@.take(i as int),
        decreases states@.len() - i,
    {
        r.push(states[i]);
        assert(states@.take(i + 1) =~= states@.take(i as int).push(states@[i as int]));
        i = i + 1;
    }
    assert(states@.take(states@.len() as int) =~= states@);
    r
}

/// A copy of some lines.
pub fn copy_lines(lines: &[String]) -> (r: Vec<String>)
    ensures
        text::texts(r@) == text::texts(lines@),
{
    let ghost all = text::texts(lines@);
    let mut r: Vec<String> = Vec::new();
    let mut i: usize = 0;
    assert(text::texts(r@) =~= all.take(0));
    while i < lines.len()
        invariant
            i <= lines@.len(),
            all == text::texts(lines@),
            text::texts(r@) == all.take(i as int),
        decreases lines@.len() - i,
    {
        let ghost was = text::texts(r@);
        let line = lines[i].clone();
        r.push(line);
        assert(text::texts(r@) =~= was.push(line@));
        assert(all.take(i + 1) =~= all.take(i as int).push(all[i as int]));
        i = i + 1;
    }
    assert(all.take(all.len() as int) =~= all);
    r
}

/// The lines of a file and what has been said of each.
#[verifier::ext_equal]
pub struct ReviewModel {
    pub lines: Seq<Seq<char>>,
    pub states: Seq<LineState>,
}

/// The lines of a file and what has been said of each.
#[derive(Debug)]
pub struct FileReview {
    pub lines: Vec<String>,
    pub states: Vec<LineState>,
}

impl View for FileReview {
    type V = ReviewModel;

    open spec fn view(&self) -> ReviewModel {
        ReviewModel { lines: text::texts(self.lines@), states: self.states@ }
    }
}

impl Clone for FileReview {
    fn clone(&self) -> (r: Self)
        ensures
            r@ == self@,
    {
        FileReview {
            lines: copy_lines(self.lines.as_slice()),
            states: copy_states(self.states.as_slice()),
        }
    }
}

/// How many of the states are `state`.
pub open spec fn count(states: Seq<LineState>, state: LineState) -> nat
    decreases states.len(),
{
    if states.len() == 0 {
        0
    } else {
        count(states.drop_last(), state) + (if states.last() == state {
            1nat
        } else {
            0nat
        })
    }
}

/// How many lines there are in each state.
#[derive(Clone, Copy, Debug, PartialEq, Eq, Structural)]
pub struct ReviewStats {
    pub total: usize,
    pub accepted: usize,
    pub rejected: usize,
    pub unreviewed: usize,
}

impl Default for ReviewStats {
    fn default() -> (r: ReviewStats)
        ensures
            r == (ReviewStats { total: 0, accepted: 0, rejected: 0, unreviewed: 0 }),
    {
        ReviewStats { total: 0, accepted: 0, rejected: 0, unreviewed: 0 }
    }
}

/// The smaller of two numbers.
pub open spec fn at_most(n: int, limit: int) -> int {
    if n <= limit {
        n
    } else {
        limit
    }
}

/// The share of reviewed lines in percent, in whole numbers; all of them where there is no
/// line. A hundredfold that no machine number holds counts as the largest one, and of the
/// share the lower sixteen bits are shown.
pub open spec fn percent(stats: ReviewStats) -> int {
    if stats.total == 0 {
        100
    } else {
        (at_most((stats.accepted + stats.rejected) * 100, usize::MAX as int) / stats.total as int)
            % 0x10000
    }
}

/// The sum of two numbers of lines, as far as a machine number holds it.
pub open spec fn capped_sum(a: usize, b: usize) -> usize {
    at_most(a + b, usize::MAX as int) as usize
}

/// The numbers for two files together.
pub open spec fn sum_of(a: ReviewStats, b: ReviewStats) -> ReviewStats {
    ReviewStats {
        total: capped_sum(a.total, b.total),
        accepted: capped_sum(a.accepted, b.accepted),
        rejected: capped_sum(a.rejected, b.rejected),
        unreviewed: capped_sum(a.unreviewed, b.unreviewed),
    }
}

impl ReviewStats {
    /// The numbers for two files together.
    pub fn plus(self, other: ReviewStats) -> (r: ReviewStats)
        ensures
            r == sum_of(self, other),
    {
        ReviewStats {
            total: self.total.saturating_add(other.total),
            accepted: self.accepted.saturating_add(other.accepted),
            rejected: self.rejected.saturating_add(other.rejected),
            unreviewed: self.unreviewed.saturating_add(other.unreviewed),
        }
    }

    /// How many lines have been reviewed.
    pub fn reviewed(self) -> (r: usize)
        requires
            self.accepted + self.rejected <= usize::MAX,
        ensures
            r == self.accepted + self.rejected,
    {
        self.accepted + self.rejected
    }

    /// The share of reviewed lines in percent.
    pub fn reviewed_percent(self) -> (r: u16)
        requires
            self.accepted + self.rejected <= usize::MAX,
        ensures
            r == percent(self),
            self.total == self.accepted + self.rejected + self.unreviewed ==> r <= 100,
    {
        let hundredfold: usize = match self.reviewed().checked_mul(100) {
            Some(n) => n,
            None => usize::MAX,
        };
        match hundredfold.checked_div(self.total) {
            Some(share) => {
                assert(share as u16 == share % 0x10000) by (bit_vector);
                proof {
                    if self.total == self.accepted + self.rejected + self.unreviewed {
                        lemma_share(hundredfold as int, self.total as int);
                    }
                }
                #[verifier::truncate]
                (share as u16)
            },
            None => 100,
        }
    }
}

proof fn lemma_share(hundredfold: int, total: int)
    by (nonlinear_arith)
    requires
        total > 0,
        0 <= hundredfold <= total * 100,
    ensures
        hundredfold / total <= 100,
        hundredfold / total >= 0,
{
}

/// The numbers for some states.
pub open spec fn stats_of(states: Seq<LineState>) -> ReviewStats {
    ReviewStats {
        total: states.len() as usize,
        accepted: count(states, LineState::Accepted) as usize,
        rejected: count(states, LineState::Rejected) as usize,
        unreviewed: count(states, LineState::Unreviewed) as usize,
    }
}

/// Every line is in exactly one state.
pub proof fn counts_add_up(states: Seq<LineState>)
    ensures
        count(states, LineState::Accepted) + count(states, LineState::Rejected) + count(
            states,
            LineState::Unreviewed,
        ) == states.len(),
    decreases states.len(),
{
    if states.len() > 0 {
        counts_add_up(states.drop_last());
    }
}

/// Counts the lines in each state.
pub fn stats_for_states(states: &[LineState]) -> (r: ReviewStats)
    ensures
        r == stats_of(states@),
        r.total == states@.len(),
        r.accepted == count(states@, LineState::Accepted),
        r.rejected == count(states@, LineState::Rejected),
        r.unreviewed == count(states@, LineState::Unreviewed),
        r.total == r.accepted + r.rejected + r.unreviewed,
{
    let mut stats = ReviewStats {
        total: states.len(),
        accepted: 0,
        rejected: 0,
        unreviewed: 0,
    };
    let mut i: usize = 0;
    while i < states.len()
        invariant
            i <= states@.len(),
            stats.total == states@.len(),
            stats.accepted == count(states@.take(i as int), LineState::Accepted),
            stats.rejected == count(states@.take(i as int), LineState::Rejected),
            stats.unreviewed == count(states@.take(i as int), LineState::Unreviewed),
        decreases states@.len() - i,
    {
        proof {
            counts_add_up(states@.take(i as int));
            assert(states@.take(i + 1).drop_last() =~= states@.take(i as int));
            assert(states@.take(i + 1).last() == states@[i as int]);
        }
        match states[i] {
            LineState::Unreviewed => {
                stats.unreviewed = stats.unreviewed + 1;
            },
            LineState::Accepted => {
                stats.accepted = stats.accepted + 1;
            },
            LineState::Rejected => {
                stats.rejected = stats.rejected + 1;
            },
        }
        i = i + 1;
    }
    proof {
        assert(states@.take(states@.len() as int) =~= states@);
        counts_add_up(states@);
    }
    stats
}

/// The lines of a file's content.
pub fn split_lines(content: &str) -> (r: Vec<String>)
    ensures
        text::texts(r@) == text::feed_lines(content@),
{
    if content.is_empty() {
        let r: Vec<String> = Vec::new();
        assert(text::texts(r@) =~= text::feed_lines(content@));
        return r;
    }
    text::lines_by_feed(content)
}

/// The state at an index; lines beyond the last state have not been reviewed.
pub open spec fn state_at(states: Seq<LineState>, i: int) -> LineState {
    if 0 <= i < states.len() {
        states[i]
    } else {
        LineState::Unreviewed
    }
}

/// The states of the new lines: an equal line keeps its state, an inserted one starts
/// without review.
pub open spec fn carried(changes: Seq<LineChange>, previous: Seq<LineState>) -> Seq<LineState>
    decreases changes.len(),
{
    if changes.len() == 0 {
        Seq::empty()
    } else {
        let front = changes.drop_last();
        let before = carried(front, previous);
        match changes.last() {
            LineChange::Delete => before,
            LineChange::Equal => before.push(state_at(previous, diff::old_lines(front) as int)),
            LineChange::Insert => before.push(LineState::Unreviewed),
        }
    }
}

/// As many states as there are lines: lines without a state have not been reviewed, states
/// without a line are dropped.
pub open spec fn fitted(states: Seq<LineState>, n: nat) -> Seq<LineState> {
    Seq::new(n, |i: int| state_at(states, i))
}

/// The states of the current lines, given what was said of the previous ones.
pub open spec fn reconciled(
    previous_lines: Seq<Seq<char>>,
    previous_states: Seq<LineState>,
    current_lines: Seq<Seq<char>>,
) -> Seq<LineState> {
    if previous_lines.len() == 0 {
        fitted(Seq::empty(), current_lines.len())
    } else {
        fitted(
            carried(diff::line_diff(previous_lines, current_lines), previous_states),
            current_lines.len(),
        )
    }
}

/// Whether the changes between two lists of lines can be found.
pub open spec fn can_reconcile(
    previous_lines: Seq<Seq<char>>,
    current_lines: Seq<Seq<char>>,
) -> bool {
    previous_lines.len() == 0 || diff::can_diff(previous_lines, current_lines)
}

/// The states of `line_count` lines after the given changes.
pub fn apply_changes(
    changes: &[LineChange],
    previous_states: &[LineState],
    line_count: usize,
) -> (r: Vec<LineState>)
    ensures
        r@ == fitted(carried(changes@, previous_states@), line_count as nat),
{
    let mut states: Vec<LineState> = Vec::new();
    let mut old_index: usize = 0;
    let mut i: usize = 0;
    while i < changes.len()
        invariant
            i <= changes@.len(),
            old_index <= i,
            old_index == diff::old_lines(changes@.take(i as int)),
            states@ == carried(changes@.take(i as int), previous_states@),
        decreases changes@.len() - i,
    {
        assert(changes@.take(i + 1).drop_last() =~= changes@.take(i as int));
        assert(changes@.take(i + 1).last() == changes@[i as int]);
        match changes[i] {
            LineChange::Delete => {
                old_index = old_index + 1;
            },
            LineChange::Equal => {
                let state = if old_index < previous_states.len() {
                    previous_states[old_index]
                } else {
                    LineState::Unreviewed
                };
                states.push(state);
                old_index = old_index + 1;
            },
            LineChange::Insert => {
                states.push(LineState::Unreviewed);
            },
        }
        i = i + 1;
    }
    assert(changes@.take(changes@.len() as int) =~= changes@);
    let ghost all = states@;
    while states.len() < line_count
        invariant
            states@.len() <= line_count || states@ == all,
            forall|k: int| 0 <= k < states@.len() ==> states@[k] == state_at(all, k),
            states@.len() >= all.len(),
        decreases line_count - states@.len(),
    {
        states.push(LineState::Unreviewed);
    }
    states.truncate(line_count);
    assert(states@ =~= fitted(all, line_count as nat));
    states
}

/// A state that is carried is the one of the line that it comes from.
proof fn lemma_carried(changes: Seq<LineChange>, previous: Seq<LineState>)
    ensures
        carried(changes, previous).len() == diff::new_lines(changes),
        diff::origins(changes).len() == diff::new_lines(changes),
        forall|i: int|
            0 <= i < carried(changes, previous).len() ==> #[trigger] carried(changes, previous)[i]
                == state_at(previous, diff::origins(changes)[i]),
    decreases changes.len(),
{
    if changes.len() > 0 {
        lemma_carried(changes.drop_last(), previous);
    }
}

/// Where nothing is deleted, no state that says something is lost.
proof fn lemma_carried_all(changes: Seq<LineChange>, previous: Seq<LineState>)
    requires
        forall|k: int| 0 <= k < changes.len() ==> changes[k] != LineChange::Delete,
    ensures
        said(carried(changes, previous)) == said(fitted(previous, diff::old_lines(changes))),
    decreases changes.len(),
{
    reveal(Seq::filter);
    if changes.len() > 0 {
        let front = changes.drop_last();
        lemma_carried_all(front, previous);
        let before = carried(front, previous);
        let n = diff::old_lines(front);
        assert(changes[changes.len() - 1] != LineChange::Delete);
        if changes.last() == LineChange::Equal {
            let state = state_at(previous, n as int);
            assert(carried(changes, previous).drop_last() =~= before);
            assert(fitted(previous, n + 1).drop_last() =~= fitted(previous, n));
            assert(fitted(previous, n + 1).last() == state);
        } else {
            assert(carried(changes, previous).drop_last() =~= before);
        }
    } else {
        assert(fitted(previous, 0) =~= Seq::empty());
    }
}

/// The states that say something, in their order.
pub open spec fn said(states: Seq<LineState>) -> Seq<LineState> {
    states.filter(|s: LineState| s != LineState::Unreviewed)
}

/// Whether `m` says of each current line which previous line it comes from: one with the same
/// text, whose state it has. A line that comes from none, for which `m` says -1, has not been
/// reviewed. Lines keep their order, and no two come from the same line.
pub open spec fn come_from(
    previous_lines: Seq<Seq<char>>,
    previous_states: Seq<LineState>,
    current_lines: Seq<Seq<char>>,
    states: Seq<LineState>,
    m: Seq<int>,
) -> bool {
    &&& m.len() == current_lines.len() == states.len()
    &&& forall|i: int|
        0 <= i < m.len() ==> -1 <= #[trigger] m[i] < previous_lines.len() && states[i] == state_at(
            previous_states,
            m[i],
        ) && (m[i] >= 0 ==> previous_lines[m[i]] == current_lines[i])
    &&& forall|i: int, j: int|
        0 <= i < j < m.len() && m[j] >= 0 ==> #[trigger] m[i] < #[trigger] m[j]
}

/// Whether every state comes from a previous line, in order.
pub open spec fn states_kept(
    previous_lines: Seq<Seq<char>>,
    previous_states: Seq<LineState>,
    current_lines: Seq<Seq<char>>,
    states: Seq<LineState>,
) -> bool {
    exists|m: Seq<int>| #[trigger]
        come_from(previous_lines, previous_states, current_lines, states, m)
}

/// Whether one of the lines has this text and this state.
pub open spec fn has_state(
    lines: Seq<Seq<char>>,
    states: Seq<LineState>,
    line: Seq<char>,
    state: LineState,
) -> bool {
    exists|j: int|
        0 <= j < lines.len() && #[trigger] lines[j] == line && state_at(states, j) == state
}

/// A line that is accepted or rejected was there before, with the same text and that state.
pub proof fn marked_lines_were_there(
    previous_lines: Seq<Seq<char>>,
    previous_states: Seq<LineState>,
    current_lines: Seq<Seq<char>>,
    states: Seq<LineState>,
    i: int,
)
    requires
        states_kept(previous_lines, previous_states, current_lines, states),
        0 <= i < states.len(),
        states[i] != LineState::Unreviewed,
    ensures
        has_state(previous_lines, previous_states, current_lines[i], states[i]),
{
    let m = choose|m: Seq<int>| #[trigger]
        come_from(previous_lines, previous_states, current_lines, states, m);
    assert(m[i] >= 0);
    assert(previous_lines[m[i]] == current_lines[i]);
}

/// Gives every current line a state, from what was said of the previous lines.
///
/// A line is accepted or rejected only if it comes from a previous line with the same text
/// that was; lines keep their order, and no two come from the same line. Where lines were only
/// put in, nothing that was said is lost; where lines were only taken out, each line that is
/// left has the state of a previous line with the same text; and where the lines have not
/// changed, the states have not either. Of the lines that the diff pairs, each has the state
/// of the one that it is paired with, and a line that the diff inserts has not been reviewed.
pub fn reconcile_states(
    previous_lines: &[String],
    previous_states: &[LineState],
    current_lines: &[String],
) -> (r: Vec<LineState>)
    requires
        can_reconcile(text::texts(previous_lines@), text::texts(current_lines@)),
    ensures
        r@ == reconciled(
            text::texts(previous_lines@),
            previous_states@,
            text::texts(current_lines@),
        ),
        r@.len() == current_lines@.len(),
        states_kept(
            text::texts(previous_lines@),
            previous_states@,
            text::texts(current_lines@),
            r@,
        ),
        diff::within(text::texts(previous_lines@), text::texts(current_lines@)) ==> said(r@)
            == said(fitted(previous_states@, previous_lines@.len())),
        diff::within(text::texts(current_lines@), text::texts(previous_lines@)) ==> forall|i: int|
            0 <= i < r@.len() ==> has_state(
                text::texts(previous_lines@),
                previous_states@,
                text::texts(current_lines@)[i],
                #[trigger] r@[i],
            ),
        text::texts(previous_lines@) == text::texts(current_lines@) ==> r@ == fitted(
            previous_states@,
            current_lines@.len(),
        ),
        previous_lines@.len() == 0 ==> forall|i: int|
            0 <= i < r@.len() ==> r@[i] == LineState::Unreviewed,
        previous_lines@.len() > 0 ==> ({
            let changes = diff::line_diff(
                text::texts(previous_lines@),
                text::texts(current_lines@),
            );
            &&& diff::leads_to(text::texts(previous_lines@), text::texts(current_lines@), changes)
            &&& forall|k: int|
                0 <= k < changes.len() && #[trigger] changes[k] == LineChange::Equal ==> r@[
                changes.take(k).filter(|c: LineChange| c != LineChange::Delete).len() as int]
                    == state_at(
                    previous_states@,
                    changes.take(k).filter(|c: LineChange| c != LineChange::Insert).len() as int,
                )
            &&& forall|k: int|
                0 <= k < changes.len() && #[trigger] changes[k] == LineChange::Insert ==> r@[
                changes.take(k).filter(|c: LineChange| c != LineChange::Delete).len() as int]
                    == LineState::Unreviewed
        }),
{
    let ghost old_texts = text::texts(previous_lines@);
    let ghost new_texts = text::texts(current_lines@);
    if previous_lines.len() == 0 {
        let changes: Vec<LineChange> = Vec::new();
        let none: Vec<LineState> = Vec::new();
        let states = apply_changes(changes.as_slice(), none.as_slice(), current_lines.len());
        proof {
            assert(carried(changes@, none@) =~= Seq::empty());
            let m = Seq::new(new_texts.len(), |i: int| -1int);
            assert(come_from(old_texts, previous_states@, new_texts, states@, m));
            lemma_said_fitted(Seq::empty(), new_texts.len());
            assert(fitted(previous_states@, 0) =~= Seq::empty());
            if diff::within(new_texts, old_texts) {
                let m = choose|m: Seq<int>| #[trigger] diff::finds(new_texts, old_texts, m);
                assert(m.len() > 0 ==> 0 <= m[0] < old_texts.len());
            }
        }
        return states;
    }
    let changes = diff::line_changes(previous_lines, current_lines);
    let states = apply_changes(changes.as_slice(), previous_states, current_lines.len());
    proof {
        let m = diff::origins(changes@);
        lemma_carried(changes@, previous_states@);
        diff::lemma_origins(changes@);
        assert(states@ =~= carried(changes@, previous_states@));
        assert forall|i: int| 0 <= i < m.len() && #[trigger] m[i] >= 0 implies old_texts[m[i]]
            == new_texts[i] by {
            let k = diff::lemma_origin_change(changes@, i);
        }
        assert(come_from(old_texts, previous_states@, new_texts, states@, m));
        if diff::within(old_texts, new_texts) {
            lemma_carried_all(changes@, previous_states@);
        }
        if diff::within(new_texts, old_texts) {
            diff::lemma_all_have_origins(changes@);
            assert forall|i: int| 0 <= i < states@.len() implies has_state(
                old_texts,
                previous_states@,
                new_texts[i],
                #[trigger] states@[i],
            ) by {
                assert(m[i] >= 0);
                assert(old_texts[m[i]] == new_texts[i]);
            }
        }
        if old_texts == new_texts {
            diff::lemma_within_itself(old_texts);
            lemma_all_equal(changes@);
        }
        assert forall|k: int| 0 <= k < changes@.len() implies ({
            let from = changes@.take(k).filter(|c: LineChange| c != LineChange::Insert).len();
            let to = changes@.take(k).filter(|c: LineChange| c != LineChange::Delete).len();
            &&& #[trigger] changes@[k] == LineChange::Equal ==> states@[to as int] == state_at(
                previous_states@,
                from as int,
            )
            &&& changes@[k] == LineChange::Insert ==> states@[to as int] == LineState::Unreviewed
        }) by {
            review_laws::paired_lines_keep_their_states(
                old_texts,
                previous_states@,
                new_texts,
                k,
            );
        }
    }
    states
}

/// Where nothing is deleted and nothing inserted, each line comes from the one in its place.
proof fn lemma_all_equal(changes: Seq<LineChange>)
    requires
        forall|k: int| 0 <= k < changes.len() ==> changes[k] != LineChange::Delete,
        forall|k: int| 0 <= k < changes.len() ==> changes[k] != LineChange::Insert,
    ensures
        diff::origins(changes).len() == diff::old_lines(changes),
        forall|i: int|
            0 <= i < diff::origins(changes).len() ==> #[trigger] diff::origins(changes)[i] == i,
    decreases changes.len(),
{
    if changes.len() > 0 {
        assert(changes[changes.len() - 1] == LineChange::Equal);
        lemma_all_equal(changes.drop_last());
    }
}

/// States without a line after them say nothing more.
proof fn lemma_said_fitted(states: Seq<LineState>, n: nat)
    requires
        states.len() <= n,
    ensures
        said(fitted(states, n)) == said(states),
    decreases n - states.len(),
{
    if states.len() == n {
        assert(fitted(states, n) =~= states);
    } else {
        let m = (n - 1) as nat;
        lemma_said_fitted(states, m);
        reveal(Seq::filter);
        assert(fitted(states, n).drop_last() =~= fitted(states, m));
        assert(fitted(states, n).last() == LineState::Unreviewed);
    }
}

} // verus!
