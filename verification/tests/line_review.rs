use debth::diff::diff_fits;
use debth::diff::distinct_at_most;
use debth::review::decode_state_codes;
use debth::review::encode_state_codes;
use debth::review::reconcile_states;
use debth::review::split_lines;
use debth::review::stats_for_states;
use debth::review::LineState;
use debth::review::ReviewStats;
use debth::store::PersistedFileReview;

fn owned(lines: &[&str]) -> Vec<String> {
    lines.iter().map(|line| line.to_string()).collect()
}

#[test]
fn inserted_lines_start_unreviewed_and_existing_lines_keep_state() {
    let previous: Vec<String> = vec!["fn main() {".into(), "}".into()];
    let previous_states = vec![LineState::Accepted, LineState::Rejected];
    let current: Vec<String> = vec![
        "fn main() {".into(),
        "    println!(\"hi\");".into(),
        "}".into(),
    ];

    let states = reconcile_states(&previous, &previous_states, &current);

    assert_eq!(
        states,
        vec![
            LineState::Accepted,
            LineState::Unreviewed,
            LineState::Rejected
        ]
    );
}

#[test]
fn changed_lines_become_unreviewed() {
    let previous: Vec<String> = vec!["let x = 1;".into()];
    let previous_states = vec![LineState::Accepted];
    let current: Vec<String> = vec!["let x = 2;".into()];

    assert_eq!(
        reconcile_states(&previous, &previous_states, &current),
        vec![LineState::Unreviewed]
    );
}

#[test]
fn state_codes_round_trip_compactly() {
    let states = vec![
        LineState::Unreviewed,
        LineState::Accepted,
        LineState::Rejected,
    ];

    assert_eq!(encode_state_codes(&states), "uar");
    assert_eq!(decode_state_codes("uar"), states);
}

#[test]
fn persisted_review_supports_legacy_state_array() {
    let persisted = PersistedFileReview {
        lines: Vec::new(),
        state_codes: String::new(),
        states: vec![LineState::Accepted, LineState::Rejected],
    };

    assert_eq!(
        persisted.states(),
        vec![LineState::Accepted, LineState::Rejected]
    );
}

#[test]
fn persisted_review_prefers_compact_state_codes() {
    let persisted = PersistedFileReview {
        lines: Vec::new(),
        state_codes: "ra".to_string(),
        states: vec![LineState::Accepted, LineState::Accepted],
    };

    assert_eq!(
        persisted.states(),
        vec![LineState::Rejected, LineState::Accepted]
    );
}

#[test]
fn unknown_codes_mean_unreviewed() {
    assert_eq!(
        decode_state_codes("AR?"),
        vec![LineState::Accepted, LineState::Rejected, LineState::Unreviewed]
    );
    assert_eq!(LineState::default(), LineState::Unreviewed);
}

#[test]
fn unchanged_lines_keep_their_states() {
    let lines = owned(&["a", "", "a", "b\r"]);
    let states = vec![
        LineState::Accepted,
        LineState::Rejected,
        LineState::Unreviewed,
        LineState::Accepted,
    ];
    assert_eq!(reconcile_states(&lines, &states, &lines), states);
}

#[test]
fn empty_last_line_keeps_its_state() {
    let lines = owned(&["a", ""]);
    let states = vec![LineState::Accepted, LineState::Accepted];
    assert_eq!(reconcile_states(&lines, &states, &lines), states);
    assert_eq!(
        reconcile_states(&lines, &states, &owned(&["a", "", "b"])),
        vec![LineState::Accepted, LineState::Accepted, LineState::Unreviewed]
    );
}

#[test]
fn carriage_return_inside_a_line_ends_no_line() {
    let previous = owned(&["x\ry", "b"]);
    let states = vec![LineState::Accepted, LineState::Rejected];
    assert_eq!(
        reconcile_states(&previous, &states, &owned(&["x\ry", "new", "b"])),
        vec![LineState::Accepted, LineState::Unreviewed, LineState::Rejected]
    );
}

#[test]
fn deleted_lines_take_their_states_along() {
    let previous = owned(&["a", "b", "c", "d"]);
    let states = vec![
        LineState::Accepted,
        LineState::Rejected,
        LineState::Accepted,
        LineState::Rejected,
    ];
    assert_eq!(
        reconcile_states(&previous, &states, &owned(&["a", "c", "d"])),
        vec![LineState::Accepted, LineState::Accepted, LineState::Rejected]
    );
}

#[test]
fn files_without_a_record_are_unreviewed() {
    let none: Vec<String> = Vec::new();
    assert_eq!(
        reconcile_states(&none, &[LineState::Accepted], &owned(&["a", "b"])),
        vec![LineState::Unreviewed, LineState::Unreviewed]
    );
    assert_eq!(reconcile_states(&owned(&["a"]), &[LineState::Accepted], &none), vec![]);
}

#[test]
fn missing_states_mean_unreviewed() {
    let lines = owned(&["a", "b", "c"]);
    assert_eq!(
        reconcile_states(&lines, &[LineState::Rejected], &lines),
        vec![LineState::Rejected, LineState::Unreviewed, LineState::Unreviewed]
    );
}

#[test]
fn lines_end_at_line_feeds() {
    assert_eq!(split_lines(""), owned(&[]));
    assert_eq!(split_lines("a\r\nb\n\nc"), owned(&["a\r", "b", "", "c"]));
    assert_eq!(split_lines("a\n"), owned(&["a"]));
    assert_eq!(split_lines("\n"), owned(&[""]));
}

#[test]
fn every_line_is_counted_once() {
    let stats = stats_for_states(&[
        LineState::Accepted,
        LineState::Rejected,
        LineState::Accepted,
        LineState::Unreviewed,
    ]);
    assert_eq!(stats, ReviewStats { total: 4, accepted: 2, rejected: 1, unreviewed: 1 });
    assert_eq!(stats.reviewed(), 3);
    assert_eq!(stats.reviewed_percent(), 75);
}

#[test]
fn share_is_rounded_down_and_full_without_lines() {
    assert_eq!(ReviewStats::default().reviewed_percent(), 100);
    let third = ReviewStats { total: 3, accepted: 2, rejected: 0, unreviewed: 1 };
    assert_eq!(third.reviewed_percent(), 66);
    assert_eq!(third.plus(third), ReviewStats { total: 6, accepted: 4, rejected: 0, unreviewed: 2 });
}

#[test]
fn lines_put_in_lose_nothing_that_was_said() {
    let previous = owned(&["a", "b", "a", "c"]);
    let states = vec![
        LineState::Accepted,
        LineState::Rejected,
        LineState::Rejected,
        LineState::Accepted,
    ];
    let current = owned(&["a", "b", "a", "new", "a", "c"]);
    let kept: Vec<LineState> = reconcile_states(&previous, &states, &current)
        .into_iter()
        .filter(|state| *state != LineState::Unreviewed)
        .collect();
    assert_eq!(kept, states);
}

#[test]
fn line_put_in_at_the_end_leaves_the_others_their_states() {
    assert_eq!(
        reconcile_states(&owned(&["a"]), &[LineState::Accepted], &owned(&["a", "b"])),
        vec![LineState::Accepted, LineState::Unreviewed]
    );
    let states = vec![LineState::Accepted, LineState::Rejected];
    assert_eq!(
        reconcile_states(&owned(&["a", "b"]), &states, &owned(&["0", "a", "x", "y", "b", "c"])),
        vec![
            LineState::Unreviewed,
            LineState::Accepted,
            LineState::Unreviewed,
            LineState::Unreviewed,
            LineState::Rejected,
            LineState::Unreviewed,
        ]
    );
}

#[test]
fn large_files_are_compared_too() {
    let previous: Vec<String> = (0..300).map(|i| format!("line {i}")).collect();
    let states = vec![LineState::Accepted; 300];
    let mut current = previous.clone();
    current.insert(150, "new".to_string());
    let result = reconcile_states(&previous, &states, &current);
    assert_eq!(result.len(), 301);
    assert_eq!(result[150], LineState::Unreviewed);
    assert!(result.iter().enumerate().all(|(i, s)| i == 150 || *s == LineState::Accepted));
}

fn all_lists(letters: &[&str], longest: usize) -> Vec<Vec<String>> {
    let mut lists: Vec<Vec<String>> = vec![Vec::new()];
    let mut from = 0;
    for _ in 0..longest {
        let to = lists.len();
        for i in from..to {
            for letter in letters {
                let mut longer = lists[i].clone();
                longer.push(letter.to_string());
                lists.push(longer);
            }
        }
        from = to;
    }
    lists
}

fn lies_within(short: &[String], long: &[String]) -> bool {
    let mut rest = long.iter();
    short.iter().all(|line| rest.any(|other| other == line))
}

#[test]
fn nothing_said_is_lost_wherever_lines_are_put_in() {
    for short in all_lists(&["a", "b", ""], 4) {
        let states: Vec<LineState> = (0..short.len())
            .map(|i| if i % 2 == 0 { LineState::Accepted } else { LineState::Rejected })
            .collect();
        for long in all_lists(&["a", "b", ""], 6) {
            if !lies_within(&short, &long) {
                continue;
            }
            let grown: Vec<LineState> = reconcile_states(&short, &states, &long)
                .into_iter()
                .filter(|state| *state != LineState::Unreviewed)
                .collect();
            assert_eq!(grown, states, "{short:?} {long:?}");
            let marked = vec![LineState::Accepted; long.len()];
            let shrunk = reconcile_states(&long, &marked, &short);
            assert!(shrunk.iter().all(|state| *state == LineState::Accepted));
        }
    }
}

#[test]
fn large_files_lose_nothing_either() {
    let previous: Vec<String> = (0..400).map(|i| format!("{}", i % 7)).collect();
    let states: Vec<LineState> = (0..400)
        .map(|i| if i % 3 == 0 { LineState::Accepted } else { LineState::Rejected })
        .collect();
    let mut current = Vec::new();
    for (i, line) in previous.iter().enumerate() {
        current.push(line.clone());
        if i % 11 == 5 {
            current.push(format!("{}", (i * 5) % 7));
        }
    }
    let kept: Vec<LineState> = reconcile_states(&previous, &states, &current)
        .into_iter()
        .filter(|state| *state != LineState::Unreviewed)
        .collect();
    assert_eq!(kept, states);
}

#[test]
fn only_different_lines_are_numbered() {
    let old = owned(&["a", "b", "a", ""]);
    let new = owned(&["b", "c", "b"]);
    assert!(distinct_at_most(&old, &new, 4));
    assert!(!distinct_at_most(&old, &new, 3));
    assert!(!distinct_at_most(&old, &[], 2));
    assert!(distinct_at_most(&old, &[], 3));
    assert!(distinct_at_most(&[], &[], 0));
    assert!(!distinct_at_most(&[], &new, 0));
    assert!(diff_fits(&old, &new));
}
