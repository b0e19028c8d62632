use sasse::queue::model::NothingToBisect;
use sasse::queue::{bisect, CandidateState, EntryId, EntryState, Outcome, Verdict};

#[test]
fn an_empty_candidate_cannot_be_bisected() {
    assert!(bisect(&[]).is_err());
    assert!(matches!(bisect(&[]), Err(NothingToBisect)));
}

#[test]
fn a_batch_of_one_names_its_culprit() {
    assert_eq!(bisect(&[42]).unwrap(), Verdict::Culprit(42));
}

#[test]
fn bisection_preserves_merge_order() {
    let Verdict::Bisect { left, right } = bisect(&[1, 2, 3, 4, 5]).unwrap() else {
        panic!("expected a split");
    };
    assert_eq!(left, vec![1, 2]);
    assert_eq!(right, vec![3, 4, 5]);
    let mut rejoined = left;
    rejoined.extend(right);
    assert_eq!(rejoined, vec![1, 2, 3, 4, 5]);
}

fn rounds_to_isolate(entries: &[EntryId]) -> u32 {
    match bisect(entries).unwrap() {
        Verdict::Culprit(_) => 1,
        Verdict::Bisect { left, .. } => 1 + rounds_to_isolate(&left),
    }
}

/// Worst case is every entry failing, which is the serial case plus the splits.
/// The point of the batch is that the common case is one run.
#[test]
fn bisection_terminates_and_stays_logarithmic() {
    for n in [1usize, 2, 4, 8, 16, 64] {
        let entries: Vec<EntryId> = (1..=n as i64).collect();
        let expected = n.ilog2() + 1;
        assert_eq!(
            rounds_to_isolate(&entries),
            expected,
            "isolating one culprit in a batch of {n}"
        );
    }
}

const ALL: [Outcome; 4] = [
    Outcome::Pending,
    Outcome::Passed,
    Outcome::Culprit,
    Outcome::Skipped,
];

#[test]
fn terminal_outcomes_have_no_exits() {
    for from in ALL.iter().copied().filter(|o| o.is_terminal()) {
        for to in ALL {
            assert!(
                !from.can_transition_to(to),
                "{from:?} should be terminal but allows {to:?}"
            );
        }
    }
}

#[test]
fn every_verdict_is_reachable_from_pending() {
    for to in ALL.iter().copied().filter(|o| o.is_terminal()) {
        assert!(
            Outcome::Pending.can_transition_to(to),
            "pending should reach {to:?}"
        );
    }
}

/// The whole reason the skipped and culprit cases are distinguished.
#[test]
fn only_the_culprit_spends_a_retry_attempt() {
    for o in ALL {
        assert_eq!(
            o.burns_attempt(),
            o == Outcome::Culprit,
            "{o:?} disagrees about spending an attempt"
        );
    }
}

#[test]
fn a_skipped_entry_requeues_without_cost() {
    assert!(Outcome::Skipped.requeues());
    assert!(!Outcome::Skipped.burns_attempt());
}

#[test]
fn a_settled_entry_does_not_requeue() {
    assert!(!Outcome::Passed.requeues());
    assert!(!Outcome::Culprit.requeues());
}

#[test]
fn an_outcome_cannot_be_revised_once_reached() {
    assert!(Outcome::Skipped.transition_to(Outcome::Culprit).is_err());
}

#[test]
fn every_outcome_round_trips_through_its_text_form() {
    for o in ALL {
        assert_eq!(Outcome::parse(o.as_str()).unwrap(), o);
    }
    assert!(Outcome::parse("nonsense").is_none());
}

const ENTRY_STATES: [EntryState; 4] = [
    EntryState::Queued,
    EntryState::Batched,
    EntryState::Merged,
    EntryState::Evicted,
];

const CANDIDATE_STATES: [CandidateState; 5] = [
    CandidateState::Building,
    CandidateState::Testing,
    CandidateState::Passed,
    CandidateState::Failed,
    CandidateState::Superseded,
];

#[test]
fn entry_terminal_states_have_no_exits() {
    for from in ENTRY_STATES.iter().copied().filter(|s| s.is_terminal()) {
        for to in ENTRY_STATES {
            assert!(
                !from.can_transition_to(to),
                "{from:?} should be terminal but allows {to:?}"
            );
        }
    }
}

#[test]
fn candidate_terminal_states_have_no_exits() {
    for from in CANDIDATE_STATES.iter().copied().filter(|s| s.is_terminal()) {
        for to in CANDIDATE_STATES {
            assert!(
                !from.can_transition_to(to),
                "{from:?} should be terminal but allows {to:?}"
            );
        }
    }
}

#[test]
fn no_state_transitions_to_itself() {
    for s in ENTRY_STATES {
        assert!(!s.can_transition_to(s), "entry {s:?} self-transitions");
    }
    for s in CANDIDATE_STATES {
        assert!(!s.can_transition_to(s), "candidate {s:?} self-transitions");
    }
}

#[test]
fn a_batched_entry_can_be_requeued_when_invalidated() {
    assert_eq!(
        EntryState::Batched
            .transition_to(EntryState::Queued)
            .unwrap(),
        EntryState::Queued
    );
}

#[test]
fn an_entry_cannot_merge_without_being_batched() {
    assert!(EntryState::Queued
        .transition_to(EntryState::Merged)
        .is_err());
}

/// Every state the database can hold must come back out as the same value, or a
/// status listing would fail on a row the schema considers valid.
#[test]
fn every_entry_state_round_trips_through_its_text_form() {
    for state in ENTRY_STATES {
        assert_eq!(EntryState::parse(state.as_str()).unwrap(), state);
    }
}

#[test]
fn every_candidate_state_round_trips_through_its_text_form() {
    for state in CANDIDATE_STATES {
        assert_eq!(CandidateState::parse(state.as_str()).unwrap(), state);
    }
}

#[test]
fn an_unknown_state_is_rejected_rather_than_guessed() {
    assert!(EntryState::parse("nonsense").is_err());
    assert!(CandidateState::parse("nonsense").is_err());
}

#[test]
fn a_candidate_cannot_pass_without_being_tested() {
    assert!(CandidateState::Building
        .transition_to(CandidateState::Passed)
        .is_err());
}
