//! What the rows of the queue accept, and the migrations under them.

use sasse::db::{accept, parse_stamp, pending, stamp};
use sasse::queue::ledger::Member;
use sasse::queue::store::{
    CandidateRow, EntryRow, LeaseRow, RunRow, Store, StoreError,
};
use sasse::queue::{CandidateState, EntryState, Outcome};
use sasse::time::Timestamp;

fn entry(id: i64, branch_sha: &str, state: EntryState) -> EntryRow {
    EntryRow {
        id,
        repo_path: "/repo".into(),
        base_branch: "main".into(),
        branch: "feat/x".into(),
        branch_sha: branch_sha.into(),
        state,
        attempts: 0,
        priority: 0,
        evict_reason: None,
        enqueued_at: String::new(),
        updated_at: String::new(),
    }
}

fn candidate(id: i64, candidate_sha: Option<&str>, state: CandidateState) -> CandidateRow {
    CandidateRow {
        id,
        repo_path: "/repo".into(),
        base_branch: "main".into(),
        base_sha: "base".into(),
        candidate_sha: candidate_sha.map(|s| s.to_string()),
        state,
        parent_id: None,
        created_at: String::new(),
        updated_at: String::new(),
    }
}

fn run(id: i64, candidate_id: i64) -> RunRow {
    RunRow {
        id,
        candidate_id,
        command: "x".into(),
        exit_code: None,
        log_path: None,
        tail: None,
        started_at: String::new(),
        finished_at: None,
    }
}

fn lease(base: &str) -> LeaseRow {
    LeaseRow {
        repo_path: "/repo".into(),
        base_branch: base.into(),
        holder_pid: 1,
        token: "t".into(),
        acquired_at: String::new(),
        renewed_at: String::new(),
        expires_at: String::new(),
    }
}

fn member(candidate_id: i64, entry_id: i64, position: i64, outcome: Outcome) -> Member {
    Member {
        candidate_id,
        entry_id,
        position,
        outcome,
    }
}

fn seed_candidate(store: &mut Store) -> i64 {
    let id = store.next_candidate_id().unwrap();
    store
        .insert_candidate(candidate(id, Some("cand"), CandidateState::Testing))
        .unwrap();
    id
}

fn seed_entry(store: &mut Store, branch_sha: &str) -> i64 {
    let id = store.next_entry_id().unwrap();
    store
        .insert_entry(entry(id, branch_sha, EntryState::Batched))
        .unwrap();
    id
}

/// A database takes the migrations it has not had, in order, and none of them
/// twice.
#[test]
fn migrating_is_idempotent() {
    let mut version = 0;
    for next in pending(version) {
        assert_eq!(next, version + 1);
        version = next;
    }
    let first = version;
    for next in pending(version) {
        version = next;
    }
    assert_eq!(version, first);
    assert!(pending(first).is_empty());
    assert!(pending(first + 1).is_empty());
}

#[test]
fn an_entry_state_outside_the_lifecycle_is_rejected() {
    assert!(
        EntryState::parse("nonsense").is_err(),
        "a row with an unknown state cannot be read"
    );
}

/// Nothing is tested or merged without a known candidate commit, so the commit
/// that passed is always the commit merged.
#[test]
fn a_candidate_cannot_be_tested_without_a_candidate_sha() {
    let mut store = Store::new();
    let refused = store.insert_candidate(candidate(1, None, CandidateState::Testing));
    assert_eq!(
        refused,
        Err(StoreError::NoCommit { id: 1 }),
        "a testing candidate must name its commit"
    );
    assert!(store.candidates().is_empty());
}

#[test]
fn the_same_branch_sha_cannot_be_queued_twice_while_live() {
    let mut store = Store::new();
    store.insert_entry(entry(1, "abc", EntryState::Queued)).unwrap();
    assert_eq!(
        store.insert_entry(entry(2, "abc", EntryState::Queued)),
        Err(StoreError::AlreadyLive {
            branch: "feat/x".into()
        })
    );
    assert_eq!(store.entries().len(), 1);
}

/// The same identity may appear again once the earlier attempt is history, so a
/// branch evicted for a flaky gate can be requeued.
#[test]
fn a_settled_entry_does_not_block_requeueing_the_same_sha() {
    let mut store = Store::new();
    store.insert_entry(entry(1, "abc", EntryState::Evicted)).unwrap();
    store.insert_entry(entry(2, "abc", EntryState::Queued)).unwrap();
}

#[test]
fn an_entry_joins_a_candidate_with_no_verdict_yet() {
    let mut store = Store::new();
    let at = Timestamp::new(0, 0).unwrap();
    let sha = sasse::git::Sha::parse(&"ab".repeat(20)).unwrap();
    store.enqueue("/repo", "main", "feat/x", &sha, &at).unwrap();
    let batch = store.select_batch("/repo", "main", 8).unwrap();
    let id = store
        .open_candidate("/repo", "main", &sha, &batch, None, &at)
        .unwrap();
    assert_eq!(store.members()[0].candidate_id, id);
    assert_eq!(store.members()[0].outcome.as_str(), "pending");
}

#[test]
fn an_outcome_outside_the_verdicts_is_rejected() {
    assert!(
        Outcome::parse("nonsense").is_none(),
        "a row with an unknown outcome cannot be read"
    );
}

/// The rows and the enum have to agree on the set of verdicts. If they drift, a
/// value legal in one becomes a runtime failure in the other.
#[test]
fn every_outcome_the_code_can_produce_is_accepted_by_the_schema() {
    let mut store = Store::new();
    let candidate_id = seed_candidate(&mut store);
    let outcomes = [
        Outcome::Pending,
        Outcome::Passed,
        Outcome::Culprit,
        Outcome::Skipped,
    ];

    for (position, outcome) in outcomes.iter().enumerate() {
        let entry_id = seed_entry(&mut store, &format!("sha{position}"));
        let read = Outcome::parse(outcome.as_str()).unwrap();
        store
            .insert_member(member(candidate_id, entry_id, position as i64, read))
            .unwrap_or_else(|e| panic!("the rows rejected outcome {outcome:?}: {e:?}"));
    }
}

/// A batch with a branch that conflicts with the base never produces a commit,
/// and is still genuinely failed.
#[test]
fn a_candidate_that_never_assembled_may_have_no_commit() {
    let mut store = Store::new();
    store
        .insert_candidate(candidate(1, None, CandidateState::Failed))
        .unwrap();
}

/// These are the states in which a commit was gated or landed, so the commit has
/// to be named.
#[test]
fn a_gated_or_landed_candidate_must_still_name_its_commit() {
    let mut store = Store::new();
    for state in [CandidateState::Testing, CandidateState::Passed] {
        let attempt = store.insert_candidate(candidate(1, None, state));
        assert!(attempt.is_err(), "{state:?} must name its commit");
    }
}

#[test]
fn references_to_candidate_survive_the_rebuild() {
    let mut store = Store::new();
    let candidate_id = seed_candidate(&mut store);
    let entry_id = seed_entry(&mut store, "abc");

    store
        .insert_member(member(candidate_id, entry_id, 0, Outcome::Pending))
        .unwrap();

    let dangling = store.insert_run(run(1, candidate_id + 9999));
    assert!(dangling.is_err(), "a run has to be of a candidate that is there");
}

#[test]
fn rows_that_do_not_fit_are_refused_one_by_one() {
    let mut store = Store::new();
    let candidate_id = seed_candidate(&mut store);
    let entry_id = seed_entry(&mut store, "abc");
    store
        .insert_member(member(candidate_id, entry_id, 0, Outcome::Pending))
        .unwrap();

    assert_eq!(
        store.insert_entry(entry(1, "def", EntryState::Queued)),
        Err(StoreError::OutOfOrder { id: 1 })
    );
    assert_eq!(
        store.insert_candidate(candidate(1, None, CandidateState::Building)),
        Err(StoreError::OutOfOrder { id: 1 })
    );
    assert_eq!(
        store.insert_member(member(candidate_id, entry_id, 1, Outcome::Pending)),
        Err(StoreError::RepeatedEntry { id: entry_id })
    );
    assert_eq!(
        store.insert_member(member(candidate_id, 99, 1, Outcome::Pending)),
        Err(StoreError::UnknownEntry { id: 99 })
    );
    assert_eq!(
        store.insert_member(member(99, entry_id, 1, Outcome::Pending)),
        Err(StoreError::UnknownCandidate { id: 99 })
    );
    assert_eq!(
        store.insert_run(run(1, 99)),
        Err(StoreError::UnknownCandidate { id: 99 })
    );
    store.insert_run(run(1, candidate_id)).unwrap();
    assert_eq!(
        store.insert_run(run(1, candidate_id)),
        Err(StoreError::OutOfOrder { id: 1 })
    );
    store.insert_lease(lease("main")).unwrap();
    store.insert_lease(lease("release")).unwrap();
    assert_eq!(store.insert_lease(lease("main")), Err(StoreError::AlreadyLeased));
    assert_eq!(store.leases().len(), 2);
    assert!(store.lease_on("/repo", "release").is_some());
    assert!(store.lease_on("/elsewhere", "main").is_none());
}

#[test]
fn a_stamp_is_written_in_utc_with_six_digits() {
    let at = Timestamp::new(1_700_000_000, 123_456_789).unwrap();
    assert_eq!(stamp(&at), "2023-11-14T22:13:20.123456Z");
    let back = parse_stamp(&stamp(&at)).unwrap();
    assert_eq!((back.secs(), back.nanos()), (1_700_000_000, 123_456_000));
    let why = parse_stamp("yesterday").unwrap_err().message();
    assert!(why.contains("yesterday"), "got {why:?}");
}

#[test]
fn a_migration_that_leaves_a_dangling_reference_is_refused() {
    assert!(accept(0).is_ok());
    let why = accept(2).unwrap_err().message();
    assert_eq!(
        why,
        "migrating left 2 row(s) with a dangling reference; rolled back"
    );
}
