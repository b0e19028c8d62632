//! What the queue selects, opens, settles and shows.

use sasse::git::Sha;
use sasse::queue::store::{Blame, Entry, EntryRow, Store, StoreError};
use sasse::queue::{CandidateState, EntryId, EntryState, Outcome};
use sasse::time::Timestamp;

const REPO: &str = "/repo";
const BASE: &str = "main";

fn sha(seed: u8) -> Sha {
    Sha::parse(&format!("{seed:02x}").repeat(20)).unwrap()
}

fn at(secs: i64) -> Timestamp {
    Timestamp::new(1_700_000_000 + secs, 0).unwrap()
}

fn queue(store: &mut Store, branch: &str, seed: u8, attempts: u32) -> EntryId {
    let id = store.next_entry_id().unwrap();
    store
        .insert_entry(EntryRow {
            id,
            repo_path: REPO.into(),
            base_branch: BASE.into(),
            branch: branch.into(),
            branch_sha: sha(seed).as_str().into(),
            state: EntryState::Queued,
            attempts,
            priority: 0,
            evict_reason: None,
            enqueued_at: at(0).to_rfc3339(),
            updated_at: at(0).to_rfc3339(),
        })
        .unwrap();
    id
}

fn branches(entries: &[Entry]) -> Vec<&str> {
    entries.iter().map(|e| e.branch.as_str()).collect()
}

fn row(store: &Store, id: EntryId) -> &EntryRow {
    store.entries().iter().find(|e| e.id == id).unwrap()
}

#[test]
fn fresh_entries_batch_together_in_queue_order() {
    let mut store = Store::new();
    queue(&mut store, "feat/a", 1, 0);
    queue(&mut store, "feat/b", 2, 0);
    queue(&mut store, "feat/c", 3, 0);

    let batch = store.select_batch(REPO, BASE, 8).unwrap();
    assert_eq!(branches(&batch), vec!["feat/a", "feat/b", "feat/c"]);
}

#[test]
fn the_batch_respects_the_limit() {
    let mut store = Store::new();
    for (n, name) in [(1u8, "feat/a"), (2, "feat/b"), (3, "feat/c")] {
        queue(&mut store, name, n, 0);
    }

    let batch = store.select_batch(REPO, BASE, 2).unwrap();
    assert_eq!(branches(&batch), vec!["feat/a", "feat/b"]);
}

/// It already failed on its own, so batching it again would poison whatever went
/// with it.
#[test]
fn an_entry_being_retried_is_tried_by_itself() {
    let mut store = Store::new();
    queue(&mut store, "feat/known-bad", 1, 1);
    queue(&mut store, "feat/innocent", 2, 0);

    let batch = store.select_batch(REPO, BASE, 8).unwrap();
    assert_eq!(branches(&batch), vec!["feat/known-bad"]);
}

#[test]
fn a_batch_stops_short_of_an_entry_being_retried() {
    let mut store = Store::new();
    queue(&mut store, "feat/a", 1, 0);
    queue(&mut store, "feat/b", 2, 0);
    queue(&mut store, "feat/known-bad", 3, 2);
    queue(&mut store, "feat/d", 4, 0);

    let batch = store.select_batch(REPO, BASE, 8).unwrap();
    assert_eq!(
        branches(&batch),
        vec!["feat/a", "feat/b"],
        "the retry and everything behind it wait their turn"
    );
}

#[test]
fn an_empty_queue_yields_an_empty_batch() {
    let store = Store::new();
    assert!(store.select_batch(REPO, BASE, 8).unwrap().is_empty());
}

#[test]
fn entries_for_another_base_branch_are_not_selected() {
    let mut store = Store::new();
    queue(&mut store, "feat/a", 1, 0);
    store
        .enqueue(REPO, "release", "feat/elsewhere", &sha(9), &at(0))
        .unwrap();

    let batch = store.select_batch(REPO, BASE, 8).unwrap();
    assert_eq!(branches(&batch), vec!["feat/a"]);
}

#[test]
fn a_repushed_branch_is_a_new_request() {
    let mut store = Store::new();
    let first = store.enqueue(REPO, BASE, "feat/a", &sha(1), &at(0)).unwrap();
    assert_eq!(
        store.enqueue(REPO, BASE, "feat/a", &sha(1), &at(1)),
        Err(StoreError::AlreadyLive {
            branch: "feat/a".into()
        })
    );
    let second = store.enqueue(REPO, BASE, "feat/a", &sha(2), &at(2)).unwrap();
    let elsewhere = store
        .enqueue(REPO, "release", "feat/a", &sha(1), &at(3))
        .unwrap();
    assert_eq!((first, second, elsewhere), (1, 2, 3));
}

fn open(store: &mut Store) -> i64 {
    let batch = store.select_batch(REPO, BASE, 8).unwrap();
    store
        .open_candidate(REPO, BASE, &sha(200), &batch, None, &at(1))
        .unwrap()
}

#[test]
fn a_candidate_takes_its_entries_out_of_line_and_lands_them() {
    let mut store = Store::new();
    let a = queue(&mut store, "feat/a", 1, 0);
    let b = queue(&mut store, "feat/b", 2, 0);
    let id = open(&mut store);

    assert_eq!(row(&store, a).state, EntryState::Batched);
    assert!(store.select_batch(REPO, BASE, 8).unwrap().is_empty());
    let active = store.active_candidate(REPO, BASE).unwrap().unwrap();
    assert_eq!(active.id, id);
    assert_eq!(active.base_sha, sha(200));
    assert_eq!(branches(&active.entries), vec!["feat/a", "feat/b"]);

    assert_eq!(
        store.land(id, &at(2)),
        Err(StoreError::NoCommit { id }),
        "nothing lands without a commit"
    );
    store.mark_testing(id, &sha(201), &at(2)).unwrap();
    assert_eq!(store.land(id, &at(3)), Ok(2));
    for entry in [a, b] {
        assert_eq!(row(&store, entry).state, EntryState::Merged);
        assert_eq!(row(&store, entry).attempts, 0);
    }
    assert!(store.members().iter().all(|m| m.outcome == Outcome::Passed));
    assert_eq!(store.active_candidate(REPO, BASE), Ok(None));
    assert_eq!(store.settlement(a).unwrap().state, EntryState::Merged);
}

#[test]
fn abandoning_a_candidate_costs_nothing() {
    let mut store = Store::new();
    let a = queue(&mut store, "feat/a", 1, 0);
    let id = open(&mut store);

    assert_eq!(
        store.abandon(id, CandidateState::Passed, &at(2)),
        Err(StoreError::NotAbandonment {
            state: CandidateState::Passed
        })
    );
    assert_eq!(
        store.abandon(id, CandidateState::Superseded, &at(2)),
        Ok(1)
    );
    assert_eq!(row(&store, a).state, EntryState::Queued);
    assert_eq!(row(&store, a).attempts, 0);
    assert_eq!(store.members()[0].outcome, Outcome::Pending);
    assert!(store.settlement(a).is_none(), "it has not settled");
}

#[test]
fn blame_is_paid_by_the_culprit_alone() {
    let mut store = Store::new();
    let good = queue(&mut store, "feat/good", 1, 0);
    let bad = queue(&mut store, "feat/bad", 2, 0);
    let id = open(&mut store);

    assert_eq!(
        store.blame(id, bad, 2, "it broke", &at(2)),
        Ok(Blame::Requeued)
    );
    assert_eq!(row(&store, bad).attempts, 1);
    assert_eq!(row(&store, bad).state, EntryState::Queued);
    assert_eq!(row(&store, bad).evict_reason, None);
    assert_eq!(row(&store, good).attempts, 0);
    assert_eq!(row(&store, good).state, EntryState::Queued);

    store.abandon(id, CandidateState::Superseded, &at(3)).unwrap();
    let alone = store.candidate_entries(id).unwrap();
    let next = store
        .open_candidate(REPO, BASE, &sha(200), &vec![alone[1].clone()], Some(id), &at(4))
        .unwrap();
    assert_eq!(
        store.blame(next, bad, 2, "it broke", &at(5)),
        Ok(Blame::Evicted)
    );
    let settled = store.settlement(bad).unwrap();
    assert_eq!(settled.state, EntryState::Evicted);
    assert_eq!(settled.attempts, 2);
    assert_eq!(settled.reason.as_deref(), Some("it broke"));
    assert_eq!(
        store.blame(next, 99, 2, "it broke", &at(6)),
        Err(StoreError::UnknownEntry { id: 99 })
    );
}

#[test]
fn a_candidate_needs_entries_that_are_there_once() {
    let mut store = Store::new();
    queue(&mut store, "feat/a", 1, 0);
    let batch = store.select_batch(REPO, BASE, 8).unwrap();
    let mut opened = |entries: &Vec<Entry>| {
        store.open_candidate(REPO, BASE, &sha(200), entries, None, &at(1))
    };
    assert_eq!(opened(&Vec::new()), Err(StoreError::NoEntries));
    assert_eq!(
        opened(&vec![batch[0].clone(), batch[0].clone()]),
        Err(StoreError::RepeatedEntry { id: 1 })
    );
    let mut stranger = batch[0].clone();
    stranger.id = 7;
    assert_eq!(
        opened(&vec![stranger]),
        Err(StoreError::UnknownEntry { id: 7 })
    );
    assert_eq!(opened(&batch), Ok(1));
}

#[test]
fn steps_on_a_candidate_that_is_not_there_are_refused() {
    let mut store = Store::new();
    assert_eq!(
        store.mark_testing(5, &sha(1), &at(0)),
        Err(StoreError::NothingToMove {
            id: 5,
            state: CandidateState::Testing
        })
    );
    assert_eq!(
        store
            .set_candidate(5, CandidateState::Superseded, None, &at(0))
            .unwrap_err()
            .message(),
        "no candidate 5 to move to superseded"
    );
    assert_eq!(
        store.record_run(5, "make", Some(0), "/logs/x.log", &at(0)),
        Err(StoreError::UnknownCandidate { id: 5 })
    );
    for e in [
        StoreError::NoEntries,
        StoreError::UnknownCandidate { id: 5 },
        StoreError::NotWaiting { id: 5 },
        StoreError::OutOfNumbers,
    ] {
        assert!(!e.message().is_empty());
    }
}

#[test]
fn a_row_that_does_not_name_a_commit_is_noticed() {
    let mut store = Store::new();
    queue(&mut store, "feat/a", 1, 0);
    let id = store.next_entry_id().unwrap();
    store
        .insert_entry(EntryRow {
            id,
            repo_path: REPO.into(),
            base_branch: BASE.into(),
            branch: "feat/b".into(),
            branch_sha: "abc".into(),
            state: EntryState::Queued,
            attempts: 0,
            priority: 0,
            evict_reason: None,
            enqueued_at: String::new(),
            updated_at: String::new(),
        })
        .unwrap();
    assert_eq!(
        store.select_batch(REPO, BASE, 8),
        Err(StoreError::NotAnObjectId { raw: "abc".into() })
    );
    assert!(store.select_batch(REPO, BASE, 1).is_ok());
}

#[test]
fn a_promoted_entry_goes_first() {
    let mut store = Store::new();
    queue(&mut store, "feat/a", 1, 0);
    let b = queue(&mut store, "feat/b", 2, 0);
    let c = queue(&mut store, "feat/c", 3, 0);

    store.promote(REPO, BASE, c, &at(1)).unwrap();
    store.promote(REPO, BASE, b, &at(2)).unwrap();

    let batch = store.select_batch(REPO, BASE, 8).unwrap();
    assert_eq!(branches(&batch), vec!["feat/b", "feat/c", "feat/a"]);
    assert_eq!(
        store.promote(REPO, "release", b, &at(3)),
        Err(StoreError::UnknownEntry { id: b })
    );
}

/// An entry inside a candidate is mid-gate, and pulling it out would leave a
/// candidate referring to something no longer in the queue.
#[test]
fn an_entry_inside_a_candidate_is_not_touched_by_hand() {
    let mut store = Store::new();
    let a = queue(&mut store, "feat/a", 1, 0);
    open(&mut store);
    assert_eq!(
        store.promote(REPO, BASE, a, &at(2)),
        Err(StoreError::NotWaiting { id: a })
    );
    assert_eq!(
        store.dequeue(REPO, BASE, a, &at(2)),
        Err(StoreError::NotWaiting { id: a })
    );
    assert_eq!(row(&store, a).state, EntryState::Batched);
}

#[test]
fn a_hand_removal_reads_as_one() {
    let mut store = Store::new();
    let a = queue(&mut store, "feat/a", 1, 0);
    store.dequeue(REPO, BASE, a, &at(1)).unwrap();
    assert_eq!(row(&store, a).state, EntryState::Evicted);
    assert_eq!(
        row(&store, a).evict_reason.as_deref(),
        Some("removed by hand")
    );
    assert_eq!(row(&store, a).attempts, 0);
}

#[test]
fn a_snapshot_shows_each_part_in_its_order() {
    let mut store = Store::new();
    let gone = queue(&mut store, "feat/gone", 9, 0);
    let also = queue(&mut store, "feat/also", 8, 0);
    store.dequeue(REPO, BASE, gone, &at(1)).unwrap();
    store.dequeue(REPO, BASE, also, &at(2)).unwrap();
    queue(&mut store, "feat/a", 1, 0);
    queue(&mut store, "feat/b", 2, 0);
    open(&mut store);
    queue(&mut store, "feat/c", 3, 1);

    let snapshot = store.snapshot(REPO, BASE, 5).unwrap();
    let names = |list: &[sasse::queue::store::StatusEntry]| {
        list.iter().map(|e| e.branch.clone()).collect::<Vec<_>>()
    };
    assert_eq!(names(&snapshot.queued), vec!["feat/c"]);
    assert_eq!(names(&snapshot.batched), vec!["feat/a", "feat/b"]);
    assert_eq!(names(&snapshot.settled), vec!["feat/also", "feat/gone"]);
    assert_eq!(snapshot.active.unwrap().entries.len(), 2);

    let short = store.snapshot(REPO, BASE, 1).unwrap();
    assert_eq!(names(&short.settled), vec!["feat/also"]);

    let summary = store.summary(REPO, BASE);
    assert_eq!(
        (summary.active, summary.queued, summary.batched, summary.settled),
        (Some(1), 1, 2, 2)
    );
}

/// A branch stays listed once its queue drains, and one known only to a candidate
/// or a lease is listed too.
#[test]
fn every_base_branch_with_rows_is_listed_once() {
    let mut store = Store::new();
    let a = queue(&mut store, "feat/a", 1, 0);
    queue(&mut store, "feat/b", 2, 0);
    store.dequeue(REPO, BASE, a, &at(1)).unwrap();
    store
        .enqueue(REPO, "release", "feat/c", &sha(3), &at(1))
        .unwrap();
    store
        .enqueue("/elsewhere", "other", "feat/d", &sha(4), &at(1))
        .unwrap();
    store
        .insert_lease(sasse::queue::store::LeaseRow {
            repo_path: REPO.into(),
            base_branch: "leased".into(),
            holder_pid: 1,
            token: "t".into(),
            acquired_at: String::new(),
            renewed_at: String::new(),
            expires_at: String::new(),
        })
        .unwrap();
    assert_eq!(
        store.base_branches(REPO),
        vec!["main".to_string(), "release".to_string(), "leased".to_string()]
    );
}
