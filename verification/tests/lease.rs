use sasse::queue::ledger::Member;
use sasse::queue::lease::{
    acquire, current, holder, liveness, mint_token, release, renew, LeaseError,
};
use sasse::queue::store::{CandidateRow, EntryRow, LeaseRow, Store};
use sasse::queue::{
    Acquisition, CandidateState, EntryState, Lease, Liveness, Outcome, Reclaimed,
};
use sasse::time::{Span, Timestamp};

const TTL: Span = Span { secs: 60, nanos: 0 };

/// Our own pid, and one whose process is gone.
const US: i32 = 4242;
const REAPED: i32 = 1717;

fn at(secs: i64) -> Timestamp {
    Timestamp::new(1_700_000_000 + secs, 0).unwrap()
}

fn alive(pid: Option<i32>) -> Liveness {
    if pid == Some(REAPED) {
        Liveness::Gone
    } else {
        Liveness::Present
    }
}

fn take(store: &mut Store, base: &str, now: &Timestamp) -> Acquisition {
    let probed = alive(holder(store, "/repo", base));
    acquire(store, "/repo", base, TTL, now, US, probed).unwrap()
}

fn acquired(a: Acquisition) -> (Lease, Option<Reclaimed>) {
    match a {
        Acquisition::Acquired { lease, reclaimed } => (lease, reclaimed),
        Acquisition::Held { holder_pid, .. } => {
            panic!("expected to acquire, but pid {holder_pid} holds it")
        }
    }
}

fn write_lease(store: &mut Store, holder_pid: i32, expires_at: &Timestamp) {
    store
        .insert_lease(LeaseRow {
            repo_path: "/repo".into(),
            base_branch: "main".into(),
            holder_pid,
            token: "someone-elses-token".into(),
            acquired_at: at(0).to_rfc3339(),
            renewed_at: at(0).to_rfc3339(),
            expires_at: expires_at.to_rfc3339(),
        })
        .unwrap();
}

fn seed_batched_entry(store: &mut Store, state: CandidateState) -> (i64, i64) {
    store
        .insert_entry(EntryRow {
            id: 1,
            repo_path: "/repo".into(),
            base_branch: "main".into(),
            branch: "feat/x".into(),
            branch_sha: "abc".into(),
            state: EntryState::Batched,
            attempts: 0,
            priority: 0,
            evict_reason: None,
            enqueued_at: String::new(),
            updated_at: String::new(),
        })
        .unwrap();
    store
        .insert_candidate(CandidateRow {
            id: 1,
            repo_path: "/repo".into(),
            base_branch: "main".into(),
            base_sha: "base".into(),
            candidate_sha: Some("cand".into()),
            state,
            parent_id: None,
            created_at: String::new(),
            updated_at: String::new(),
        })
        .unwrap();
    store
        .insert_member(Member {
            candidate_id: 1,
            entry_id: 1,
            position: 0,
            outcome: Outcome::Pending,
        })
        .unwrap();
    (1, 1)
}

fn candidate_state(store: &Store, id: i64) -> &str {
    let row = store.candidates().iter().find(|c| c.id == id).unwrap();
    row.state.as_str()
}

fn entry_state(store: &Store, id: i64) -> &str {
    let row = store.entries().iter().find(|e| e.id == id).unwrap();
    row.state.as_str()
}

#[test]
fn an_unheld_lease_is_acquired() {
    let mut store = Store::new();
    let (lease, reclaimed) = acquired(take(&mut store, "main", &at(0)));
    assert_eq!(lease.holder_pid, US);
    assert_eq!(reclaimed, None, "nothing to reclaim from a free lease");
    assert_eq!(lease.token, format!("{US}-1700000000000000000"));
    assert_eq!(lease.token, mint_token(US, &at(0)));
    assert_eq!(lease.expires_at, at(60));
}

#[test]
fn a_live_holder_keeps_its_lease() {
    let mut store = Store::new();
    acquired(take(&mut store, "main", &at(0)));

    match take(&mut store, "main", &at(1)) {
        Acquisition::Held {
            holder_pid,
            expires_at,
        } => {
            assert_eq!(holder_pid, US);
            assert_eq!(expires_at, at(60));
        }
        Acquisition::Acquired { .. } => panic!("a live, unexpired lease must not be taken"),
    }
}

#[test]
fn leases_on_different_base_branches_do_not_exclude_each_other() {
    let mut store = Store::new();
    acquired(take(&mut store, "main", &at(0)));
    acquired(take(&mut store, "release", &at(0)));
}

#[test]
fn an_expired_lease_is_reclaimed_even_though_its_holder_is_alive() {
    let mut store = Store::new();
    // Our own pid, so the probe says it is there. Expiry must still win,
    // otherwise a wedged-but-running worker holds the branch forever.
    write_lease(&mut store, US, &at(-1));

    let (_, reclaimed) = acquired(take(&mut store, "main", &at(0)));
    assert!(reclaimed.is_some(), "an expired lease is a reclaim");
    assert_eq!(reclaimed.unwrap().previous_holder_pid, US);
}

#[test]
fn a_lease_whose_holder_is_gone_is_reclaimed_before_it_expires() {
    let mut store = Store::new();
    write_lease(&mut store, REAPED, &at(3600));

    let (_, reclaimed) = acquired(take(&mut store, "main", &at(0)));
    assert!(
        reclaimed.is_some(),
        "a dead holder should not hold the branch until expiry"
    );
}

#[test]
fn reclaiming_supersedes_an_orphaned_candidate_and_requeues_its_entries() {
    let mut store = Store::new();
    let (candidate_id, entry_id) = seed_batched_entry(&mut store, CandidateState::Testing);
    write_lease(&mut store, REAPED, &at(3600));

    let (_, reclaimed) = acquired(take(&mut store, "main", &at(0)));
    let reclaimed = reclaimed.expect("a dead holder is a reclaim");
    assert_eq!(reclaimed.candidates_superseded, 1);
    assert_eq!(reclaimed.entries_requeued, 1);

    assert_eq!(candidate_state(&store, candidate_id), "superseded");
    assert_eq!(entry_state(&store, entry_id), "queued");
}

/// A superseded candidate reached no verdict, so its entries keep a pending
/// outcome and spend none of their retry budget.
#[test]
fn a_superseded_candidate_costs_its_entries_nothing() {
    let mut store = Store::new();
    seed_batched_entry(&mut store, CandidateState::Testing);
    write_lease(&mut store, REAPED, &at(3600));

    acquired(take(&mut store, "main", &at(0)));

    assert_eq!(store.members()[0].outcome, Outcome::Pending);
    assert_eq!(store.entries()[0].attempts, 0);
}

#[test]
fn a_finished_candidate_is_not_disturbed_by_a_reclaim() {
    let mut store = Store::new();
    let (candidate_id, _) = seed_batched_entry(&mut store, CandidateState::Passed);
    write_lease(&mut store, REAPED, &at(3600));

    let (_, reclaimed) = acquired(take(&mut store, "main", &at(0)));
    assert_eq!(reclaimed.unwrap().candidates_superseded, 0);
    assert_eq!(candidate_state(&store, candidate_id), "passed");
}

#[test]
fn renewing_pushes_the_expiry_out() {
    let mut store = Store::new();
    let (lease, _) = acquired(take(&mut store, "main", &at(0)));

    let renewed = renew(&mut store, &lease, Span::from_secs(600), &at(1)).unwrap();
    assert!(lease.expires_at.is_before(&renewed.expires_at));
    assert_eq!(renewed.token, lease.token, "renewal keeps the same token");
    assert_eq!(renewed.expires_at, at(601));
}

/// The fencing check. A worker that lost its lease has to discover that before it
/// merges anything.
#[test]
fn renewing_a_reclaimed_lease_fails() {
    let mut store = Store::new();
    let (lease, _) = acquired(take(&mut store, "main", &at(0)));

    let taken = acquire(
        &mut store,
        "/repo",
        "main",
        TTL,
        &at(61),
        99,
        Liveness::Present,
    );
    acquired(taken.unwrap());

    let refused = renew(&mut store, &lease, TTL, &at(62));
    assert!(
        matches!(refused, Err(LeaseError::Lost { .. })),
        "a lease taken from under us must not renew: {refused:?}"
    );
}

#[test]
fn releasing_our_own_lease_frees_the_branch() {
    let mut store = Store::new();
    let (lease, _) = acquired(take(&mut store, "main", &at(0)));

    assert!(release(&mut store, &lease));
    acquired(take(&mut store, "main", &at(1)));
}

#[test]
fn releasing_a_lease_that_is_not_ours_changes_nothing() {
    let mut store = Store::new();
    write_lease(&mut store, REAPED, &at(3600));

    let not_ours = Lease {
        repo_path: "/repo".into(),
        base_branch: "main".into(),
        holder_pid: 1,
        token: "a-token-we-invented".into(),
        expires_at: at(0),
    };
    assert!(!release(&mut store, &not_ours));
    assert_eq!(
        store.leases().len(),
        1,
        "someone else's lease must survive"
    );
}

/// However many workers try, one at a time as a database has it, exactly one gets
/// the branch.
#[test]
fn acquisitions_one_after_the_other_elect_exactly_one_worker() {
    for round in 0..25 {
        let mut store = Store::new();
        let mut winners = 0;
        for racer in 0..5 {
            let got = acquire(
                &mut store,
                "/repo",
                "main",
                TTL,
                &at(round),
                racer + 1,
                Liveness::Present,
            );
            if let Acquisition::Acquired { .. } = got.unwrap() {
                winners += 1;
            }
        }
        assert_eq!(winners, 1, "round {round}: exactly one worker must win");
    }
}

#[test]
fn a_probe_that_could_not_tell_counts_as_there() {
    assert_eq!(liveness(true, None, 3), Liveness::Present);
    assert_eq!(liveness(false, Some(3), 3), Liveness::Gone);
    assert_eq!(liveness(false, Some(1), 3), Liveness::Present);
    assert_eq!(liveness(false, None, 3), Liveness::Present);
}

#[test]
fn a_listing_says_who_holds_a_branch() {
    let mut store = Store::new();
    assert_eq!(
        current(&store, "/repo", "main", &at(0), Liveness::Present),
        Ok(None)
    );
    acquired(take(&mut store, "main", &at(0)));
    let held = current(&store, "/repo", "main", &at(10), Liveness::Gone)
        .unwrap()
        .unwrap();
    assert_eq!(held.holder_pid, US);
    assert!(!held.holder_present);
    assert!(!held.expired);
    let held = current(&store, "/repo", "main", &at(60), Liveness::Present)
        .unwrap()
        .unwrap();
    assert!(held.holder_present);
    assert!(held.expired);
}

#[test]
fn a_lease_that_cannot_be_read_or_dated_is_an_error() {
    let mut store = Store::new();
    store
        .insert_lease(LeaseRow {
            repo_path: "/repo".into(),
            base_branch: "main".into(),
            holder_pid: 1,
            token: "t".into(),
            acquired_at: String::new(),
            renewed_at: String::new(),
            expires_at: "soon".into(),
        })
        .unwrap();
    let read = acquire(&mut store, "/repo", "main", TTL, &at(0), US, Liveness::Gone);
    assert!(matches!(read, Err(LeaseError::BadStamp { .. })), "got {read:?}");
    assert!(read.unwrap_err().message().contains("soon"));
    assert!(current(&store, "/repo", "main", &at(0), Liveness::Gone).is_err());

    let forever = Span {
        secs: u64::MAX,
        nanos: 0,
    };
    let dated = acquire(
        &mut store,
        "/repo",
        "release",
        forever,
        &at(0),
        US,
        Liveness::Present,
    );
    assert!(matches!(dated, Err(LeaseError::TtlOutOfRange)), "got {dated:?}");
    assert!(store.lease_on("/repo", "release").is_none());
}
