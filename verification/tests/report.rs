use sasse::git::Sha;
use sasse::notify::Delivery;
use sasse::queue::lease::Held;
use sasse::queue::store::{
    Blame, Candidate, Entry, RunRow, Settled, Snapshot, StatusEntry, Store, Summary,
};
use sasse::queue::{CandidateState, EntryState};
use sasse::report::{
    describe, describe_giving_up, describe_summary, entry_lines, failed_hooks, gate_budget,
    humanise, last_log, overview_line, run_lines, status_lines, worth_saying, Remains,
};
use sasse::time::Timestamp;
use sasse::worker::{Abandoned, Announcement, Fault, TickOutcome, WorkSummary};

fn sha(seed: u8) -> Sha {
    Sha::parse(&format!("{seed:02x}").repeat(20)).unwrap()
}

fn at(secs: i64) -> Timestamp {
    Timestamp::new(1_700_000_000 + secs, 0).unwrap()
}

#[test]
fn each_outcome_has_its_words() {
    assert_eq!(describe(&TickOutcome::Idle), "nothing queued");
    assert_eq!(
        describe(&TickOutcome::AnotherWorkerHolds { holder_pid: 7 }),
        "another worker holds this branch (pid 7)"
    );
    assert_eq!(
        describe(&TickOutcome::BaseCheckedOut {
            holders: vec!["/a".to_string(), "/b".to_string()]
        }),
        "refusing to touch the base branch: it is checked out in\n  /a\n  /b\n\
         git would move it anyway and leave that checkout inconsistent"
    );
    assert_eq!(
        describe(&TickOutcome::Landed {
            candidate: 7,
            entries: 1,
            at: sha(0x96)
        }),
        "candidate 7 passed; 1 entr(ies) landed at 9696969"
    );
    assert_eq!(
        describe(&TickOutcome::Abandoned {
            candidate: 3,
            requeued: 2,
            reason: Abandoned::BaseMoved
        }),
        "candidate 3 discarded (BaseMoved); 2 requeued, no attempts spent"
    );
    assert_eq!(
        describe(&TickOutcome::Abandoned {
            candidate: 3,
            requeued: 0,
            reason: Abandoned::Interrupted
        }),
        "candidate 3 discarded (Interrupted); 0 requeued, no attempts spent"
    );
    assert_eq!(
        describe(&TickOutcome::Blamed {
            candidate: 4,
            entry: 9,
            branch: "feat/x".to_string(),
            blame: Blame::Requeued,
            reason: Fault::Conflict
        }),
        "candidate 4 failed: feat/x Conflict, Requeued"
    );
    assert_eq!(
        describe(&TickOutcome::Blamed {
            candidate: 4,
            entry: 9,
            branch: "feat/x".to_string(),
            blame: Blame::Evicted,
            reason: Fault::GateFailed
        }),
        "candidate 4 failed: feat/x GateFailed, Evicted"
    );
    assert_eq!(
        describe(&TickOutcome::Split {
            failed: 5,
            next: 6,
            retrying: 2
        }),
        "candidate 5 failed; bisecting into candidate 6 of 2"
    );
}

fn announced(branch: &str, state: EntryState, delivery: Delivery) -> Announcement {
    Announcement {
        settled: Settled {
            entry: 1,
            branch: branch.to_string(),
            state,
            attempts: 0,
            reason: None,
        },
        delivery,
    }
}

/// A hook that fails is reported alongside the outcome and never instead of it.
#[test]
fn a_failed_hook_gets_a_line_and_a_working_one_does_not() {
    let list = vec![
        announced("feat-a", EntryState::Merged, Delivery::Delivered),
        announced(
            "feat-c",
            EntryState::Merged,
            Delivery::Failed {
                exit_code: Some(127),
                output: "definitely-not-a-command: not found\n".to_string(),
            },
        ),
        announced(
            "feat-d",
            EntryState::Evicted,
            Delivery::Unrunnable("no shell".to_string()),
        ),
    ];
    assert_eq!(
        failed_hooks(&list),
        vec![
            "  on_settle for feat-c (merged): exited 127: definitely-not-a-command: not found",
            "  on_settle for feat-d (evicted): could not be started: no shell",
        ]
    );
}

#[test]
fn an_unchanging_quiet_state_is_reported_once() {
    let idle = TickOutcome::Idle;
    let split = TickOutcome::Split {
        failed: 1,
        next: 2,
        retrying: 1,
    };
    assert_eq!(worth_saying(&idle, false), (true, true));
    assert_eq!(worth_saying(&idle, true), (false, true));
    assert_eq!(worth_saying(&split, true), (true, false));
    assert_eq!(worth_saying(&split, false), (true, false));
}

#[test]
fn a_worker_says_what_it_did() {
    let summary = WorkSummary {
        ticks: 4,
        entries_landed: 3,
        entries_evicted: 1,
        failures: 2,
    };
    assert_eq!(
        describe_summary(&summary),
        "stopped after 4 tick(s): 3 landed, 1 evicted, 2 failed tick(s)"
    );
    assert_eq!(
        describe_giving_up(5),
        "giving up after 5 consecutive failed ticks"
    );
}

#[test]
fn spans_are_shown_in_units_that_fit() {
    for (seconds, said) in [
        (0, "0s"),
        (59, "59s"),
        (60, "1m 0s"),
        (3599, "59m 59s"),
        (3600, "1h 0m"),
        (7384, "2h 3m"),
        (90_000, "25h 0m"),
    ] {
        assert_eq!(humanise(seconds), said);
    }
}

fn status(id: i64, state: EntryState, branch: &str, attempts: u32) -> StatusEntry {
    StatusEntry {
        id,
        state,
        branch: branch.to_string(),
        branch_sha: sha(0xab),
        attempts,
        evict_reason: None,
    }
}

#[test]
fn entries_are_listed_in_columns() {
    assert!(entry_lines("queued", &vec![], Some(3)).is_empty());

    let mut evicted = status(12, EntryState::Evicted, "feat/bad", 3);
    evicted.evict_reason = Some("conflicts with the base branch".to_string());
    let list = vec![
        status(1, EntryState::Queued, "feat/a", 0),
        status(2, EntryState::Queued, "feat/b", 1),
        evicted,
    ];
    assert_eq!(
        entry_lines("queued", &list, Some(3)),
        vec![
            "".to_string(),
            "queued (3)".to_string(),
            format!("  #{:<4} {:<10} {:<24} abababa", 1, "queued", "feat/a"),
            format!(
                "  #{:<4} {:<10} {:<24} abababa  (attempt 1 of 3)",
                2, "queued", "feat/b"
            ),
            format!(
                "  #{:<4} {:<10} {:<24} abababa  (attempt 3 of 3; conflicts with the base branch)",
                12, "evicted", "feat/bad"
            ),
        ]
    );
    assert_eq!(
        entry_lines("queued", &vec![status(2, EntryState::Queued, "feat/b", 1)], None)[2],
        format!(
            "  #{:<4} {:<10} {:<24} abababa  (1 attempt(s) spent)",
            2, "queued", "feat/b"
        )
    );
}

fn snapshot() -> Snapshot {
    Snapshot {
        active: Some(Candidate {
            id: 3,
            base_sha: sha(1),
            entries: vec![
                Entry {
                    id: 1,
                    branch: "feat/a".to_string(),
                    branch_sha: sha(2),
                    attempts: 0,
                },
                Entry {
                    id: 2,
                    branch: "feat/b".to_string(),
                    branch_sha: sha(3),
                    attempts: 0,
                },
            ],
        }),
        queued: vec![],
        batched: vec![status(1, EntryState::Batched, "feat/a", 0)],
        settled: vec![],
    }
}

#[test]
fn a_status_shows_the_queue_in_full() {
    let held = Held {
        holder_pid: 99,
        holder_present: false,
        expired: false,
        expires_at: at(61),
    };
    assert_eq!(
        status_lines(
            "/repo",
            "main",
            &Some(sha(1)),
            &Some(held),
            None,
            &snapshot(),
            &at(0)
        ),
        vec![
            "repo    /repo".to_string(),
            "base    main @ 0101010".to_string(),
            "worker  pid 99 (process gone, expires in 1m 1s)".to_string(),
            "".to_string(),
            "candidate 3 on base 0101010 (2 entr(ies))".to_string(),
            "  1. feat/a 0202020".to_string(),
            "  2. feat/b 0303030".to_string(),
            "".to_string(),
            "in a candidate (1)".to_string(),
            format!("  #{:<4} {:<10} {:<24} abababa", 1, "batched", "feat/a"),
        ]
    );

    let empty = Snapshot {
        active: None,
        queued: vec![],
        batched: vec![],
        settled: vec![],
    };
    assert_eq!(
        status_lines("/repo", "gone", &None, &None, None, &empty, &at(0)),
        vec!["repo    /repo", "base    gone @ unresolved", "worker  none"]
    );
}

/// A branch that is gone but still has queue history is exactly what a listing is
/// for.
#[test]
fn an_overview_gives_each_queue_a_line() {
    let held = Held {
        holder_pid: 99,
        holder_present: true,
        expired: true,
        expires_at: at(-5),
    };
    let summary = Summary {
        active: Some(3),
        queued: 4,
        batched: 2,
        settled: 1,
    };
    assert_eq!(
        overview_line("main", &Some(sha(1)), &Some(held), &summary, &at(0)),
        "main @ 0101010  worker pid 99 (expired 5s ago)  candidate 3  \
         4 queued, 2 in a candidate, 1 settled"
    );
    let drained = Summary {
        active: None,
        queued: 0,
        batched: 0,
        settled: 9,
    };
    assert_eq!(
        overview_line("gone", &None, &None, &drained, &at(0)),
        "gone @ unresolved  worker none  candidate none  \
         0 queued, 0 in a candidate, 9 settled"
    );
}

#[test]
fn a_listing_works_without_a_config() {
    assert_eq!(
        gate_budget(&Some("gate = \"x\"\nmax_attempts = 7".to_string())),
        Some(7)
    );
    assert_eq!(gate_budget(&Some("gate = ".to_string())), None);
    assert_eq!(gate_budget(&None), None);
}

fn gated() -> Store {
    let mut store = Store::new();
    for (n, exit_code) in [(1u8, Some(0)), (2, Some(3)), (3, None)] {
        let branch = format!("feat/{n}");
        store
            .enqueue("/repo", "main", &branch, &sha(n), &at(0))
            .unwrap();
        let batch = store.select_batch("/repo", "main", 8).unwrap();
        let id = store
            .open_candidate("/repo", "main", &sha(9), &batch, None, &at(0))
            .unwrap();
        store
            .record_run(id, "make", exit_code, &format!("/logs/{id}.log"), &at(0))
            .unwrap();
        store
            .abandon(id, CandidateState::Superseded, &at(0))
            .unwrap();
        store
            .dequeue("/repo", "main", i64::from(n), &at(0))
            .unwrap();
    }
    store
}

#[test]
fn gate_runs_are_listed_with_their_verdicts() {
    let mut store = gated();
    store.forget_log(2, Some("boom".to_string()));
    store.forget_log(3, None);
    let started = at(0).to_rfc3339();
    let lines = run_lines(&store, "/repo", "main", None);
    assert_eq!(
        lines,
        vec![
            format!("run 1  candidate 1  passed  {started}  /logs/1.log"),
            format!("run 2  candidate 2  failed (exit 3)  {started}  log pruned, tail kept"),
            format!("run 3  candidate 3  failed (signal)  {started}  log pruned"),
        ]
    );
    assert_eq!(
        run_lines(&store, "/repo", "main", Some(2)),
        vec![lines[1].clone()]
    );
    assert!(run_lines(&store, "/repo", "release", None).is_empty());
}

#[test]
fn the_last_log_of_a_candidate_is_what_is_left_of_it() {
    let mut store = gated();
    store
        .insert_run(RunRow {
            id: 4,
            candidate_id: 1,
            command: "make".to_string(),
            exit_code: Some(1),
            log_path: Some("/logs/later.log".to_string()),
            tail: None,
            started_at: String::new(),
            finished_at: None,
        })
        .unwrap();
    assert_eq!(
        last_log(&store, "/repo", "main", 1),
        Some(Remains::Log {
            path: "/logs/later.log".to_string()
        })
    );
    store.forget_log(2, Some("boom".to_string()));
    assert_eq!(
        last_log(&store, "/repo", "main", 2),
        Some(Remains::Tail {
            text: "boom".to_string()
        })
    );
    store.forget_log(3, None);
    assert_eq!(last_log(&store, "/repo", "main", 3), Some(Remains::Nothing));
    assert_eq!(last_log(&store, "/repo", "main", 99), None);
    assert_eq!(last_log(&store, "/repo", "release", 1), None);
}
