use std::collections::BTreeMap;

use sasse::bytes::ByteSize;
use sasse::failure::Failure;
use sasse::git::Sha;
use sasse::logs::{tail_text, Plan, RETAINED_TAIL_LINES};
use sasse::queue::store::{Entry, LoggedRun, RunRow, Store};
use sasse::queue::CandidateState;
use sasse::retention::{
    apply, dry_run, survey, Measured, PruneAction, PruneEvent, Pruned,
};
use sasse::time::Timestamp;

const REPO: &str = "/repo";
const BASE: &str = "main";

fn sha(seed: u8) -> Sha {
    Sha::parse(&format!("{seed:02x}").repeat(20)).unwrap()
}

fn now() -> Timestamp {
    Timestamp::new(1_700_000_000, 0).unwrap()
}

/// The rows, and the log files by path.
struct Fixture {
    store: Store,
    files: BTreeMap<String, Vec<u8>>,
}

impl Fixture {
    fn new() -> Self {
        Self {
            store: Store::new(),
            files: BTreeMap::new(),
        }
    }

    /// A candidate in a state, with one gate run and a log of the given size.
    fn logged(
        &mut self,
        seed: u8,
        state: CandidateState,
        exit_code: i32,
        bytes: usize,
    ) -> (i64, String) {
        let branch = format!("feat/{seed}");
        let id = self
            .store
            .enqueue(REPO, BASE, &branch, &sha(seed), &now())
            .unwrap();
        let entry = Entry {
            id,
            branch,
            branch_sha: sha(seed),
            attempts: 0,
        };
        let candidate = self
            .store
            .open_candidate(REPO, BASE, &sha(200), &vec![entry], None, &now())
            .unwrap();

        let path = format!("/logs/candidate-{candidate}.log");
        self.files.insert(path.clone(), vec![b'x'; bytes]);

        self.store
            .record_run(candidate, "gate", Some(exit_code), &path, &now())
            .unwrap();
        self.store
            .set_candidate(candidate, state, Some(&sha(seed)), &now())
            .unwrap();

        let run_id = self
            .store
            .runs()
            .iter()
            .find(|r| r.candidate_id == candidate)
            .unwrap()
            .id;
        (run_id, path)
    }

    fn row(&self, run_id: i64) -> &RunRow {
        self.store.runs().iter().find(|r| r.id == run_id).unwrap()
    }

    fn measured(&self, base: &str) -> Vec<Measured> {
        self.store
            .logged_runs(REPO, base)
            .into_iter()
            .map(|run| Measured {
                bytes: self.files.get(&run.log_path).map(|f| f.len() as u64),
                run,
            })
            .collect()
    }

    fn dry_run(&self, budget: ByteSize) -> Plan {
        let measured = self.measured(BASE);
        dry_run(&self.store, REPO, BASE, &measured, budget).unwrap()
    }

    fn apply(&mut self, budget: ByteSize) -> Pruned {
        let measured = self.measured(BASE);
        let (mut run, first) =
            apply(&mut self.store, REPO, BASE, &measured, budget).unwrap();
        let mut action = first;
        loop {
            let event = match action {
                PruneAction::ReadTail { path, lines } => {
                    PruneEvent::Tail(self.files.get(&path).map(|f| tail_text(f, lines)))
                }
                PruneAction::RemoveLog { path } => {
                    PruneEvent::Removed(match self.files.remove(&path) {
                        Some(_) => Ok(()),
                        None => Err(Failure::new("not there")),
                    })
                }
                PruneAction::Finish => return run.finish().unwrap(),
            };
            action = run.next(&mut self.store, event);
        }
    }
}

fn generous() -> ByteSize {
    ByteSize::new(10 * 1024 * 1024)
}

#[test]
fn a_passing_log_is_removed_and_keeps_no_tail() {
    let mut f = Fixture::new();
    let (run, path) = f.logged(1, CandidateState::Passed, 0, 500);

    let pruned = f.apply(generous());

    assert_eq!(pruned.plan.remove.len(), 1);
    assert_eq!(pruned.tails_kept, 0, "a pass has nothing to explain");
    assert!(!f.files.contains_key(&path));
    assert_eq!(f.row(run).log_path, None);
    assert_eq!(f.row(run).tail, None);
}

#[test]
fn a_failing_log_survives_while_there_is_room() {
    let mut f = Fixture::new();
    let (run, path) = f.logged(1, CandidateState::Failed, 1, 500);

    let pruned = f.apply(generous());

    assert!(pruned.plan.is_empty());
    assert!(f.files.contains_key(&path));
    assert!(f.row(run).log_path.is_some());
}

/// The point of the whole design: the bytes go, the reason stays.
#[test]
fn a_pruned_failure_leaves_its_reason_behind() {
    let mut f = Fixture::new();
    let (run, path) = f.logged(1, CandidateState::Failed, 1, 4096);
    f.files.insert(
        path.clone(),
        b"setting up\nrunning\nassertion failed: 1 != 2\n".to_vec(),
    );

    f.apply(ByteSize::new(1));

    assert!(!f.files.contains_key(&path), "the file should have gone");
    assert_eq!(f.row(run).log_path, None);
    let kept = f.row(run).tail.clone().expect("a failure keeps its tail");
    assert!(
        kept.contains("assertion failed: 1 != 2"),
        "the reason should have survived: {kept:?}"
    );
}

#[test]
fn a_candidate_still_being_gated_is_left_alone() {
    let mut f = Fixture::new();
    let (run, path) = f.logged(1, CandidateState::Testing, 1, 4096);

    let pruned = f.apply(ByteSize::new(1));

    assert!(pruned.plan.is_empty(), "nothing in flight may be pruned");
    assert!(f.files.contains_key(&path));
    assert!(f.row(run).log_path.is_some());
}

#[test]
fn passes_go_before_failures() {
    let mut f = Fixture::new();
    let (passing, passing_path) = f.logged(1, CandidateState::Passed, 0, 4000);
    let (failing, failing_path) = f.logged(2, CandidateState::Failed, 1, 100);

    f.apply(ByteSize::new(1000));

    assert!(
        !f.files.contains_key(&passing_path),
        "the pass should have gone"
    );
    assert!(
        f.files.contains_key(&failing_path),
        "clearing the pass was enough, so the failure stays"
    );
    assert_eq!(f.row(passing).log_path, None);
    assert!(f.row(failing).log_path.is_some());
}

/// Someone clearing the log directory by hand must not leave rows pointing at
/// files that are not there.
#[test]
fn a_row_pointing_at_a_vanished_log_is_reconciled() {
    let mut f = Fixture::new();
    let (run, path) = f.logged(1, CandidateState::Failed, 1, 500);
    f.files.remove(&path);

    let measured = f.measured(BASE);
    let surveyed = survey(&mut f.store, REPO, BASE, &measured);

    assert!(surveyed.is_empty());
    assert_eq!(
        f.row(run).log_path,
        None,
        "the row should stop claiming a file exists"
    );
}

#[test]
fn a_dry_run_changes_nothing() {
    let mut f = Fixture::new();
    let (run, path) = f.logged(1, CandidateState::Passed, 0, 500);

    let plan = f.dry_run(generous());

    assert_eq!(plan.remove.len(), 1, "it would remove the pass");
    assert!(f.files.contains_key(&path), "but it did not");
    assert!(f.row(run).log_path.is_some());
}

#[test]
fn pruning_is_idempotent() {
    let mut f = Fixture::new();
    f.logged(1, CandidateState::Passed, 0, 500);

    let first = f.apply(generous());
    let second = f.apply(generous());

    assert_eq!(first.plan.remove.len(), 1);
    assert!(second.plan.is_empty(), "nothing left to do the second time");
}

#[test]
fn the_budget_is_reached_across_several_failures() {
    let mut f = Fixture::new();
    let (oldest, oldest_path) = f.logged(1, CandidateState::Failed, 1, 1000);
    let (_middle, middle_path) = f.logged(2, CandidateState::Failed, 1, 1000);
    let (_newest, newest_path) = f.logged(3, CandidateState::Failed, 1, 1000);

    let pruned = f.apply(ByteSize::new(2500));

    assert_eq!(pruned.plan.bytes_before, 3000);
    assert!(pruned.plan.bytes_after <= 2500);
    assert!(
        !f.files.contains_key(&oldest_path),
        "the oldest failure goes first"
    );
    assert!(f.files.contains_key(&middle_path));
    assert!(f.files.contains_key(&newest_path));
    assert_eq!(pruned.tails_kept, 1);
    assert!(f.row(oldest).tail.is_some());
}

#[test]
fn logs_for_another_base_branch_are_not_surveyed() {
    let mut f = Fixture::new();
    f.logged(1, CandidateState::Passed, 0, 500);
    let measured = f.measured("release");
    assert!(survey(&mut f.store, REPO, "release", &measured).is_empty());
}

#[test]
fn a_missing_log_directory_is_not_an_error() {
    let f = Fixture::new();
    assert!(f.dry_run(generous()).is_empty());
}

/// The row says that the log has gone before the file goes, so a prune that
/// cannot remove it leaves the honest state behind.
#[test]
fn a_log_that_cannot_be_removed_stops_the_prune() {
    let mut f = Fixture::new();
    let (run, path) = f.logged(1, CandidateState::Failed, 1, 500);
    let measured = f.measured(BASE);
    let (mut prune, first) =
        apply(&mut f.store, REPO, BASE, &measured, ByteSize::new(1)).unwrap();
    assert_eq!(
        first,
        PruneAction::ReadTail {
            path: path.clone(),
            lines: RETAINED_TAIL_LINES
        }
    );
    assert!(f.row(run).log_path.is_some());
    let next = prune.next(&mut f.store, PruneEvent::Tail(None));
    assert_eq!(next, PruneAction::RemoveLog { path: path.clone() });
    assert_eq!(f.row(run).log_path, None);
    let next = prune.next(
        &mut f.store,
        PruneEvent::Removed(Err(Failure::new("read-only"))),
    );
    assert_eq!(next, PruneAction::Finish);
    assert_eq!(
        prune.finish().unwrap_err().message,
        format!("removing the {} log {path}: read-only", "gate")
    );
}

#[test]
fn logs_that_cannot_be_counted_have_no_plan() {
    let mut f = Fixture::new();
    f.logged(1, CandidateState::Failed, 1, 1);
    f.logged(2, CandidateState::Failed, 1, 1);
    let mut measured = f.measured(BASE);
    for m in measured.iter_mut() {
        m.bytes = Some(u64::MAX);
    }
    assert!(dry_run(&f.store, REPO, BASE, &measured, generous()).is_none());
    assert!(apply(&mut f.store, REPO, BASE, &measured, generous()).is_none());
}

/// Not even the row of a log that has vanished is put right.
#[test]
fn a_dry_run_leaves_the_row_of_a_vanished_log_alone() {
    let mut f = Fixture::new();
    let (run, path) = f.logged(1, CandidateState::Failed, 1, 500);
    f.files.remove(&path);

    assert!(f.dry_run(ByteSize::new(1)).is_empty());
    assert_eq!(f.row(run).log_path, Some(path));
    f.apply(ByteSize::new(1));
    assert_eq!(f.row(run).log_path, None);
}

#[test]
fn a_dry_run_says_exactly_what_a_prune_removes() {
    let mut f = Fixture::new();
    f.logged(1, CandidateState::Passed, 0, 10);
    f.logged(2, CandidateState::Failed, 1, 1000);
    f.logged(3, CandidateState::Failed, 1, 1000);

    let plan = f.dry_run(ByteSize::new(1500));
    let pruned = f.apply(ByteSize::new(1500));
    assert_eq!(plan.remove.len(), 2);
    assert_eq!(pruned.plan, plan);
    assert_eq!(pruned.tails_kept, 1);
    assert!(f.apply(ByteSize::new(1500)).plan.is_empty());
}

/// Whatever is measured, a survey goes by the rows: a run in flight, or of
/// another queue, is not for it to touch.
#[test]
fn a_survey_goes_by_the_rows() {
    let mut f = Fixture::new();
    let (gated, gated_path) = f.logged(1, CandidateState::Testing, 1, 500);
    let (failed, failed_path) = f.logged(2, CandidateState::Failed, 1, 500);
    let measured: Vec<Measured> = [(gated, &gated_path), (failed, &failed_path)]
        .into_iter()
        .map(|(run_id, path)| Measured {
            run: LoggedRun {
                run_id,
                candidate_id: f.row(run_id).candidate_id,
                log_path: path.clone(),
                passed: false,
            },
            bytes: None,
        })
        .collect();

    assert!(survey(&mut f.store, REPO, "release", &measured).is_empty());
    assert!(f.row(failed).log_path.is_some(), "it is of another queue");
    assert!(survey(&mut f.store, REPO, BASE, &measured).is_empty());
    assert!(f.row(gated).log_path.is_some(), "it is still being gated");
    assert_eq!(f.row(failed).log_path, None);
}

/// A pruned failure keeps its last forty lines.
#[test]
fn a_pruned_failure_keeps_forty_lines() {
    let mut f = Fixture::new();
    let (run, path) = f.logged(1, CandidateState::Failed, 1, 1);
    let lines: Vec<String> = (1..=50).map(|n| format!("line {n}")).collect();
    f.files.insert(path, lines.join("\n").into_bytes());

    f.apply(ByteSize::new(1));
    assert_eq!(f.row(run).tail, Some(lines[10..].join("\n")));
}
