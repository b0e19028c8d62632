//! Ticks, and the loop around them, driven to their ends.

use std::cell::{Cell, RefCell};
use std::collections::{BTreeMap, HashMap, HashSet, VecDeque};

use sasse::bytes::ByteSize;
use sasse::config::CONFIG_PATH;
use sasse::failure::Failure;
use sasse::gate::{Gate, Verdict};
use sasse::git::{normalise_ref, Git, MergeOutcome, RefUpdate, Sha, Worktree};
use sasse::logs::tail_text;
use sasse::notify::{Delivery, Notifier, Silent};
use sasse::queue::lease;
use sasse::queue::store::{Blame, Entry, Settled, Store};
use sasse::queue::{Acquisition, EntryId, EntryState, Liveness};
use sasse::report;
use sasse::retention::{Measured, PruneAction, PruneEvent};
use sasse::tick::{log_path, perform, Action, Event, TickError, Worker};
use sasse::time::{Span, Timestamp};
use sasse::worker::{
    pause_after, Abandoned, Fault, Progress, TickOutcome, TickReport, Work, WorkAction,
    WorkOptions, WorkSummary,
};

const REPO: &str = "/repo";
const BASE: &str = "main";
const LOGS: &str = "/logs";
const CONFIG: &str = "gate = \"run-the-gate\"\n";
const US: i32 = 4242;

fn now() -> Timestamp {
    Timestamp::new(1_700_000_000, 0).unwrap()
}

fn commit(seed: u8) -> Sha {
    Sha::parse(&format!("{seed:02x}").repeat(20)).expect("20 bytes is a valid object id")
}

fn base() -> Sha {
    commit(1)
}

#[derive(Default)]
struct State {
    refs: HashMap<String, Sha>,
    worktrees: Vec<(String, Option<String>)>,
    head: Option<Sha>,
    conflicting: HashSet<String>,
    everywhere: HashMap<String, String>,
    files: HashMap<(String, String), String>,
    minted: u32,
}

/// An in-memory git.
struct FakeGit {
    state: RefCell<State>,
}

impl FakeGit {
    fn new() -> Self {
        Self {
            state: RefCell::new(State::default()),
        }
    }

    fn with_branch(self, refname: &str, at: &Sha) -> Self {
        self.force_branch(refname, at);
        self
    }

    fn with_checkout(self, path: &str, branch: Option<&str>) -> Self {
        self.state
            .borrow_mut()
            .worktrees
            .push((path.to_string(), branch.map(|b| b.to_string())));
        self
    }

    fn with_conflict(self, at: &Sha) -> Self {
        self.state
            .borrow_mut()
            .conflicting
            .insert(at.as_str().to_string());
        self
    }

    fn with_file_everywhere(self, path: &str, text: &str) -> Self {
        self.state
            .borrow_mut()
            .everywhere
            .insert(path.to_string(), text.to_string());
        self
    }

    fn with_file(self, at: &Sha, path: &str, text: &str) -> Self {
        self.state.borrow_mut().files.insert(
            (at.as_str().to_string(), path.to_string()),
            text.to_string(),
        );
        self
    }

    fn force_branch(&self, refname: &str, to: &Sha) {
        self.state
            .borrow_mut()
            .refs
            .insert(normalise_ref(refname), to.clone());
    }
}

impl Git for FakeGit {
    fn resolve(&self, refname: &str) -> Result<Sha, Failure> {
        self.state
            .borrow()
            .refs
            .get(&normalise_ref(refname))
            .cloned()
            .ok_or_else(|| Failure::new(&format!("no such ref: {refname}")))
    }

    fn worktrees(&self) -> Result<Vec<Worktree>, Failure> {
        Ok(self
            .state
            .borrow()
            .worktrees
            .iter()
            .map(|(path, branch)| Worktree {
                path: path.clone(),
                branch: branch.clone(),
            })
            .collect())
    }

    fn checkout_detached(&self, at: &Sha) -> Result<(), Failure> {
        self.state.borrow_mut().head = Some(at.clone());
        Ok(())
    }

    fn merge(&self, commit: &Sha, _message: &str) -> Result<MergeOutcome, Failure> {
        let mut state = self.state.borrow_mut();
        if state.head.is_none() {
            return Err(Failure::new("nothing checked out to merge into"));
        }
        if state.conflicting.contains(commit.as_str()) {
            return Ok(MergeOutcome::Conflicted);
        }
        state.minted += 1;
        let merged = Sha::parse(&format!("{:040x}", 0xc0ffee00u64 + u64::from(state.minted)))
            .expect("a synthesised id is 40 hex digits");
        state.head = Some(merged.clone());
        Ok(MergeOutcome::Merged(merged))
    }

    fn fast_forward(&self, refname: &str, from: &Sha, to: &Sha) -> Result<RefUpdate, Failure> {
        let mut state = self.state.borrow_mut();
        let key = normalise_ref(refname);
        match state.refs.get(&key) {
            None => Err(Failure::new(&format!("no such ref: {refname}"))),
            Some(current) if current != from => Ok(RefUpdate::Stale),
            Some(_) => {
                state.refs.insert(key, to.clone());
                Ok(RefUpdate::Updated)
            }
        }
    }

    fn read_file_at(&self, at: &Sha, path: &str) -> Result<Option<String>, Failure> {
        let state = self.state.borrow();
        let own = state
            .files
            .get(&(at.as_str().to_string(), path.to_string()));
        Ok(own.or_else(|| state.everywhere.get(path)).cloned())
    }
}

/// A gate whose verdicts are decided in advance.
struct FakeGate {
    script: RefCell<VecDeque<Verdict>>,
    fallback: Verdict,
    calls: RefCell<Vec<(String, Sha)>>,
}

impl FakeGate {
    fn passing() -> Self {
        Self::always(Verdict::Passed)
    }

    fn failing() -> Self {
        Self::always(Verdict::Failed { exit_code: Some(1) })
    }

    fn always(fallback: Verdict) -> Self {
        Self {
            script: RefCell::new(VecDeque::new()),
            fallback,
            calls: RefCell::new(Vec::new()),
        }
    }

    /// Answer these verdicts in order, and pass after them.
    fn scripted(verdicts: impl IntoIterator<Item = Verdict>) -> Self {
        Self {
            script: RefCell::new(verdicts.into_iter().collect()),
            fallback: Verdict::Passed,
            calls: RefCell::new(Vec::new()),
        }
    }

    /// Every invocation so far, as (command, candidate).
    fn calls(&self) -> Vec<(String, Sha)> {
        self.calls.borrow().clone()
    }
}

impl Gate for FakeGate {
    fn run(
        &self,
        command: &str,
        candidate: &Sha,
        _log_path: &str,
        _max_log_size: ByteSize,
    ) -> Result<Verdict, Failure> {
        self.calls
            .borrow_mut()
            .push((command.to_string(), candidate.clone()));
        let scripted = self.script.borrow_mut().pop_front();
        Ok(scripted.unwrap_or(self.fallback))
    }
}

/// A hook that remembers what it was told, and answers the same every time.
struct Recorder {
    told: RefCell<Vec<(String, EntryId, EntryState, String)>>,
    answer: fn() -> Delivery,
}

impl Recorder {
    fn answering(answer: fn() -> Delivery) -> Self {
        Self {
            told: RefCell::new(Vec::new()),
            answer,
        }
    }
}

impl Notifier for Recorder {
    fn settled(
        &self,
        command: &str,
        event: &Settled,
        repo_path: &str,
        base_branch: &str,
    ) -> Delivery {
        assert_eq!((repo_path, base_branch), (REPO, BASE));
        self.told.borrow_mut().push((
            command.to_string(),
            event.entry,
            event.state,
            event.reason.clone().unwrap_or_default(),
        ));
        (self.answer)()
    }
}

/// The log files, by path.
type Files = RefCell<BTreeMap<String, Vec<u8>>>;

/// Run one tick to its end.
fn tick_with<G: Git, T: Gate, N: Notifier>(
    store: &mut Store,
    git: &G,
    gate: &T,
    notifier: &N,
    files: &Files,
    interrupted: &dyn Fn() -> bool,
) -> Result<TickReport, TickError> {
    let worker = Worker::new(REPO, BASE, LOGS);
    let (mut tick, first) = worker.tick(store, &now(), US, Liveness::Present);
    let mut action = first;
    loop {
        let event = match perform(&action, git, gate, notifier) {
            Some(event) => event,
            None => match action {
                Action::MeasureLogs { runs } => Event::Measured(
                    runs.into_iter()
                        .map(|run| Measured {
                            bytes: files.borrow().get(&run.log_path).map(|f| f.len() as u64),
                            run,
                        })
                        .collect(),
                ),
                Action::Prune(PruneAction::ReadTail { path, lines }) => {
                    Event::Pruned(PruneEvent::Tail(
                        files.borrow().get(&path).map(|f| tail_text(f, lines)),
                    ))
                }
                Action::Prune(PruneAction::RemoveLog { path }) => {
                    files.borrow_mut().remove(&path);
                    Event::Pruned(PruneEvent::Removed(Ok(())))
                }
                Action::AskInterrupted => Event::Interrupted(interrupted()),
                Action::Finish => return tick.into_result().expect("it is over"),
                other => panic!("nobody to do {other:?}"),
            },
        };
        action = tick.next(store, event, &now());
    }
}

fn tick<G: Git, T: Gate>(store: &mut Store, git: &G, gate: &T) -> Result<TickOutcome, TickError> {
    let files = RefCell::new(BTreeMap::new());
    tick_with(store, git, gate, &Silent, &files, &|| false).map(|report| report.outcome)
}

/// A repository whose base branch is checked out nowhere and which has a gate
/// configured in every commit.
fn repo() -> FakeGit {
    repo_with_gate(CONFIG)
}

fn repo_with_gate(config: &str) -> FakeGit {
    FakeGit::new()
        .with_branch("refs/heads/main", &base())
        .with_file_everywhere(CONFIG_PATH, config)
        .with_checkout("/integration", None)
}

fn queue_branch(store: &mut Store, name: &str, at: &Sha) -> EntryId {
    store.enqueue(REPO, BASE, name, at, &now()).unwrap()
}

fn entry_state(store: &Store, id: EntryId) -> &str {
    let row = store.entries().iter().find(|e| e.id == id).unwrap();
    row.state.as_str()
}

fn entry_attempts(store: &Store, id: EntryId) -> u32 {
    store
        .entries()
        .iter()
        .find(|e| e.id == id)
        .unwrap()
        .attempts
}

fn outcome_of(store: &Store, candidate: i64, entry: EntryId) -> &str {
    let row = store
        .members()
        .iter()
        .find(|m| m.candidate_id == candidate && m.entry_id == entry)
        .unwrap();
    row.outcome.as_str()
}

fn candidate_state(store: &Store, id: i64) -> &str {
    let row = store.candidates().iter().find(|c| c.id == id).unwrap();
    row.state.as_str()
}

#[test]
fn an_empty_queue_does_nothing() {
    let mut store = Store::new();
    let git = repo();
    let gate = FakeGate::passing();

    let outcome = tick(&mut store, &git, &gate).unwrap();

    assert_eq!(outcome, TickOutcome::Idle);
    assert!(gate.calls().is_empty(), "nothing to gate");
}

#[test]
fn a_branch_held_by_another_worker_is_left_alone() {
    let mut store = Store::new();
    let git = repo();
    let gate = FakeGate::passing();
    queue_branch(&mut store, "feat/a", &commit(2));

    // Somebody else, alive and unexpired.
    let held = lease::acquire(
        &mut store,
        REPO,
        BASE,
        Span::from_secs(600),
        &now(),
        7,
        Liveness::Present,
    )
    .unwrap();
    assert!(matches!(held, Acquisition::Acquired { .. }));

    let outcome = tick(&mut store, &git, &gate).unwrap();

    assert_eq!(outcome, TickOutcome::AnotherWorkerHolds { holder_pid: 7 });
    assert!(gate.calls().is_empty());
    assert_eq!(store.leases().len(), 1, "the other worker keeps its lease");
}

/// Git will move a checked-out branch without complaint, so the tick must refuse
/// before it does any work.
#[test]
fn a_checked_out_base_branch_stops_the_tick() {
    let mut store = Store::new();
    let git = FakeGit::new()
        .with_branch("refs/heads/main", &base())
        .with_file_everywhere(CONFIG_PATH, CONFIG)
        .with_checkout("/primary", Some("refs/heads/main"));
    let gate = FakeGate::passing();
    let a = queue_branch(&mut store, "feat/a", &commit(2));

    let outcome = tick(&mut store, &git, &gate).unwrap();

    match outcome {
        TickOutcome::BaseCheckedOut { holders } => {
            assert_eq!(holders, vec!["/primary".to_string()])
        }
        other => panic!("expected a refusal, got {other:?}"),
    }
    assert_eq!(entry_state(&store, a), "queued", "nothing was touched");
    assert!(gate.calls().is_empty());
}

#[test]
fn a_missing_gate_config_fails_the_tick_rather_than_guessing() {
    let mut store = Store::new();
    let git = FakeGit::new()
        .with_branch("refs/heads/main", &base())
        .with_checkout("/integration", None);
    let gate = FakeGate::passing();
    queue_branch(&mut store, "feat/a", &commit(2));

    let failed = tick(&mut store, &git, &gate).unwrap_err();

    assert!(
        failed.message().contains(CONFIG_PATH),
        "the error should name the missing file: {failed:?}"
    );
    assert!(gate.calls().is_empty());
}

/// A failed tick must not leave the branch locked until the lease expires.
#[test]
fn a_failing_tick_still_gives_the_lease_back() {
    let mut store = Store::new();
    let git = FakeGit::new()
        .with_branch("refs/heads/main", &base())
        .with_checkout("/integration", None);
    let gate = FakeGate::passing();
    queue_branch(&mut store, "feat/a", &commit(2));

    let _expected = tick(&mut store, &git, &gate).unwrap_err();

    assert_eq!(store.leases().len(), 0, "the lease was not released");
}

#[test]
fn a_clean_entry_that_passes_the_gate_lands() {
    let mut store = Store::new();
    let git = repo();
    let gate = FakeGate::passing();
    let a = queue_branch(&mut store, "feat/a", &commit(2));

    let outcome = tick(&mut store, &git, &gate).unwrap();

    let (candidate, landed_at) = match outcome {
        TickOutcome::Landed {
            candidate,
            entries,
            at,
        } => {
            assert_eq!(entries, 1);
            (candidate, at)
        }
        other => panic!("expected a landing, got {other:?}"),
    };

    assert_eq!(entry_state(&store, a), "merged");
    assert_eq!(outcome_of(&store, candidate, a), "passed");
    assert_eq!(candidate_state(&store, candidate), "passed");
    assert_eq!(
        git.resolve("refs/heads/main").unwrap(),
        landed_at,
        "the base must point at the commit that was gated"
    );
    assert_eq!(gate.calls()[0].1, landed_at);
    assert_eq!(
        store.candidates()[0].candidate_sha.as_deref(),
        Some(landed_at.as_str())
    );
    assert!(store.leases().is_empty());
}

#[test]
fn the_gate_command_comes_from_the_config() {
    let mut store = Store::new();
    let git = repo();
    let gate = FakeGate::passing();
    queue_branch(&mut store, "feat/a", &commit(2));

    tick(&mut store, &git, &gate).unwrap();

    assert_eq!(gate.calls().len(), 1);
    assert_eq!(gate.calls()[0].0, "run-the-gate");
}

/// A branch that changes sasse.toml does not get to choose the command that gates
/// it.
#[test]
fn a_candidates_own_config_is_not_used_as_the_gate() {
    let mut store = Store::new();
    let hostile = commit(2);
    let git = repo().with_file(
        &hostile,
        CONFIG_PATH,
        "gate = \"something-nobody-reviewed\"\n",
    );
    let gate = FakeGate::passing();
    queue_branch(&mut store, "feat/a", &hostile);

    tick(&mut store, &git, &gate).unwrap();

    assert_eq!(
        gate.calls()[0].0,
        "run-the-gate",
        "the command must come from the base, not from the branch being gated"
    );
}

#[test]
fn a_conflicting_entry_is_blamed_without_running_the_gate() {
    let mut store = Store::new();
    let bad = commit(9);
    let git = repo().with_conflict(&bad);
    let gate = FakeGate::passing();
    let a = queue_branch(&mut store, "feat/bad", &bad);

    let outcome = tick(&mut store, &git, &gate).unwrap();

    match outcome {
        TickOutcome::Blamed {
            entry,
            blame,
            reason,
            ..
        } => {
            assert_eq!(entry, a);
            assert_eq!(reason, Fault::Conflict);
            assert_eq!(blame, Blame::Requeued, "it still has attempts left");
        }
        other => panic!("expected a blame, got {other:?}"),
    }
    assert!(
        gate.calls().is_empty(),
        "gating a batch that will not assemble proves nothing"
    );
    assert_eq!(entry_attempts(&store, a), 1);
}

#[test]
fn a_lone_entry_that_fails_the_gate_is_blamed() {
    let mut store = Store::new();
    let git = repo();
    let gate = FakeGate::failing();
    let a = queue_branch(&mut store, "feat/a", &commit(2));

    let outcome = tick(&mut store, &git, &gate).unwrap();

    match outcome {
        TickOutcome::Blamed { entry, reason, .. } => {
            assert_eq!(entry, a);
            assert_eq!(reason, Fault::GateFailed);
        }
        other => panic!("expected a blame, got {other:?}"),
    }
    assert_eq!(entry_attempts(&store, a), 1);
    assert_eq!(entry_state(&store, a), "queued");
}

#[test]
fn an_entry_is_evicted_once_its_retry_budget_is_spent() {
    let mut store = Store::new();
    let git =
        repo().with_file_everywhere(CONFIG_PATH, "gate = \"run-the-gate\"\nmax_attempts = 2\n");
    let gate = FakeGate::failing();
    let a = queue_branch(&mut store, "feat/a", &commit(2));

    let first = tick(&mut store, &git, &gate).unwrap();
    assert!(matches!(
        first,
        TickOutcome::Blamed {
            blame: Blame::Requeued,
            ..
        }
    ));

    let second = tick(&mut store, &git, &gate).unwrap();
    assert!(
        matches!(
            second,
            TickOutcome::Blamed {
                blame: Blame::Evicted,
                ..
            }
        ),
        "got {second:?}"
    );
    assert_eq!(entry_state(&store, a), "evicted");
    assert_eq!(entry_attempts(&store, a), 2);
}

#[test]
fn a_failed_batch_is_halved_and_the_rest_goes_back_in_the_queue() {
    let mut store = Store::new();
    let git = repo();
    let gate = FakeGate::failing();
    let ids: Vec<EntryId> = (2..6)
        .map(|n| queue_branch(&mut store, &format!("feat/{n}"), &commit(n)))
        .collect();

    let outcome = tick(&mut store, &git, &gate).unwrap();

    let (failed, next) = match outcome {
        TickOutcome::Split {
            failed,
            next,
            retrying,
        } => {
            assert_eq!(retrying, 2, "four entries halve to two");
            (failed, next)
        }
        other => panic!("expected a split, got {other:?}"),
    };

    assert_eq!(candidate_state(&store, failed), "failed");
    let retried = store.candidate_entries(next).unwrap();
    assert_eq!(
        retried.iter().map(|e| e.id).collect::<Vec<_>>(),
        ids[..2].to_vec(),
        "the first half, in merge order"
    );
    assert_eq!(entry_state(&store, ids[2]), "queued");
    assert_eq!(entry_state(&store, ids[3]), "queued");

    for id in &ids {
        assert_eq!(
            entry_attempts(&store, *id),
            0,
            "a split blames nobody, so nobody pays"
        );
    }
}

#[test]
fn the_batch_is_capped_by_the_config() {
    let mut store = Store::new();
    let git = repo().with_file_everywhere(CONFIG_PATH, "gate = \"run-the-gate\"\nmax_batch = 2\n");
    let gate = FakeGate::passing();
    for n in 2..7 {
        queue_branch(&mut store, &format!("feat/{n}"), &commit(n));
    }

    let outcome = tick(&mut store, &git, &gate).unwrap();

    match outcome {
        TickOutcome::Landed { entries, .. } => assert_eq!(entries, 2),
        other => panic!("expected a landing, got {other:?}"),
    }
}

struct MovesTheBase<'g> {
    git: &'g FakeGit,
}

impl Gate for MovesTheBase<'_> {
    fn run(&self, _: &str, _: &Sha, _: &str, _: ByteSize) -> Result<Verdict, Failure> {
        self.git.force_branch("refs/heads/main", &commit(77));
        Ok(Verdict::Passed)
    }
}

/// It passed, but the base moved before the result could be used, so it is thrown
/// away rather than forced.
#[test]
fn a_base_that_moves_during_the_gate_discards_the_candidate() {
    let mut store = Store::new();
    let git = repo();
    let gate = MovesTheBase { git: &git };
    let a = queue_branch(&mut store, "feat/a", &commit(2));

    let outcome = tick(&mut store, &git, &gate).unwrap();

    match outcome {
        TickOutcome::Abandoned {
            requeued, reason, ..
        } => {
            assert_eq!(requeued, 1);
            assert_eq!(reason, Abandoned::BaseMoved);
        }
        other => panic!("expected the candidate to be discarded, got {other:?}"),
    }
    assert_eq!(entry_state(&store, a), "queued");
    assert_eq!(
        entry_attempts(&store, a),
        0,
        "a moving base is nobody's fault"
    );
    assert_eq!(
        git.resolve("refs/heads/main").unwrap(),
        commit(77),
        "the base keeps whatever landed underneath us"
    );
}

fn tick_while(store: &mut Store, git: &FakeGit, gate: &FakeGate, stopping: bool) -> TickOutcome {
    let files = RefCell::new(BTreeMap::new());
    tick_with(store, git, gate, &Silent, &files, &|| stopping)
        .unwrap()
        .outcome
}

/// A signal reaches the shell too, so its non-zero exit is the interruption rather
/// than a verdict on the branch.
#[test]
fn a_gate_killed_by_a_shutdown_is_not_the_branchs_fault() {
    let mut store = Store::new();
    let a = queue_branch(&mut store, "feat/a", &commit(2));

    let outcome = tick_while(&mut store, &repo(), &FakeGate::failing(), true);

    match outcome {
        TickOutcome::Abandoned {
            requeued, reason, ..
        } => {
            assert_eq!(requeued, 1);
            assert_eq!(reason, Abandoned::Interrupted);
        }
        other => panic!("expected the candidate to be discarded, got {other:?}"),
    }
    assert_eq!(entry_state(&store, a), "queued");
    assert_eq!(
        entry_attempts(&store, a),
        0,
        "an interruption must not spend a retry"
    );
}

#[test]
fn a_gate_failure_with_no_shutdown_pending_is_still_a_verdict() {
    let mut store = Store::new();
    let a = queue_branch(&mut store, "feat/a", &commit(2));

    let outcome = tick_while(&mut store, &repo(), &FakeGate::failing(), false);

    assert!(
        matches!(outcome, TickOutcome::Blamed { .. }),
        "got {outcome:?}"
    );
    assert_eq!(entry_attempts(&store, a), 1);
}

#[test]
fn an_unfinished_candidate_built_on_a_stale_base_is_discarded() {
    let mut store = Store::new();
    let git = repo();
    let gate = FakeGate::passing();
    let a = queue_branch(&mut store, "feat/a", &commit(2));

    // A candidate left over from a base that has since moved on.
    let entry = Entry {
        id: a,
        branch: "feat/a".into(),
        branch_sha: commit(2),
        attempts: 0,
    };
    let stale = store
        .open_candidate(REPO, BASE, &commit(55), &vec![entry], None, &now())
        .unwrap();

    let outcome = tick(&mut store, &git, &gate).unwrap();

    assert_eq!(
        outcome,
        TickOutcome::Abandoned {
            candidate: stale,
            requeued: 1,
            reason: Abandoned::BaseMoved,
        }
    );
    assert!(gate.calls().is_empty());
    assert_eq!(entry_attempts(&store, a), 0);
}

/// The whole point of separating skipped from culprit: a neighbour's failure costs
/// an entry nothing.
#[test]
fn entries_skipped_because_a_neighbour_conflicted_pay_nothing() {
    let mut store = Store::new();
    let bad = commit(9);
    let git = repo().with_conflict(&bad);
    let gate = FakeGate::passing();
    let good = queue_branch(&mut store, "feat/good", &commit(2));
    let culprit = queue_branch(&mut store, "feat/bad", &bad);

    let outcome = tick(&mut store, &git, &gate).unwrap();

    let candidate = match outcome {
        TickOutcome::Blamed { candidate, .. } => candidate,
        other => panic!("expected a blame, got {other:?}"),
    };

    assert_eq!(outcome_of(&store, candidate, culprit), "culprit");
    assert_eq!(outcome_of(&store, candidate, good), "skipped");
    assert_eq!(entry_attempts(&store, culprit), 1);
    assert_eq!(entry_attempts(&store, good), 0);
    assert_eq!(entry_state(&store, good), "queued");
}

/// The cascade, driven to completion: four entries, one of which fails on its own.
/// Bisection must land the three innocents and isolate the fourth.
#[test]
fn repeated_ticks_isolate_the_culprit_and_land_everyone_else() {
    let mut store = Store::new();
    let git = repo();
    // [a,b,c,d] fails; [a,b] passes and lands; [c,d] fails; [c] passes and lands;
    // [d] fails alone and is therefore the culprit.
    let gate = FakeGate::scripted([
        Verdict::Failed { exit_code: Some(1) },
        Verdict::Passed,
        Verdict::Failed { exit_code: Some(1) },
        Verdict::Passed,
        Verdict::Failed { exit_code: Some(1) },
    ]);
    let ids: Vec<EntryId> = (2..6)
        .map(|n| queue_branch(&mut store, &format!("feat/{n}"), &commit(n)))
        .collect();

    let mut outcomes = Vec::new();
    for _ in 0..5 {
        outcomes.push(tick(&mut store, &git, &gate).unwrap());
    }

    assert!(
        matches!(outcomes[0], TickOutcome::Split { retrying: 2, .. }),
        "tick 1 halves the batch: {:?}",
        outcomes[0]
    );
    assert!(
        matches!(outcomes[1], TickOutcome::Landed { entries: 2, .. }),
        "tick 2 lands the clean half: {:?}",
        outcomes[1]
    );
    assert!(
        matches!(outcomes[2], TickOutcome::Split { retrying: 1, .. }),
        "tick 3 halves the remaining pair: {:?}",
        outcomes[2]
    );
    assert!(
        matches!(outcomes[3], TickOutcome::Landed { entries: 1, .. }),
        "tick 4 lands the innocent one: {:?}",
        outcomes[3]
    );
    match &outcomes[4] {
        TickOutcome::Blamed { entry, reason, .. } => {
            assert_eq!(*entry, ids[3], "the last one standing is the culprit");
            assert_eq!(*reason, Fault::GateFailed);
        }
        other => panic!("tick 5 should isolate the culprit, got {other:?}"),
    }

    for innocent in &ids[..3] {
        assert_eq!(
            entry_state(&store, *innocent),
            "merged",
            "entry {innocent} should have landed"
        );
        assert_eq!(
            entry_attempts(&store, *innocent),
            0,
            "entry {innocent} was never at fault"
        );
    }
    assert_eq!(entry_attempts(&store, ids[3]), 1);
}

#[test]
fn every_gate_run_is_recorded_with_its_log() {
    let mut store = Store::new();
    let git = repo();
    let gate = FakeGate::passing();
    queue_branch(&mut store, "feat/a", &commit(2));

    tick(&mut store, &git, &gate).unwrap();

    let run = store.runs().last().unwrap();
    assert_eq!(run.command, "run-the-gate");
    assert_eq!(run.exit_code, Some(0));
    let log = run.log_path.clone().unwrap();
    assert!(log.ends_with(".log"), "the log path is recorded: {log}");
    assert_eq!(log, log_path(LOGS, 1));
    assert_eq!(log, "/logs/candidate-1.log");
    assert_eq!(log_path("", 7), "candidate-7.log");
    assert_eq!(log_path("logs/", 7), "logs/candidate-7.log");
}

/// Each entry that settles is announced once, after the queue's own record is made
/// and before the lease is given back, and a hook that fails changes nothing.
#[test]
fn a_landing_is_announced_entry_by_entry() {
    let mut store = Store::new();
    let git = repo_with_gate("gate = \"x\"\non_settle = \"tell\"\n");
    let a = queue_branch(&mut store, "feat/a", &commit(2));
    let b = queue_branch(&mut store, "feat/b", &commit(3));
    let hook = Recorder::answering(|| Delivery::TimedOut);
    let files = RefCell::new(BTreeMap::new());

    let report = tick_with(
        &mut store,
        &git,
        &FakeGate::passing(),
        &hook,
        &files,
        &|| false,
    )
    .unwrap();

    assert!(matches!(report.outcome, TickOutcome::Landed { entries: 2, .. }));
    assert_eq!(
        hook.told.borrow().clone(),
        vec![
            ("tell".to_string(), a, EntryState::Merged, String::new()),
            ("tell".to_string(), b, EntryState::Merged, String::new()),
        ]
    );
    assert_eq!(report.announcements.len(), 2);
    assert!(report.announcements.iter().all(|a| !a.delivery.delivered()));
    assert_eq!(entry_state(&store, a), "merged");
    assert_eq!(
        report::failed_hooks(&report.announcements)[0],
        "  on_settle for feat/a (merged): still running after 10s, killed"
    );
}

/// A requeue announces nothing, being work that has not finished happening.
#[test]
fn an_eviction_is_announced_and_a_requeue_is_not() {
    let mut store = Store::new();
    let git = repo_with_gate("gate = \"x\"\nmax_attempts = 2\non_settle = \"tell\"\n");
    let a = queue_branch(&mut store, "feat/a", &commit(2));
    let hook = Recorder::answering(|| Delivery::Delivered);
    let gate = FakeGate::failing();
    let files = RefCell::new(BTreeMap::new());

    let mut ticked = || tick_with(&mut store, &git, &gate, &hook, &files, &|| false).unwrap();
    assert!(ticked().announcements.is_empty());
    assert!(hook.told.borrow().is_empty());

    let report = ticked();
    assert_eq!(report.announcements.len(), 1);
    assert_eq!(
        hook.told.borrow().clone(),
        vec![(
            "tell".to_string(),
            a,
            EntryState::Evicted,
            Fault::GateFailed.description()
        )]
    );
}

#[test]
fn without_a_hook_nothing_is_announced() {
    let mut store = Store::new();
    let hook = Recorder::answering(|| Delivery::Delivered);
    let files = RefCell::new(BTreeMap::new());
    queue_branch(&mut store, "feat/a", &commit(2));
    let report = tick_with(
        &mut store,
        &repo(),
        &FakeGate::passing(),
        &hook,
        &files,
        &|| false,
    )
    .unwrap();
    assert!(report.announcements.is_empty());
    assert!(hook.told.borrow().is_empty());
}

/// Pruning runs at the start of each tick.
#[test]
fn a_tick_prunes_what_the_ticks_before_it_left() {
    let mut store = Store::new();
    let git = repo();
    queue_branch(&mut store, "feat/a", &commit(2));
    tick(&mut store, &git, &FakeGate::passing()).unwrap();
    assert!(store.runs()[0].log_path.is_some());

    let files: Files = RefCell::new(BTreeMap::new());
    files
        .borrow_mut()
        .insert("/logs/candidate-1.log".to_string(), b"green\n".to_vec());
    let report = tick_with(
        &mut store,
        &git,
        &FakeGate::passing(),
        &Silent,
        &files,
        &|| false,
    )
    .unwrap();
    assert_eq!(report.outcome, TickOutcome::Idle);
    assert!(files.borrow().is_empty(), "the pass had nothing to explain");
    assert_eq!(store.runs()[0].log_path, None);
}

/// A candidate whose worker died is resumed by the next tick.
#[test]
fn an_unfinished_candidate_is_resumed() {
    let mut store = Store::new();
    let git = repo();
    let a = queue_branch(&mut store, "feat/a", &commit(2));
    let batch = store.select_batch(REPO, BASE, 8).unwrap();
    let left = store
        .open_candidate(REPO, BASE, &base(), &batch, None, &now())
        .unwrap();

    let outcome = tick(&mut store, &git, &FakeGate::passing()).unwrap();
    assert!(matches!(
        outcome,
        TickOutcome::Landed { candidate, .. } if candidate == left
    ));
    assert_eq!(entry_state(&store, a), "merged");
    assert_eq!(store.candidates().len(), 1);
}

#[test]
fn each_way_a_tick_can_fail_says_so() {
    let mut store = Store::new();
    let nowhere = FakeGit::new().with_checkout("/integration", None);
    let failed = tick(&mut store, &nowhere, &FakeGate::passing()).unwrap_err();
    assert!(matches!(failed, TickError::Outside(_)));
    assert_eq!(failed.message(), "no such ref: main");

    let failed = tick(&mut store, &repo_with_gate("gate = "), &FakeGate::passing()).unwrap_err();
    assert!(matches!(failed, TickError::Config(_)), "got {failed:?}");

    let missing = FakeGit::new()
        .with_branch("main", &base())
        .with_checkout("/integration", None);
    let failed = tick(&mut store, &missing, &FakeGate::passing()).unwrap_err();
    assert_eq!(
        failed.message(),
        format!(
            "sasse.toml is missing from {}, so there is no gate to run; the queue will not guess one",
            base().as_str()
        )
    );
    assert!(store.leases().is_empty());
    assert!(!TickError::LogsTooLarge.message().is_empty());
    assert!(!TickError::NothingToBisect.message().is_empty());
}

/// No sleeping in tests: pacing is asserted directly through `pause_after`.
fn immediate() -> WorkOptions {
    WorkOptions {
        idle: Span::from_secs(0),
        give_up_after: 5,
    }
}

/// Work until the loop stops. What comes back is the summary, or why it gave up.
fn work<T: Gate>(
    store: &mut Store,
    git: &FakeGit,
    gate: &T,
    options: WorkOptions,
    stop: &dyn Fn() -> bool,
    observe: &dyn Fn(&TickOutcome),
) -> Result<WorkSummary, String> {
    let files = RefCell::new(BTreeMap::new());
    let (mut work, first) = Work::start(options);
    let mut action = first;
    let mut last: Option<Result<TickReport, TickError>> = None;
    loop {
        action = match action {
            WorkAction::CheckStop => work.next(Progress::Stop(stop())),
            WorkAction::Tick => {
                let ticked = tick_with(store, git, gate, &Silent, &files, stop);
                let next = match &ticked {
                    Ok(report) => work.next(Progress::Ticked(&report.outcome)),
                    Err(_) => work.next(Progress::Failed),
                };
                last = Some(ticked);
                next
            }
            WorkAction::Report => {
                if let Some(Ok(report)) = &last {
                    observe(&report.outcome);
                }
                work.next(Progress::Reported)
            }
            WorkAction::Sleep { .. } => work.next(Progress::Slept),
            WorkAction::Finish => return Ok(work.summary),
            WorkAction::GiveUp { failures } => {
                let why = match last {
                    Some(Err(e)) => e.message(),
                    _ => panic!("gave up without a failure"),
                };
                return Err(format!("{}: {why}", report::describe_giving_up(failures)));
            }
        };
    }
}

fn ignore(_: &TickOutcome) {}

#[test]
fn progress_is_followed_immediately_and_quiet_is_waited_out() {
    let idle = Span::from_secs(7);
    let zero = Span::from_secs(0);

    assert_eq!(
        pause_after(
            &TickOutcome::Landed {
                candidate: 1,
                entries: 1,
                at: commit(1),
            },
            idle
        ),
        zero
    );
    assert_eq!(
        pause_after(
            &TickOutcome::Split {
                failed: 1,
                next: 2,
                retrying: 1,
            },
            idle
        ),
        zero
    );
    assert_eq!(pause_after(&TickOutcome::Idle, idle), idle);
    assert_eq!(
        pause_after(&TickOutcome::AnotherWorkerHolds { holder_pid: 1 }, idle),
        idle,
        "another worker is making the progress; do not spin"
    );
    assert_eq!(
        pause_after(&TickOutcome::BaseCheckedOut { holders: vec![] }, idle),
        idle,
        "this one needs a human, so waiting is all there is"
    );
}

#[test]
fn progress_is_distinguished_from_having_nothing_to_do() {
    assert!(TickOutcome::Landed {
        candidate: 1,
        entries: 1,
        at: commit(1),
    }
    .is_progress());
    assert!(TickOutcome::Abandoned {
        candidate: 1,
        requeued: 1,
        reason: Abandoned::BaseMoved,
    }
    .is_progress());
    assert!(!TickOutcome::Idle.is_progress());
    assert!(!TickOutcome::AnotherWorkerHolds { holder_pid: 1 }.is_progress());
    assert!(!TickOutcome::BaseCheckedOut { holders: vec![] }.is_progress());
}

#[test]
fn a_stop_asked_for_up_front_does_nothing_at_all() {
    let mut store = Store::new();
    let git = repo_with_gate(CONFIG);
    let gate = FakeGate::passing();
    queue_branch(&mut store, "feat/a", &commit(2));

    let summary = work(&mut store, &git, &gate, immediate(), &|| true, &ignore).unwrap();

    assert_eq!(summary, WorkSummary::default());
    assert!(gate.calls().is_empty());
}

#[test]
fn the_loop_runs_until_the_queue_is_empty() {
    let mut store = Store::new();
    let git = repo_with_gate(CONFIG);
    let gate = FakeGate::passing();
    queue_branch(&mut store, "feat/a", &commit(2));
    queue_branch(&mut store, "feat/b", &commit(3));

    let drained = Cell::new(false);
    let summary = work(
        &mut store,
        &git,
        &gate,
        immediate(),
        &|| drained.get(),
        &|outcome| {
            if let TickOutcome::Idle = outcome {
                drained.set(true);
            }
        },
    )
    .unwrap();

    assert_eq!(summary.entries_landed, 2);
    assert_eq!(summary.failures, 0);
    assert_eq!(
        summary.ticks, 2,
        "one tick to land the batch, one to find nothing left"
    );
}

struct AlwaysBroken;

impl Gate for AlwaysBroken {
    fn run(&self, _: &str, _: &Sha, _: &str, _: ByteSize) -> Result<Verdict, Failure> {
        Err(Failure::new("it could not be run"))
    }
}

/// A gate that keeps blowing up is a worker that looks alive and achieves nothing,
/// so the loop gives up and says so.
#[test]
fn the_loop_gives_up_after_enough_consecutive_failures() {
    let mut store = Store::new();
    let git = repo_with_gate(CONFIG);
    queue_branch(&mut store, "feat/a", &commit(2));

    let reported = work(
        &mut store,
        &git,
        &AlwaysBroken,
        WorkOptions {
            idle: Span::from_secs(0),
            give_up_after: 3,
        },
        &|| false,
        &ignore,
    )
    .unwrap_err();

    assert!(
        reported.contains("3 consecutive failed ticks"),
        "the error should say why it stopped: {reported}"
    );
}

struct DiesOnTheSignal<'a> {
    stopping: &'a Cell<bool>,
}

impl Gate for DiesOnTheSignal<'_> {
    fn run(&self, _: &str, _: &Sha, _: &str, _: ByteSize) -> Result<Verdict, Failure> {
        // The signal arrives while it is running, killing it.
        self.stopping.set(true);
        Err(Failure::new("killed"))
    }
}

/// A signal kills the child processes too, so the command a tick was in the middle
/// of fails. On the way out that is the interruption, not a fault.
#[test]
fn a_failure_caused_by_the_shutdown_itself_is_not_counted() {
    let mut store = Store::new();
    let git = repo_with_gate(CONFIG);
    let stopping = Cell::new(false);
    let gate = DiesOnTheSignal {
        stopping: &stopping,
    };
    queue_branch(&mut store, "feat/a", &commit(2));

    let summary = work(
        &mut store,
        &git,
        &gate,
        immediate(),
        &|| stopping.get(),
        &ignore,
    )
    .unwrap();

    assert_eq!(
        summary.failures, 0,
        "a clean shutdown must not end with a phantom failure"
    );
    assert_eq!(summary.ticks, 0);
}

struct BreaksTwice {
    left: Cell<usize>,
}

impl Gate for BreaksTwice {
    fn run(&self, _: &str, _: &Sha, _: &str, _: ByteSize) -> Result<Verdict, Failure> {
        let left = self.left.get();
        if left > 0 {
            self.left.set(left - 1);
            return Err(Failure::new("transient trouble"));
        }
        Ok(Verdict::Passed)
    }
}

/// The budget counts failures in a row, not failures in total. A transient problem
/// must not eventually stop a healthy worker.
#[test]
fn a_failure_followed_by_success_resets_the_budget() {
    let mut store = Store::new();
    let git = repo_with_gate(CONFIG);
    let gate = BreaksTwice { left: Cell::new(2) };
    queue_branch(&mut store, "feat/a", &commit(2));

    let drained = Cell::new(false);
    let summary = work(
        &mut store,
        &git,
        &gate,
        WorkOptions {
            idle: Span::from_secs(0),
            give_up_after: 3,
        },
        &|| drained.get(),
        &|outcome| {
            if let TickOutcome::Idle = outcome {
                drained.set(true);
            }
        },
    )
    .unwrap();

    assert_eq!(summary.failures, 2);
    assert_eq!(
        summary.entries_landed, 1,
        "two failures in a row and a success, under a budget of three"
    );
}

#[test]
fn the_loop_waits_two_seconds_and_puts_up_with_five_failures_by_default() {
    let options = WorkOptions::default();
    assert_eq!(options.idle, Span::from_secs(2));
    assert_eq!(options.give_up_after, 5);
}

/// The lease that a tick takes runs for as long as the worker was told.
#[test]
fn the_lease_runs_as_long_as_the_worker_says() {
    let mut store = Store::new();
    let worker = Worker::new(REPO, BASE, LOGS).with_lease_ttl(Span::from_secs(90));
    let (_, action) = worker.tick(&mut store, &now(), US, Liveness::Present);

    assert!(matches!(action, Action::ListWorktrees));
    let expected = Timestamp::new(1_700_000_090, 0).unwrap();
    assert_eq!(store.leases()[0].expires_at, expected.to_rfc3339());
}

/// A tick whose rows could not be written is given up, and the branch is free.
#[test]
fn giving_a_tick_up_frees_the_branch() {
    let mut store = Store::new();
    let worker = Worker::new(REPO, BASE, LOGS);
    let (tick, _) = worker.tick(&mut store, &now(), US, Liveness::Present);
    assert_eq!(store.leases().len(), 1);

    tick.give_up(&mut store);
    assert!(store.leases().is_empty());
}
