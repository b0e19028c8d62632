//! One pass of the queue.
//!
//! A tick takes the lease, advances the queue by at most one candidate, and
//! gives the lease back. It is a function of what the queue holds and of what
//! came of the things it asked for, rather than a resident loop with state in
//! memory, which is what lets a crashed worker be resumed by the next tick
//! rather than needing recovery logic of its own.
//!
//! Git, the merge gate, the hook and the log files are asked for one thing at a time.
//! Between two such things the queue is read and written in one step.

use vstd::prelude::*;

use crate::bytes::ByteSize;
use crate::config::reads;
use crate::config::toml_settings;
use crate::config::Config;
use crate::config::ConfigError;
use crate::config::ConfigView;
use crate::config::CONFIG_PATH;
use crate::failure::Failure;
use crate::gate::Gate;
use crate::gate::Verdict;
use crate::git::holders;
use crate::git::holding;
use crate::git::worktree_views;
use crate::git::Git;
use crate::git::MergeOutcome;
use crate::git::RefUpdate;
use crate::git::Sha;
use crate::git::Worktree;
use crate::logs::total;
use crate::notify::Delivery;
use crate::notify::Notifier;
use crate::queue::lease;
use crate::queue::lease::acquire_gives;
use crate::queue::lease::Acquisition;
use crate::queue::lease::Lease;
use crate::queue::lease::LeaseError;
use crate::queue::lease::LeaseView;
use crate::queue::lease::Liveness;
use crate::queue::ledger::ids;
use crate::queue::ledger::CandidateView;
use crate::queue::ledger::EntryView;
use crate::queue::ledger::Ledger;
use crate::queue::ledger::LoggedRunView;
use crate::queue::ledger::SettledView;
use crate::queue::model::bisect;
use crate::queue::model::first_half;
use crate::queue::model::EntryId;
use crate::queue::model::Verdict as Bisection;
use crate::queue::state::CandidateState;
use crate::queue::store::abandon_gives;
use crate::queue::store::active_gives;
use crate::queue::store::batch_gives;
use crate::queue::store::blame_gives;
use crate::queue::store::entry_views;
use crate::queue::store::land_gives;
use crate::queue::store::logged_views;
use crate::queue::store::mark_testing_gives;
use crate::queue::store::open_gives;
use crate::queue::store::record_run_gives;
use crate::queue::store::Blame;
use crate::queue::store::Candidate;
use crate::queue::store::Entry;
use crate::queue::store::LoggedRun;
use crate::queue::store::Settled;
use crate::queue::store::Store;
use crate::queue::store::StoreError;
use crate::retention;
use crate::retention::begun;
use crate::retention::found;
use crate::retention::measured_runs;
use crate::retention::measured_views;
use crate::retention::reconciled;
use crate::retention::standing;
use crate::retention::Measured;
use crate::retention::PruneAction;
use crate::retention::PruneAsk;
use crate::retention::PruneEvent;
use crate::retention::PruneRun;
use crate::retention::PruneStage;
use crate::retention::PruneView;
use crate::text;
use crate::time::written;
use crate::time::Instant;
use crate::time::Span;
use crate::time::Timestamp;
use crate::worker::announcement_views;
use crate::worker::Abandoned;
use crate::worker::Announcement;
use crate::worker::AnnouncementView;
use crate::worker::Fault;
use crate::worker::OutcomeView;
use crate::worker::ReportView;
use crate::worker::TickOutcome;
use crate::worker::TickReport;

verus! {

/// Why a tick failed. The lease was given back all the same.
#[derive(Debug, PartialEq, Eq)]
pub enum TickError {
    /// Git, the merge gate or a log file did not work.
    Outside(Failure),
    /// The lease could not be read or taken.
    Lease(LeaseError),
    /// The queue does not take the step.
    Store(StoreError),
    /// There is no configuration at the base commit.
    NoConfig { at: String },
    /// The configuration cannot be used.
    Config(ConfigError),
    /// The merge gate logs take more bytes together than can be counted.
    LogsTooLarge,
    /// The candidate has nothing in it to look for a culprit in.
    NothingToBisect,
}

impl TickError {
    /// What the error says.
    pub open spec fn said(self) -> Seq<char> {
        match self {
            TickError::Outside(failure) => failure@,
            TickError::Lease(e) => e.said(),
            TickError::Store(e) => e.said(),
            TickError::NoConfig { at } => "sasse.toml is missing from "@ + at@
                + ", so there is no gate to run; the queue will not guess one"@,
            TickError::Config(e) => e.said(),
            TickError::LogsTooLarge => "the logs take more bytes than can be counted"@,
            TickError::NothingToBisect => "cannot bisect an empty candidate"@,
        }
    }

    pub fn message(&self) -> (r: String)
        ensures
            r@ == self.said(),
    {
        match self {
            TickError::Outside(failure) => failure.message.clone(),
            TickError::Lease(e) => e.message(),
            TickError::Store(e) => e.message(),
            TickError::NoConfig { at } => {
                let mut r = "sasse.toml is missing from ".to_string();
                r.append(at);
                r.append(", so there is no gate to run; the queue will not guess one");
                r
            },
            TickError::Config(e) => e.message(),
            TickError::LogsTooLarge => {
                "the logs take more bytes than can be counted".to_string()
            },
            TickError::NothingToBisect => "cannot bisect an empty candidate".to_string(),
        }
    }
}

/// What a tick asks for.
#[derive(Debug, PartialEq, Eq)]
#[allow(inconsistent_fields)]
pub enum Action {
    /// List every checkout attached to the repository.
    ListWorktrees,
    /// Resolve a ref.
    Resolve { refname: String },
    /// Read a file out of a commit.
    ReadFile { at: Sha, path: String },
    /// Say how big the logs of these runs are.
    MeasureLogs { runs: Vec<LoggedRun> },
    /// Do what keeping the logs inside their budget takes.
    Prune(PruneAction),
    /// Put the integration checkout on a commit.
    CheckOut { at: Sha },
    /// Merge a commit into the integration checkout.
    Merge { commit: Sha, message: String },
    /// Run the merge gate.
    RunGate { command: String, candidate: Sha, log_path: String, max_log_size: ByteSize },
    /// Say whether a stop was asked for.
    AskInterrupted,
    /// Move a branch.
    FastForward { refname: String, from: Sha, to: Sha },
    /// Tell someone that an entry settled.
    Announce { command: String, settled: Settled, repo_path: String, base_branch: String },
    /// There is nothing left to do.
    Finish,
}

/// What a tick asks for, over texts.
#[allow(inconsistent_fields)]
pub enum Ask {
    ListWorktrees,
    Resolve { refname: Seq<char> },
    ReadFile { at: Seq<char>, path: Seq<char> },
    MeasureLogs { runs: Seq<LoggedRunView> },
    Prune(PruneAsk),
    CheckOut { at: Seq<char> },
    Merge { commit: Seq<char>, message: Seq<char> },
    RunGate {
        command: Seq<char>,
        candidate: Seq<char>,
        log_path: Seq<char>,
        max_log_size: u64,
    },
    AskInterrupted,
    FastForward { refname: Seq<char>, from: Seq<char>, to: Seq<char> },
    Announce {
        command: Seq<char>,
        settled: SettledView,
        repo_path: Seq<char>,
        base_branch: Seq<char>,
    },
    Finish,
}

impl View for Action {
    type V = Ask;

    open spec fn view(&self) -> Ask {
        match self {
            Action::ListWorktrees => Ask::ListWorktrees,
            Action::Resolve { refname } => Ask::Resolve { refname: refname@ },
            Action::ReadFile { at, path } => Ask::ReadFile { at: at@, path: path@ },
            Action::MeasureLogs { runs } => Ask::MeasureLogs { runs: logged_views(runs@) },
            Action::Prune(action) => Ask::Prune(action@),
            Action::CheckOut { at } => Ask::CheckOut { at: at@ },
            Action::Merge { commit, message } => Ask::Merge { commit: commit@, message: message@ },
            Action::RunGate { command, candidate, log_path, max_log_size } => Ask::RunGate {
                command: command@,
                candidate: candidate@,
                log_path: log_path@,
                max_log_size: max_log_size@,
            },
            Action::AskInterrupted => Ask::AskInterrupted,
            Action::FastForward { refname, from, to } => Ask::FastForward {
                refname: refname@,
                from: from@,
                to: to@,
            },
            Action::Announce { command, settled, repo_path, base_branch } => Ask::Announce {
                command: command@,
                settled: settled@,
                repo_path: repo_path@,
                base_branch: base_branch@,
            },
            Action::Finish => Ask::Finish,
        }
    }
}

/// What came of it.
#[derive(Debug, PartialEq, Eq)]
pub enum Event {
    Worktrees(Result<Vec<Worktree>, Failure>),
    Resolved(Result<Sha, Failure>),
    File(Result<Option<String>, Failure>),
    Measured(Vec<Measured>),
    Pruned(PruneEvent),
    CheckedOut(Result<(), Failure>),
    Merged(Result<MergeOutcome, Failure>),
    Gated(Result<Verdict, Failure>),
    Interrupted(bool),
    Forwarded(Result<RefUpdate, Failure>),
    Announced(Delivery),
}

/// Where a tick is.
#[allow(inconsistent_fields)]
enum Phase {
    Listing,
    Resolving,
    Configuring { base: Sha },
    Measuring { base: Sha, config: Config, runs: Vec<LoggedRun> },
    Pruning { base: Sha, config: Config, prune: PruneRun },
    CheckingOut { config: Config, candidate: Candidate },
    Merging { config: Config, candidate: Candidate, next: usize, tip: Sha },
    Gating { config: Config, candidate: Candidate, tip: Sha },
    Asking { config: Config, candidate: Candidate },
    Forwarding { config: Config, candidate: Candidate, tip: Sha },
    Announcing {
        command: String,
        outcome: TickOutcome,
        list: Vec<Settled>,
        announcements: Vec<Announcement>,
    },
    Over { result: Result<TickReport, TickError> },
}

/// Where a tick is, over texts.
#[allow(inconsistent_fields)]
pub enum PhaseView {
    /// The checkouts were asked for.
    Listing,
    /// The base branch was asked for.
    Resolving,
    /// The configuration at the base commit was asked for.
    Configuring { base: Seq<char> },
    /// The sizes of the logs were asked for.
    Measuring { base: Seq<char>, config: ConfigView, runs: Seq<LoggedRunView> },
    /// Logs are being removed.
    Pruning { base: Seq<char>, config: ConfigView, prune: PruneView },
    /// The integration checkout is being put on the base.
    CheckingOut { config: ConfigView, candidate: CandidateView },
    /// An entry is being merged onto the tip.
    Merging { config: ConfigView, candidate: CandidateView, next: int, tip: Seq<char> },
    /// The merge gate is running on the tip.
    Gating { config: ConfigView, candidate: CandidateView, tip: Seq<char> },
    /// The merge gate failed. Was that a stop?
    Asking { config: ConfigView, candidate: CandidateView },
    /// The merge gate passed, and the base is being moved to the tip.
    Forwarding { config: ConfigView, candidate: CandidateView, tip: Seq<char> },
    /// The outcome is reached, and someone is being told of what settled.
    Announcing {
        command: Seq<char>,
        outcome: OutcomeView,
        list: Seq<SettledView>,
        announcements: Seq<AnnouncementView>,
    },
    /// The lease is given back.
    Over { result: Result<ReportView, TickError> },
}

/// The settled entries of a list.
pub open spec fn settled_views(list: Seq<Settled>) -> Seq<SettledView> {
    Seq::new(list.len(), |i: int| list[i]@)
}

impl View for Phase {
    type V = PhaseView;

    closed spec fn view(&self) -> PhaseView {
        match self {
            Phase::Listing => PhaseView::Listing,
            Phase::Resolving => PhaseView::Resolving,
            Phase::Configuring { base } => PhaseView::Configuring { base: base@ },
            Phase::Measuring { base, config, runs } => PhaseView::Measuring {
                base: base@,
                config: config@,
                runs: logged_views(runs@),
            },
            Phase::Pruning { base, config, prune } => PhaseView::Pruning {
                base: base@,
                config: config@,
                prune: prune@,
            },
            Phase::CheckingOut { config, candidate } => PhaseView::CheckingOut {
                config: config@,
                candidate: candidate@,
            },
            Phase::Merging { config, candidate, next, tip } => PhaseView::Merging {
                config: config@,
                candidate: candidate@,
                next: *next as int,
                tip: tip@,
            },
            Phase::Gating { config, candidate, tip } => PhaseView::Gating {
                config: config@,
                candidate: candidate@,
                tip: tip@,
            },
            Phase::Asking { config, candidate } => PhaseView::Asking {
                config: config@,
                candidate: candidate@,
            },
            Phase::Forwarding { config, candidate, tip } => PhaseView::Forwarding {
                config: config@,
                candidate: candidate@,
                tip: tip@,
            },
            Phase::Announcing { command, outcome, list, announcements } => PhaseView::Announcing {
                command: command@,
                outcome: outcome@,
                list: settled_views(list@),
                announcements: announcement_views(announcements@),
            },
            Phase::Over { result } => PhaseView::Over {
                result: match result {
                    Ok(report) => Ok(report@),
                    Err(e) => Err(*e),
                },
            },
        }
    }
}

/// What a tick works on, and by what right.
pub struct PostView {
    pub repo: Seq<char>,
    pub base: Seq<char>,
    pub log_dir: Seq<char>,
    pub lease: Option<LeaseView>,
}

impl PhaseView {
    pub open spec fn wf(self) -> bool {
        match self {
            PhaseView::Pruning { prune, .. } => prune.wf() && prune.stage != PruneStage::Over,
            PhaseView::Merging { candidate, next, .. } => 0 <= next < candidate.entries.len(),
            PhaseView::Announcing { list, announcements, .. } => announcements.len() < list.len(),
            _ => true,
        }
    }

    /// The event is an answer to what was asked.
    pub open spec fn takes(self, event: Event) -> bool {
        match self {
            PhaseView::Listing => event is Worktrees,
            PhaseView::Resolving => event is Resolved,
            PhaseView::Configuring { .. } => event is File,
            PhaseView::Measuring { runs, .. } => event matches Event::Measured(list)
                && measured_runs(measured_views(list@)) == runs,
            PhaseView::Pruning { prune, .. } => event matches Event::Pruned(e) && prune.takes(e),
            PhaseView::CheckingOut { .. } => event is CheckedOut,
            PhaseView::Merging { .. } => event is Merged,
            PhaseView::Gating { .. } => event is Gated,
            PhaseView::Asking { .. } => event is Interrupted,
            PhaseView::Forwarding { .. } => event is Forwarded,
            PhaseView::Announcing { .. } => event is Announced,
            PhaseView::Over { .. } => false,
        }
    }
}

/// The message of the merge of an entry into a candidate.
pub open spec fn merge_message(candidate: i64, branch: Seq<char>) -> Seq<char> {
    "sasse candidate "@ + text::integer(candidate as int) + ": "@ + branch
}

/// Where a candidate's gate log is kept.
pub open spec fn log_path_of(dir: Seq<char>, candidate: i64) -> Seq<char> {
    let name = "candidate-"@ + text::integer(candidate as int) + ".log"@;
    if dir.len() == 0 {
        name
    } else if dir.last() == '/' {
        dir + name
    } else {
        dir + "/"@ + name
    }
}

/// The entries of a list that settled, in the order of the list.
pub open spec fn settlements(q: Ledger, list: Seq<EntryId>) -> Seq<SettledView>
    decreases list.len(),
{
    if list.len() == 0 {
        Seq::empty()
    } else {
        let rest = settlements(q, list.drop_last());
        match q.entry(list.last()) {
            Some(e) => if e.state.terminal() {
                rest.push(e.settled())
            } else {
                rest
            },
            None => rest,
        }
    }
}

/// The entries of a failed candidate that are tried next: those in the first
/// half.
pub open spec fn retried(entries: Seq<EntryView>) -> Seq<EntryView> {
    entries.filter(|e: EntryView| first_half(ids(entries)).contains(e.id))
}

/// A report with nothing announced.
pub open spec fn quiet(outcome: OutcomeView) -> ReportView {
    ReportView { outcome, announcements: Seq::empty() }
}

/// A configuration read from a text, or why not.
pub open spec fn config_gives(source: Seq<char>, r: Result<Config, ConfigError>) -> bool {
    match toml_settings(source) {
        Ok(list) => reads(list, r),
        Err(why) => r matches Err(ConfigError::Malformed { why: given }) && given@ == why,
    }
}

impl PostView {
    /// The rows with the lease given back, if it is still ours.
    pub open spec fn given_back(self, q: Ledger) -> Ledger {
        match self.lease {
            Some(l) => q.released(l.repo_path, l.base_branch, l.token),
            None => q,
        }
    }

    /// The tick is over, and the lease is given back whatever happened, so a
    /// tick that failed does not hold the branch until the lease expires.
    pub open spec fn ends(
        self,
        q: Ledger,
        result: Result<ReportView, TickError>,
        p2: PhaseView,
        q2: Ledger,
    ) -> bool {
        &&& p2 == PhaseView::Over { result }
        &&& q2 == self.given_back(q)
    }

    /// What a tick that stands so asks for.
    pub open spec fn asks(self, phase: PhaseView) -> Ask {
        match phase {
            PhaseView::Listing => Ask::ListWorktrees,
            PhaseView::Resolving => Ask::Resolve { refname: self.base },
            PhaseView::Configuring { base } => Ask::ReadFile { at: base, path: CONFIG_PATH@ },
            PhaseView::Measuring { runs, .. } => Ask::MeasureLogs { runs },
            PhaseView::Pruning { prune, .. } => Ask::Prune(prune.asks()),
            PhaseView::CheckingOut { candidate, .. } => Ask::CheckOut { at: candidate.base_sha },
            PhaseView::Merging { candidate, next, .. } => Ask::Merge {
                commit: candidate.entries[next].branch_sha,
                message: merge_message(candidate.id, candidate.entries[next].branch),
            },
            PhaseView::Gating { config, candidate, tip } => Ask::RunGate {
                command: config.gate,
                candidate: tip,
                log_path: log_path_of(self.log_dir, candidate.id),
                max_log_size: config.max_log_size,
            },
            PhaseView::Asking { .. } => Ask::AskInterrupted,
            PhaseView::Forwarding { candidate, tip, .. } => Ask::FastForward {
                refname: self.base,
                from: candidate.base_sha,
                to: tip,
            },
            PhaseView::Announcing { command, list, announcements, .. } => Ask::Announce {
                command,
                settled: list[announcements.len() as int],
                repo_path: self.repo,
                base_branch: self.base,
            },
            PhaseView::Over { .. } => Ask::Finish,
        }
    }

    /// An outcome is reached. Someone is told of each entry that settled with
    /// it, if there is a hook and anything settled; otherwise the tick is over.
    /// The queue's own record is made by now, so an interruption loses the
    /// announcement and not the outcome.
    pub open spec fn reaches(
        self,
        q: Ledger,
        outcome: OutcomeView,
        command: Option<Seq<char>>,
        settled: Seq<SettledView>,
        p2: PhaseView,
        q2: Ledger,
    ) -> bool {
        match command {
            Some(command) => if settled.len() > 0 {
                &&& p2 == PhaseView::Announcing {
                        command,
                        outcome,
                        list: settled,
                        announcements: Seq::empty(),
                    }
                &&& q2 == q
            } else {
                self.ends(q, Ok(quiet(outcome)), p2, q2)
            },
            None => self.ends(q, Ok(quiet(outcome)), p2, q2),
        }
    }

    /// A candidate is thrown away without blaming anything in it.
    pub open spec fn abandons(
        self,
        q: Ledger,
        candidate: i64,
        reason: Abandoned,
        now: Instant,
        p2: PhaseView,
        q2: Ledger,
    ) -> bool {
        exists|r: Result<usize, StoreError>, q1: Ledger|
            {
                &&& #[trigger] abandon_gives(
                    q,
                    candidate,
                    CandidateState::Superseded,
                    written(now),
                    r,
                    q1,
                )
                &&& match r {
                    Ok(requeued) => self.ends(
                        q1,
                        Ok(quiet(OutcomeView::Abandoned { candidate, requeued, reason })),
                        p2,
                        q2,
                    ),
                    Err(e) => self.ends(q1, Err(TickError::Store(e)), p2, q2),
                }
            }
    }

    /// A candidate is pinned on one of its entries.
    pub open spec fn blames(
        self,
        q: Ledger,
        config: ConfigView,
        candidate: i64,
        entry: EntryView,
        reason: Fault,
        now: Instant,
        p2: PhaseView,
        q2: Ledger,
    ) -> bool {
        exists|r: Result<Blame, StoreError>, q1: Ledger|
            {
                &&& #[trigger] blame_gives(
                    q,
                    candidate,
                    entry.id,
                    config.max_attempts,
                    reason.described(),
                    written(now),
                    r,
                    q1,
                )
                &&& match r {
                    Ok(blame) => self.reaches(
                        q1,
                        OutcomeView::Blamed {
                            candidate,
                            entry: entry.id,
                            branch: entry.branch,
                            blame,
                            reason,
                        },
                        config.on_settle,
                        settlements(q1, seq![entry.id]),
                        p2,
                        q2,
                    ),
                    Err(e) => self.ends(q1, Err(TickError::Store(e)), p2, q2),
                }
            }
    }

    /// There is a candidate to work on. If it was assembled against a base that
    /// has since moved, it proves nothing about the base as it stands now.
    pub open spec fn takes_up(
        self,
        q: Ledger,
        base: Seq<char>,
        config: ConfigView,
        candidate: CandidateView,
        now: Instant,
        p2: PhaseView,
        q2: Ledger,
    ) -> bool {
        if candidate.base_sha != base {
            self.abandons(q, candidate.id, Abandoned::BaseMoved, now, p2, q2)
        } else {
            &&& p2 == PhaseView::CheckingOut { config, candidate }
            &&& q2 == q
        }
    }

    /// The unfinished candidate is resumed if there is one, otherwise a new one
    /// is opened over whatever is queued.
    pub open spec fn picks(
        self,
        q: Ledger,
        base: Seq<char>,
        config: ConfigView,
        now: Instant,
        p2: PhaseView,
        q2: Ledger,
    ) -> bool {
        exists|active: Result<Option<Candidate>, StoreError>|
            {
                &&& #[trigger] active_gives(q, self.repo, self.base, active)
                &&& match active {
                    Err(e) => self.ends(q, Err(TickError::Store(e)), p2, q2),
                    Ok(Some(candidate)) => self.takes_up(
                        q,
                        base,
                        config,
                        candidate@,
                        now,
                        p2,
                        q2,
                    ),
                    Ok(None) => self.opens(q, base, config, now, p2, q2),
                }
            }
    }

    /// A new candidate is opened over whatever is queued.
    pub open spec fn opens(
        self,
        q: Ledger,
        base: Seq<char>,
        config: ConfigView,
        now: Instant,
        p2: PhaseView,
        q2: Ledger,
    ) -> bool {
        exists|batch: Result<Vec<Entry>, StoreError>|
            {
                &&& #[trigger] batch_gives(q, self.repo, self.base, config.max_batch, batch)
                &&& match batch {
                    Err(e) => self.ends(q, Err(TickError::Store(e)), p2, q2),
                    Ok(entries) => if entries@.len() == 0 {
                        self.ends(q, Ok(quiet(OutcomeView::Idle)), p2, q2)
                    } else {
                        self.opens_over(q, base, config, entry_views(entries@), now, p2, q2)
                    },
                }
            }
    }

    /// A new candidate is opened over a batch.
    pub open spec fn opens_over(
        self,
        q: Ledger,
        base: Seq<char>,
        config: ConfigView,
        entries: Seq<EntryView>,
        now: Instant,
        p2: PhaseView,
        q2: Ledger,
    ) -> bool {
        exists|r: Result<i64, StoreError>, q1: Ledger|
            {
                &&& #[trigger] open_gives(
                    q,
                    self.repo,
                    self.base,
                    base,
                    entries,
                    None,
                    written(now),
                    r,
                    q1,
                )
                &&& match r {
                    Err(e) => self.ends(q1, Err(TickError::Store(e)), p2, q2),
                    Ok(id) => {
                        &&& p2 == PhaseView::CheckingOut {
                                config,
                                candidate: CandidateView { id, base_sha: base, entries },
                            }
                        &&& q2 == q1
                    },
                }
            }
    }

    /// The next entry is merged, or, when none is left, the tip is gated.
    pub open spec fn merges_on(
        self,
        q: Ledger,
        config: ConfigView,
        candidate: CandidateView,
        next: int,
        tip: Seq<char>,
        now: Instant,
        p2: PhaseView,
        q2: Ledger,
    ) -> bool {
        if next < candidate.entries.len() {
            &&& p2 == PhaseView::Merging { config, candidate, next, tip }
            &&& q2 == q
        } else {
            exists|r: Result<(), StoreError>, q1: Ledger|
                {
                    &&& #[trigger] mark_testing_gives(q, candidate.id, tip, written(now), r, q1)
                    &&& match r {
                        Err(e) => self.ends(q1, Err(TickError::Store(e)), p2, q2),
                        Ok(_) => {
                            &&& p2 == PhaseView::Gating { config, candidate, tip }
                            &&& q2 == q1
                        },
                    }
                }
        }
    }

    /// The merge gate came to a verdict, which is recorded. If it passed, the base is
    /// moved to the commit that was gated.
    pub open spec fn judges(
        self,
        q: Ledger,
        config: ConfigView,
        candidate: CandidateView,
        tip: Seq<char>,
        verdict: Verdict,
        now: Instant,
        p2: PhaseView,
        q2: Ledger,
    ) -> bool {
        exists|r: Result<(), StoreError>, q1: Ledger|
            {
                &&& #[trigger] record_run_gives(
                    q,
                    candidate.id,
                    config.gate,
                    verdict.code(),
                    log_path_of(self.log_dir, candidate.id),
                    written(now),
                    r,
                    q1,
                )
                &&& match r {
                    Err(e) => self.ends(q1, Err(TickError::Store(e)), p2, q2),
                    Ok(_) => {
                        &&& q2 == q1
                        &&& p2 == if verdict == Verdict::Passed {
                                PhaseView::Forwarding { config, candidate, tip }
                            } else {
                                PhaseView::Asking { config, candidate }
                            }
                    },
                }
            }
    }

    /// The base was moved to the commit that was gated: everything in the
    /// candidate landed.
    pub open spec fn lands(
        self,
        q: Ledger,
        config: ConfigView,
        candidate: CandidateView,
        tip: Seq<char>,
        now: Instant,
        p2: PhaseView,
        q2: Ledger,
    ) -> bool {
        exists|r: Result<usize, StoreError>, q1: Ledger|
            {
                &&& #[trigger] land_gives(q, candidate.id, written(now), r, q1)
                &&& match r {
                    Err(e) => self.ends(q1, Err(TickError::Store(e)), p2, q2),
                    Ok(entries) => self.reaches(
                        q1,
                        OutcomeView::Landed { candidate: candidate.id, entries, at: tip },
                        config.on_settle,
                        settlements(q1, ids(candidate.entries)),
                        p2,
                        q2,
                    ),
                }
            }
    }

    /// The merge gate failed on its merits. Alone in the candidate, an entry is the
    /// culprit. Otherwise someone in there is at fault but it is not known who:
    /// the candidate is halved and the first half is tried next; the rest goes
    /// back in the queue and will be picked up once this half settles.
    pub open spec fn fails_gate(
        self,
        q: Ledger,
        config: ConfigView,
        candidate: CandidateView,
        now: Instant,
        p2: PhaseView,
        q2: Ledger,
    ) -> bool {
        if candidate.entries.len() == 0 {
            self.ends(q, Err(TickError::NothingToBisect), p2, q2)
        } else if candidate.entries.len() == 1 {
            self.blames(
                q,
                config,
                candidate.id,
                candidate.entries[0],
                Fault::GateFailed,
                now,
                p2,
                q2,
            )
        } else {
            self.splits(q, candidate, now, p2, q2)
        }
    }

    /// A failed candidate is split, and a new one is opened over the first half.
    pub open spec fn splits(
        self,
        q: Ledger,
        candidate: CandidateView,
        now: Instant,
        p2: PhaseView,
        q2: Ledger,
    ) -> bool {
        let retry = retried(candidate.entries);
        exists|requeued: Result<usize, StoreError>, q1: Ledger, r: Result<i64, StoreError>, q3: Ledger|

            {
                &&& #[trigger] abandon_gives(
                    q,
                    candidate.id,
                    CandidateState::Failed,
                    written(now),
                    requeued,
                    q1,
                )
                &&& requeued is Ok
                &&& #[trigger] open_gives(
                    q1,
                    self.repo,
                    self.base,
                    candidate.base_sha,
                    retry,
                    Some(candidate.id),
                    written(now),
                    r,
                    q3,
                )
                &&& match r {
                    Err(e) => self.ends(q3, Err(TickError::Store(e)), p2, q2),
                    Ok(next) => self.ends(
                        q3,
                        Ok(
                            quiet(
                                OutcomeView::Split {
                                    failed: candidate.id,
                                    next,
                                    retrying: retry.len() as usize,
                                },
                            ),
                        ),
                        p2,
                        q2,
                    ),
                }
            }
    }

    /// Logs are being removed, or none is left to be.
    pub open spec fn prunes_on(
        self,
        q: Ledger,
        base: Seq<char>,
        config: ConfigView,
        prune: PruneView,
        now: Instant,
        p2: PhaseView,
        q2: Ledger,
    ) -> bool {
        if prune.stage != PruneStage::Over {
            &&& p2 == PhaseView::Pruning { base, config, prune }
            &&& q2 == q
        } else {
            match prune.failure {
                Some(why) => {
                    &&& p2 matches PhaseView::Over { result: Err(TickError::Outside(failure)) }
                    &&& failure@ == why
                    &&& self.ends(q, Err(TickError::Outside(failure)), p2, q2)
                },
                None => self.picks(q, base, config, now, p2, q2),
            }
        }
    }

    /// A tick takes an answer, and goes on.
    pub open spec fn steps(
        self,
        phase: PhaseView,
        q: Ledger,
        event: Event,
        now: Instant,
        p2: PhaseView,
        q2: Ledger,
    ) -> bool {
        match (phase, event) {
            // Moving a branch that is checked out somewhere would corrupt that
            // checkout.
            (PhaseView::Listing, Event::Worktrees(Ok(list))) => {
                let held = holders(worktree_views(list@), self.base);
                if held.len() > 0 {
                    self.ends(
                        q,
                        Ok(quiet(OutcomeView::BaseCheckedOut { holders: held })),
                        p2,
                        q2,
                    )
                } else {
                    p2 == PhaseView::Resolving && q2 == q
                }
            },
            (PhaseView::Listing, Event::Worktrees(Err(why))) => self.ends(
                q,
                Err(TickError::Outside(why)),
                p2,
                q2,
            ),
            (PhaseView::Resolving, Event::Resolved(Ok(sha))) => {
                p2 == PhaseView::Configuring { base: sha@ } && q2 == q
            },
            (PhaseView::Resolving, Event::Resolved(Err(why))) => self.ends(
                q,
                Err(TickError::Outside(why)),
                p2,
                q2,
            ),
            // The merge gate command, read out of the base commit rather than off
            // disk.
            (PhaseView::Configuring { base }, Event::File(Ok(Some(source)))) => {
                exists|r: Result<Config, ConfigError>|
                    {
                        &&& #[trigger] config_gives(source@, r)
                        &&& match r {
                            Ok(config) => {
                                &&& p2 == PhaseView::Measuring {
                                        base,
                                        config: config@,
                                        runs: q.logged(self.repo, self.base),
                                    }
                                &&& q2 == q
                            },
                            Err(e) => self.ends(q, Err(TickError::Config(e)), p2, q2),
                        }
                    }
            },
            (PhaseView::Configuring { base }, Event::File(Ok(None))) => {
                &&& p2 matches PhaseView::Over { result: Err(TickError::NoConfig { at }) }
                &&& at@ == base
                &&& self.ends(q, Err(TickError::NoConfig { at }), p2, q2)
            },
            (PhaseView::Configuring { .. }, Event::File(Err(why))) => self.ends(
                q,
                Err(TickError::Outside(why)),
                p2,
                q2,
            ),
            (PhaseView::Measuring { base, config, .. }, Event::Measured(measured)) => {
                let list = standing(q, self.repo, self.base, measured_views(measured@));
                let logs = found(list);
                let q1 = reconciled(q, list);
                if total(logs) > u64::MAX {
                    self.ends(q1, Err(TickError::LogsTooLarge), p2, q2)
                } else {
                    let prune = begun(crate::logs::removals(logs, config.log_budget));
                    self.prunes_on(prune.turned_rows(q1), base, config, prune, now, p2, q2)
                }
            },
            (PhaseView::Pruning { base, config, prune }, Event::Pruned(event)) => self.prunes_on(
                prune.rows_after(q, event),
                base,
                config,
                prune.after(event),
                now,
                p2,
                q2,
            ),
            (PhaseView::CheckingOut { config, candidate }, Event::CheckedOut(Ok(_))) => {
                self.merges_on(q, config, candidate, 0, candidate.base_sha, now, p2, q2)
            },
            (PhaseView::CheckingOut { .. }, Event::CheckedOut(Err(why))) => self.ends(
                q,
                Err(TickError::Outside(why)),
                p2,
                q2,
            ),
            (
                PhaseView::Merging { config, candidate, next, .. },
                Event::Merged(Ok(MergeOutcome::Merged(sha))),
            ) => self.merges_on(q, config, candidate, next + 1, sha@, now, p2, q2),
            // It cannot be integrated onto this base at all. Gating a batch that
            // will not assemble would tell us nothing.
            (
                PhaseView::Merging { config, candidate, next, .. },
                Event::Merged(Ok(MergeOutcome::Conflicted)),
            ) => self.blames(
                q,
                config,
                candidate.id,
                candidate.entries[next],
                Fault::Conflict,
                now,
                p2,
                q2,
            ),
            (PhaseView::Merging { .. }, Event::Merged(Err(why))) => self.ends(
                q,
                Err(TickError::Outside(why)),
                p2,
                q2,
            ),
            (PhaseView::Gating { config, candidate, tip }, Event::Gated(Ok(verdict))) => {
                self.judges(q, config, candidate, tip, verdict, now, p2, q2)
            },
            (PhaseView::Gating { .. }, Event::Gated(Err(why))) => self.ends(
                q,
                Err(TickError::Outside(why)),
                p2,
                q2,
            ),
            // A gate that died because the worker was signalled says nothing
            // about the branches in the candidate. If a stop is pending the
            // failure is treated as no verdict at all, which errs towards never
            // evicting something that did not actually fail.
            (PhaseView::Asking { config, candidate }, Event::Interrupted(interrupted)) => {
                if interrupted {
                    self.abandons(q, candidate.id, Abandoned::Interrupted, now, p2, q2)
                } else {
                    self.fails_gate(q, config, candidate, now, p2, q2)
                }
            },
            (
                PhaseView::Forwarding { config, candidate, tip },
                Event::Forwarded(Ok(RefUpdate::Updated)),
            ) => self.lands(q, config, candidate, tip, now, p2, q2),
            (
                PhaseView::Forwarding { candidate, .. },
                Event::Forwarded(Ok(RefUpdate::Stale)),
            ) => self.abandons(q, candidate.id, Abandoned::BaseMoved, now, p2, q2),
            (PhaseView::Forwarding { .. }, Event::Forwarded(Err(why))) => self.ends(
                q,
                Err(TickError::Outside(why)),
                p2,
                q2,
            ),
            (
                PhaseView::Announcing { command, outcome, list, announcements },
                Event::Announced(delivery),
            ) => {
                let told = announcements.push(
                    AnnouncementView {
                        settled: list[announcements.len() as int],
                        delivery: delivery@,
                    },
                );
                if told.len() < list.len() {
                    &&& p2 == PhaseView::Announcing { command, outcome, list, announcements: told }
                    &&& q2 == q
                } else {
                    self.ends(
                        q,
                        Ok(ReportView { outcome, announcements: told }),
                        p2,
                        q2,
                    )
                }
            },
            _ => false,
        }
    }
}

/// What a tick works on, and by what right.
#[derive(Debug)]
struct Post {
    repo_path: String,
    base_branch: String,
    log_dir: String,
    lease: Option<Lease>,
}

impl View for Post {
    type V = PostView;

    closed spec fn view(&self) -> PostView {
        PostView {
            repo: self.repo_path@,
            base: self.base_branch@,
            log_dir: self.log_dir@,
            lease: match self.lease {
                Some(lease) => Some(lease@),
                None => None,
            },
        }
    }
}

/// A result, over texts.
pub open spec fn result_view(result: Result<TickReport, TickError>) -> Result<
    ReportView,
    TickError,
> {
    match result {
        Ok(report) => Ok(report@),
        Err(e) => Err(e),
    }
}

/// The message of the merge of an entry into a candidate.
fn message_for(candidate: i64, branch: &str) -> (r: String)
    ensures
        r@ == merge_message(candidate, branch@),
{
    let mut r = "sasse candidate ".to_string();
    r.append(&text::integer_text(candidate));
    r.append(": ");
    r.append(branch);
    r
}

/// Where a candidate's gate log is kept.
pub fn log_path(dir: &str, candidate: i64) -> (r: String)
    ensures
        r@ == log_path_of(dir@, candidate),
{
    let mut name = "candidate-".to_string();
    name.append(&text::integer_text(candidate));
    name.append(".log");
    let chars = text::chars_of(dir);
    if chars.len() == 0 {
        return name;
    }
    let mut r = dir.to_string();
    if chars[chars.len() - 1] != '/' {
        r.append("/");
    }
    r.append(&name);
    r
}

/// The entries of a list that settled.
fn settled_among(store: &Store, list: &Vec<EntryId>) -> (r: Vec<Settled>)
    requires
        store@.wf(),
    ensures
        settled_views(r@) == settlements(store@, list@),
{
    let mut r: Vec<Settled> = Vec::new();
    assert(settled_views(r@) =~= Seq::<SettledView>::empty());
    for i in 0..list.len()
        invariant
            store@.wf(),
            settled_views(r@) == settlements(store@, list@.take(i as int)),
    {
        assert(list@.take(i + 1).drop_last() =~= list@.take(i as int));
        match store.settlement(list[i]) {
            Some(settled) => {
                let ghost had = r@;
                r.push(settled);
                assert(settled_views(r@) =~= settled_views(had).push(settled@));
            },
            None => {},
        }
    }
    assert(list@.take(list@.len() as int) =~= list@);
    r
}

/// The ids of entries.
fn ids_of(entries: &Vec<Entry>) -> (r: Vec<EntryId>)
    ensures
        r@ == ids(entry_views(entries@)),
{
    let mut r: Vec<EntryId> = Vec::new();
    for i in 0..entries.len()
        invariant
            r@ == ids(entry_views(entries@)).take(i as int),
    {
        r.push(entries[i].id);
        assert(r@ =~= ids(entry_views(entries@)).take(i + 1));
    }
    assert(r@ =~= ids(entry_views(entries@)));
    r
}

/// The entries of a failed candidate that are tried next.
fn retry_of(entries: &Vec<Entry>, left: &Vec<EntryId>) -> (r: Vec<Entry>)
    requires
        left@ == first_half(ids(entry_views(entries@))),
    ensures
        entry_views(r@) == retried(entry_views(entries@)),
{
    let ghost all = entry_views(entries@);
    let ghost pred = |e: EntryView| first_half(ids(all)).contains(e.id);
    let mut r: Vec<Entry> = Vec::new();
    proof {
        reveal(Seq::filter);
        assert(entry_views(r@) =~= all.take(0).filter(pred));
    }
    for i in 0..entries.len()
        invariant
            all == entry_views(entries@),
            left@ == first_half(ids(all)),
            pred == (|e: EntryView| first_half(ids(all)).contains(e.id)),
            entry_views(r@) == all.take(i as int).filter(pred),
    {
        proof {
            crate::seqs::filter_take(all, i as int, pred);
        }
        let entry = &entries[i];
        assert(all[i as int] == entry@);
        let mut inside = false;
        for j in 0..left.len()
            invariant
                inside == exists|k: int| 0 <= k < j && #[trigger] left@[k] == entry.id,
        {
            if left[j] == entry.id {
                assert(left@[j as int] == entry.id);
                inside = true;
            }
        }
        assert(inside == left@.contains(entry.id));
        if inside {
            let ghost had = r@;
            let kept = entry.clone();
            r.push(kept);
            assert(entry_views(r@) =~= entry_views(had).push(kept@));
        }
    }
    assert(all.take(all.len() as int) =~= all);
    r
}

impl Post {
    /// The tick is over: give the lease back.
    fn end(&self, store: &mut Store, result: Result<TickReport, TickError>) -> (r: Phase)
        requires
            old(store)@.wf(),
        ensures
            final(store)@.wf(),
            self@.ends(old(store)@, result_view(result), r@, final(store)@),
            r@.wf(),
    {
        self.give_back(store);
        Phase::Over { result }
    }

    fn give_back(&self, store: &mut Store)
        requires
            old(store)@.wf(),
        ensures
            final(store)@.wf(),
            final(store)@ == self@.given_back(old(store)@),
    {
        match &self.lease {
            Some(lease) => {
                let _ = lease::release(store, lease);
            },
            None => {},
        }
    }

    fn end_quietly(&self, store: &mut Store, outcome: TickOutcome) -> (r: Phase)
        requires
            old(store)@.wf(),
        ensures
            final(store)@.wf(),
            self@.ends(old(store)@, Ok(quiet(outcome@)), r@, final(store)@),
            r@.wf(),
    {
        let report = TickReport { outcome, announcements: Vec::new() };
        assert(report@.announcements =~= Seq::<AnnouncementView>::empty());
        self.end(store, Ok(report))
    }

    fn reach(
        &self,
        store: &mut Store,
        outcome: TickOutcome,
        command: &Option<String>,
        settled: Vec<Settled>,
    ) -> (r: Phase)
        requires
            old(store)@.wf(),
        ensures
            final(store)@.wf(),
            self@.reaches(
                old(store)@,
                outcome@,
                text::optional(*command),
                settled_views(settled@),
                r@,
                final(store)@,
            ),
            r@.wf(),
    {
        match command {
            Some(command) => {
                if settled.len() > 0 {
                    let announcements: Vec<Announcement> = Vec::new();
                    assert(announcement_views(announcements@) =~= Seq::<AnnouncementView>::empty());
                    return Phase::Announcing {
                        command: command.clone(),
                        outcome,
                        list: settled,
                        announcements,
                    };
                }
                self.end_quietly(store, outcome)
            },
            None => self.end_quietly(store, outcome),
        }
    }

    fn abandon(&self, store: &mut Store, candidate: i64, reason: Abandoned, now: &Timestamp) -> (r:
        Phase)
        requires
            old(store)@.wf(),
        ensures
            final(store)@.wf(),
            self@.abandons(old(store)@, candidate, reason, now@, r@, final(store)@),
            r@.wf(),
    {
        let ghost q = store@;
        let done = store.abandon(candidate, CandidateState::Superseded, now);
        assert(abandon_gives(
            q,
            candidate,
            CandidateState::Superseded,
            written(now@),
            done,
            store@,
        ));
        match done {
            Ok(requeued) => self.end_quietly(
                store,
                TickOutcome::Abandoned { candidate, requeued, reason },
            ),
            Err(e) => self.end(store, Err(TickError::Store(e))),
        }
    }

    fn blame(
        &self,
        store: &mut Store,
        config: &Config,
        candidate: i64,
        entry: &Entry,
        reason: Fault,
        now: &Timestamp,
    ) -> (r: Phase)
        requires
            old(store)@.wf(),
        ensures
            final(store)@.wf(),
            self@.blames(
                old(store)@,
                config@,
                candidate,
                entry@,
                reason,
                now@,
                r@,
                final(store)@,
            ),
            r@.wf(),
    {
        let ghost q = store@;
        let done = store.blame(
            candidate,
            entry.id,
            config.max_attempts,
            &reason.description(),
            now,
        );
        assert(blame_gives(
            q,
            candidate,
            entry@.id,
            config@.max_attempts,
            reason.described(),
            written(now@),
            done,
            store@,
        ));
        match done {
            Ok(blame) => {
                let mut culprit: Vec<EntryId> = Vec::new();
                culprit.push(entry.id);
                assert(culprit@ =~= seq![entry.id]);
                let settled = settled_among(store, &culprit);
                let outcome = TickOutcome::Blamed {
                    candidate,
                    entry: entry.id,
                    branch: entry.branch.clone(),
                    blame,
                    reason,
                };
                self.reach(store, outcome, &config.on_settle, settled)
            },
            Err(e) => self.end(store, Err(TickError::Store(e))),
        }
    }

    /// Resume the unfinished candidate if there is one, otherwise open a new one
    /// over whatever is queued.
    fn pick(&self, store: &mut Store, base: Sha, config: Config, now: &Timestamp) -> (r: Phase)
        requires
            old(store)@.wf(),
        ensures
            final(store)@.wf(),
            self@.picks(old(store)@, base@, config@, now@, r@, final(store)@),
            r@.wf(),
    {
        let ghost q = store@;
        let active = store.active_candidate(&self.repo_path, &self.base_branch);
        assert(active_gives(q, self@.repo, self@.base, active));
        match active {
            Err(e) => self.end(store, Err(TickError::Store(e))),
            Ok(Some(candidate)) => {
                if candidate.base_sha.same(&base) {
                    Phase::CheckingOut { config, candidate }
                } else {
                    self.abandon(store, candidate.id, Abandoned::BaseMoved, now)
                }
            },
            Ok(None) => self.open(store, base, config, now),
        }
    }

    fn open(&self, store: &mut Store, base: Sha, config: Config, now: &Timestamp) -> (r: Phase)
        requires
            old(store)@.wf(),
        ensures
            final(store)@.wf(),
            self@.opens(old(store)@, base@, config@, now@, r@, final(store)@),
            r@.wf(),
    {
        let ghost q = store@;
        let batch = store.select_batch(&self.repo_path, &self.base_branch, config.max_batch);
        assert(batch_gives(q, self@.repo, self@.base, config@.max_batch, batch));
        match batch {
            Err(e) => self.end(store, Err(TickError::Store(e))),
            Ok(entries) => {
                if entries.len() == 0 {
                    self.end_quietly(store, TickOutcome::Idle)
                } else {
                    self.open_over(store, base, config, entries, now)
                }
            },
        }
    }

    fn open_over(
        &self,
        store: &mut Store,
        base: Sha,
        config: Config,
        entries: Vec<Entry>,
        now: &Timestamp,
    ) -> (r: Phase)
        requires
            old(store)@.wf(),
        ensures
            final(store)@.wf(),
            self@.opens_over(
                old(store)@,
                base@,
                config@,
                entry_views(entries@),
                now@,
                r@,
                final(store)@,
            ),
            r@.wf(),
    {
        let ghost q = store@;
        let opened = store.open_candidate(
            &self.repo_path,
            &self.base_branch,
            &base,
            &entries,
            None,
            now,
        );
        assert(open_gives(
            q,
            self@.repo,
            self@.base,
            base@,
            entry_views(entries@),
            None,
            written(now@),
            opened,
            store@,
        ));
        match opened {
            Err(e) => self.end(store, Err(TickError::Store(e))),
            Ok(id) => Phase::CheckingOut {
                config,
                candidate: Candidate { id, base_sha: base, entries },
            },
        }
    }

    /// Merge the next entry, or, when none is left, gate the tip.
    fn merge_on(
        &self,
        store: &mut Store,
        config: Config,
        candidate: Candidate,
        next: usize,
        tip: Sha,
        now: &Timestamp,
    ) -> (r: Phase)
        requires
            old(store)@.wf(),
        ensures
            final(store)@.wf(),
            self@.merges_on(
                old(store)@,
                config@,
                candidate@,
                next as int,
                tip@,
                now@,
                r@,
                final(store)@,
            ),
            r@.wf(),
    {
        if next < candidate.entries.len() {
            return Phase::Merging { config, candidate, next, tip };
        }
        let ghost q = store@;
        let marked = store.mark_testing(candidate.id, &tip, now);
        assert(mark_testing_gives(q, candidate@.id, tip@, written(now@), marked, store@));
        match marked {
            Err(e) => self.end(store, Err(TickError::Store(e))),
            Ok(_) => Phase::Gating { config, candidate, tip },
        }
    }

    fn judge(
        &self,
        store: &mut Store,
        config: Config,
        candidate: Candidate,
        tip: Sha,
        verdict: Verdict,
        now: &Timestamp,
    ) -> (r: Phase)
        requires
            old(store)@.wf(),
        ensures
            final(store)@.wf(),
            self@.judges(
                old(store)@,
                config@,
                candidate@,
                tip@,
                verdict,
                now@,
                r@,
                final(store)@,
            ),
            r@.wf(),
    {
        let ghost q = store@;
        let path = log_path(&self.log_dir, candidate.id);
        let recorded = store.record_run(
            candidate.id,
            &config.gate,
            verdict.exit_code(),
            &path,
            now,
        );
        assert(record_run_gives(
            q,
            candidate@.id,
            config@.gate,
            verdict.code(),
            log_path_of(self@.log_dir, candidate@.id),
            written(now@),
            recorded,
            store@,
        ));
        match recorded {
            Err(e) => self.end(store, Err(TickError::Store(e))),
            Ok(_) => {
                if verdict.passed() {
                    Phase::Forwarding { config, candidate, tip }
                } else {
                    Phase::Asking { config, candidate }
                }
            },
        }
    }

    fn land(
        &self,
        store: &mut Store,
        config: Config,
        candidate: Candidate,
        tip: Sha,
        now: &Timestamp,
    ) -> (r: Phase)
        requires
            old(store)@.wf(),
        ensures
            final(store)@.wf(),
            self@.lands(old(store)@, config@, candidate@, tip@, now@, r@, final(store)@),
            r@.wf(),
    {
        let ghost q = store@;
        let landed = store.land(candidate.id, now);
        assert(land_gives(q, candidate@.id, written(now@), landed, store@));
        match landed {
            Err(e) => self.end(store, Err(TickError::Store(e))),
            Ok(entries) => {
                let settled = settled_among(store, &ids_of(&candidate.entries));
                let outcome = TickOutcome::Landed { candidate: candidate.id, entries, at: tip };
                self.reach(store, outcome, &config.on_settle, settled)
            },
        }
    }

    fn fail_gate(&self, store: &mut Store, config: Config, candidate: Candidate, now: &Timestamp) -> (r:
        Phase)
        requires
            old(store)@.wf(),
        ensures
            final(store)@.wf(),
            self@.fails_gate(old(store)@, config@, candidate@, now@, r@, final(store)@),
            r@.wf(),
    {
        let list = ids_of(&candidate.entries);
        assert(list@.len() == candidate@.entries.len());
        match bisect(list.as_slice()) {
            Err(_) => self.end(store, Err(TickError::NothingToBisect)),
            // Alone in the candidate, so there is nothing left to narrow.
            Ok(Bisection::Culprit(_)) => self.blame(
                store,
                &config,
                candidate.id,
                &candidate.entries[0],
                Fault::GateFailed,
                now,
            ),
            // Someone in here is at fault but we do not know who. Halve it and
            // try the first half next.
            Ok(Bisection::Bisect { left, .. }) => {
                let retry = retry_of(&candidate.entries, &left);
                self.split(store, candidate, retry, now)
            },
        }
    }

    fn split(&self, store: &mut Store, candidate: Candidate, retry: Vec<Entry>, now: &Timestamp) -> (r:
        Phase)
        requires
            old(store)@.wf(),
            entry_views(retry@) == retried(candidate@.entries),
        ensures
            final(store)@.wf(),
            self@.splits(old(store)@, candidate@, now@, r@, final(store)@),
            r@.wf(),
    {
        let ghost q = store@;
        let requeued = store.abandon(candidate.id, CandidateState::Failed, now);
        let ghost q1 = store@;
        assert(abandon_gives(
            q,
            candidate@.id,
            CandidateState::Failed,
            written(now@),
            requeued,
            q1,
        ));
        assert(requeued is Ok);
        let opened = store.open_candidate(
            &self.repo_path,
            &self.base_branch,
            &candidate.base_sha,
            &retry,
            Some(candidate.id),
            now,
        );
        assert(open_gives(
            q1,
            self@.repo,
            self@.base,
            candidate@.base_sha,
            retried(candidate@.entries),
            Some(candidate@.id),
            written(now@),
            opened,
            store@,
        ));
        assert(entry_views(retry@).len() == retry@.len());
        match opened {
            Err(e) => self.end(store, Err(TickError::Store(e))),
            Ok(next) => self.end_quietly(
                store,
                TickOutcome::Split { failed: candidate.id, next, retrying: retry.len() },
            ),
        }
    }

    /// Go on removing logs, or, when none is left to be, with the queue.
    fn prune_on(
        &self,
        store: &mut Store,
        base: Sha,
        config: Config,
        prune: PruneRun,
        now: &Timestamp,
    ) -> (r: Phase)
        requires
            old(store)@.wf(),
            prune@.wf(),
        ensures
            final(store)@.wf(),
            self@.prunes_on(old(store)@, base@, config@, prune@, now@, r@, final(store)@),
            r@.wf(),
    {
        if !prune.is_over() {
            return Phase::Pruning { base, config, prune };
        }
        match prune.finish() {
            Err(failure) => self.end(store, Err(TickError::Outside(failure))),
            Ok(_) => self.pick(store, base, config, now),
        }
    }

    /// What a tick that stands so asks for.
    fn action(&self, phase: &Phase) -> (r: Action)
        requires
            phase@.wf(),
        ensures
            r@ == self@.asks(phase@),
    {
        match phase {
            Phase::Listing => Action::ListWorktrees,
            Phase::Resolving => Action::Resolve { refname: self.base_branch.clone() },
            Phase::Configuring { base } => Action::ReadFile {
                at: base.clone(),
                path: CONFIG_PATH.to_string(),
            },
            Phase::Measuring { runs, .. } => Action::MeasureLogs { runs: copy_runs(runs) },
            Phase::Pruning { prune, .. } => Action::Prune(prune.action()),
            Phase::CheckingOut { candidate, .. } => Action::CheckOut {
                at: candidate.base_sha.clone(),
            },
            Phase::Merging { candidate, next, .. } => {
                assert(candidate@.entries.len() == candidate.entries@.len());
                let entry = &candidate.entries[*next];
                assert(candidate@.entries[*next as int] == entry@);
                Action::Merge {
                    commit: entry.branch_sha.clone(),
                    message: message_for(candidate.id, &entry.branch),
                }
            },
            Phase::Gating { config, candidate, tip } => Action::RunGate {
                command: config.gate.clone(),
                candidate: tip.clone(),
                log_path: log_path(&self.log_dir, candidate.id),
                max_log_size: config.max_log_size,
            },
            Phase::Asking { .. } => Action::AskInterrupted,
            Phase::Forwarding { candidate, tip, .. } => Action::FastForward {
                refname: self.base_branch.clone(),
                from: candidate.base_sha.clone(),
                to: tip.clone(),
            },
            Phase::Announcing { command, list, announcements, .. } => {
                assert(settled_views(list@).len() == list@.len());
                assert(announcement_views(announcements@).len() == announcements@.len());
                let settled = &list[announcements.len()];
                assert(settled_views(list@)[announcements@.len() as int] == settled@);
                Action::Announce {
                    command: command.clone(),
                    settled: settled.clone(),
                    repo_path: self.repo_path.clone(),
                    base_branch: self.base_branch.clone(),
                }
            },
            Phase::Over { .. } => Action::Finish,
        }
    }
}

fn copy_runs(runs: &Vec<LoggedRun>) -> (r: Vec<LoggedRun>)
    ensures
        logged_views(r@) == logged_views(runs@),
{
    let mut r: Vec<LoggedRun> = Vec::new();
    for i in 0..runs.len()
        invariant
            r@.len() == i,
            forall|j: int| 0 <= j < i ==> (#[trigger] r@[j])@ == runs@[j]@,
    {
        r.push(runs[i].clone());
    }
    assert(logged_views(r@) =~= logged_views(runs@));
    r
}

/// A tick under way.
pub struct Tick {
    post: Post,
    phase: Phase,
}

impl Tick {
    /// What the tick works on, and by what right.
    pub closed spec fn post(&self) -> PostView {
        self.post@
    }

    /// Where the tick is.
    pub closed spec fn phase(&self) -> PhaseView {
        self.phase@
    }

    /// Take what came of the last action, and say what is next.
    ///
    /// The queue is read and written in this step alone, so all of it is to be
    /// made to last before the action is carried out.
    pub fn next(&mut self, store: &mut Store, event: Event, now: &Timestamp) -> (r: Action)
        requires
            old(store)@.wf(),
            old(self).phase().wf(),
            old(self).phase().takes(event),
        ensures
            final(store)@.wf(),
            final(self).post() == old(self).post(),
            old(self).post().steps(
                old(self).phase(),
                old(store)@,
                event,
                now@,
                final(self).phase(),
                final(store)@,
            ),
            final(self).phase().wf(),
            r@ == final(self).post().asks(final(self).phase()),
    {
        let mut phase = Phase::Listing;
        std::mem::swap(&mut phase, &mut self.phase);
        self.phase = Tick::advance(&self.post, store, phase, event, now);
        self.post.action(&self.phase)
    }

    fn advance(post: &Post, store: &mut Store, phase: Phase, event: Event, now: &Timestamp) -> (r:
        Phase)
        requires
            old(store)@.wf(),
            phase@.wf(),
            phase@.takes(event),
        ensures
            final(store)@.wf(),
            post@.steps(phase@, old(store)@, event, now@, r@, final(store)@),
            r@.wf(),
    {
        match (phase, event) {
            (Phase::Listing, Event::Worktrees(Ok(list))) => {
                let held = holding(&list, &post.base_branch);
                assert(text::texts(held@).len() == held@.len());
                if held.len() > 0 {
                    post.end_quietly(store, TickOutcome::BaseCheckedOut { holders: held })
                } else {
                    Phase::Resolving
                }
            },
            (Phase::Listing, Event::Worktrees(Err(why))) => post.end(
                store,
                Err(TickError::Outside(why)),
            ),
            (Phase::Resolving, Event::Resolved(Ok(base))) => Phase::Configuring { base },
            (Phase::Resolving, Event::Resolved(Err(why))) => post.end(
                store,
                Err(TickError::Outside(why)),
            ),
            (Phase::Configuring { base }, Event::File(Ok(Some(source)))) => {
                let parsed = Config::parse(&source);
                assert(config_gives(source@, parsed));
                match parsed {
                    Ok(config) => {
                        let runs = store.logged_runs(&post.repo_path, &post.base_branch);
                        Phase::Measuring { base, config, runs }
                    },
                    Err(e) => post.end(store, Err(TickError::Config(e))),
                }
            },
            (Phase::Configuring { base }, Event::File(Ok(None))) => post.end(
                store,
                Err(TickError::NoConfig { at: base.as_str().to_string() }),
            ),
            (Phase::Configuring { base }, Event::File(Err(why))) => post.end(
                store,
                Err(TickError::Outside(why)),
            ),
            (Phase::Measuring { base, config, runs }, Event::Measured(measured)) => {
                let ghost logs = found(
                    standing(store@, post@.repo, post@.base, measured_views(measured@)),
                );
                match retention::apply(
                    store,
                    &post.repo_path,
                    &post.base_branch,
                    &measured,
                    config.log_budget,
                ) {
                    None => post.end(store, Err(TickError::LogsTooLarge)),
                    Some((prune, _)) => {
                        proof {
                            crate::logs::total_is_counted(
                                prune.planned(),
                                logs,
                                config.log_budget@,
                            );
                        }
                        post.prune_on(store, base, config, prune, now)
                    },
                }
            },
            (Phase::Pruning { base, config, prune }, Event::Pruned(event)) => {
                let mut going = prune;
                let _ = going.next(store, event);
                post.prune_on(store, base, config, going, now)
            },
            (Phase::CheckingOut { config, candidate }, Event::CheckedOut(Ok(_))) => {
                let tip = candidate.base_sha.clone();
                post.merge_on(store, config, candidate, 0, tip, now)
            },
            (Phase::CheckingOut { config, candidate }, Event::CheckedOut(Err(why))) => post.end(
                store,
                Err(TickError::Outside(why)),
            ),
            (
                Phase::Merging { config, candidate, next, tip },
                Event::Merged(Ok(MergeOutcome::Merged(sha))),
            ) => {
                assert(candidate@.entries.len() == candidate.entries@.len());
                let count: usize = candidate.entries.len();
                assert(next < count);
                post.merge_on(store, config, candidate, next + 1, sha, now)
            },
            (
                Phase::Merging { config, candidate, next, tip },
                Event::Merged(Ok(MergeOutcome::Conflicted)),
            ) => {
                assert(candidate@.entries.len() == candidate.entries@.len());
                assert(candidate@.entries[next as int] == candidate.entries@[next as int]@);
                post.blame(
                    store,
                    &config,
                    candidate.id,
                    &candidate.entries[next],
                    Fault::Conflict,
                    now,
                )
            },
            (Phase::Merging { config, candidate, next, tip }, Event::Merged(Err(why))) => post.end(
                store,
                Err(TickError::Outside(why)),
            ),
            (Phase::Gating { config, candidate, tip }, Event::Gated(Ok(verdict))) => post.judge(
                store,
                config,
                candidate,
                tip,
                verdict,
                now,
            ),
            (Phase::Gating { config, candidate, tip }, Event::Gated(Err(why))) => post.end(
                store,
                Err(TickError::Outside(why)),
            ),
            (Phase::Asking { config, candidate }, Event::Interrupted(interrupted)) => {
                if interrupted {
                    post.abandon(store, candidate.id, Abandoned::Interrupted, now)
                } else {
                    post.fail_gate(store, config, candidate, now)
                }
            },
            (
                Phase::Forwarding { config, candidate, tip },
                Event::Forwarded(Ok(RefUpdate::Updated)),
            ) => post.land(store, config, candidate, tip, now),
            (
                Phase::Forwarding { config, candidate, tip },
                Event::Forwarded(Ok(RefUpdate::Stale)),
            ) => post.abandon(store, candidate.id, Abandoned::BaseMoved, now),
            (Phase::Forwarding { config, candidate, tip }, Event::Forwarded(Err(why))) => post.end(
                store,
                Err(TickError::Outside(why)),
            ),
            (
                Phase::Announcing { command, outcome, list, announcements },
                Event::Announced(delivery),
            ) => {
                assert(settled_views(list@).len() == list@.len());
                assert(announcement_views(announcements@).len() == announcements@.len());
                let at: usize = announcements.len();
                let told = Announcement { settled: list[at].clone(), delivery };
                assert(settled_views(list@)[at as int] == list@[at as int]@);
                let ghost had = announcements@;
                let mut announcements = announcements;
                announcements.push(told);
                assert(announcement_views(announcements@) =~= announcement_views(had).push(told@));
                if announcements.len() < list.len() {
                    Phase::Announcing { command, outcome, list, announcements }
                } else {
                    post.end(store, Ok(TickReport { outcome, announcements }))
                }
            },
            (phase, _) => {
                assert(false);
                phase
            },
        }
    }

    /// Give the lease back, if it is still ours, because a step could not be made
    /// to last and the tick cannot go on.
    pub fn give_up(&self, store: &mut Store)
        requires
            old(store)@.wf(),
        ensures
            final(store)@.wf(),
            final(store)@ == self.post().given_back(old(store)@),
    {
        self.post.give_back(store);
    }

    /// What the tick came to, once it is over.
    pub fn into_result(self) -> (r: Option<Result<TickReport, TickError>>)
        ensures
            match r {
                Some(result) => self.phase() == (PhaseView::Over { result: result_view(result) }),
                None => !(self.phase() is Over),
            },
    {
        match self.phase {
            Phase::Over { result } => Some(result),
            _ => None,
        }
    }
}

/// Whose queue to work on, and how long a lease on it lasts.
#[derive(Debug)]
pub struct Worker {
    repo_path: String,
    base_branch: String,
    log_dir: String,
    lease_ttl: Span,
}

/// How a tick begins: with the lease, or with the news that another worker has
/// it.
pub open spec fn begins(
    q: Ledger,
    post: PostView,
    ttl: Span,
    now: Instant,
    pid: i32,
    holder: Liveness,
    phase: PhaseView,
    q2: Ledger,
) -> bool {
    exists|r: Result<Acquisition, LeaseError>|
        {
            &&& #[trigger] acquire_gives(q, post.repo, post.base, ttl, now, pid, holder, r, q2)
            &&& match r {
                Ok(Acquisition::Acquired { lease, .. }) => {
                    &&& post.lease == Some(lease@)
                    &&& phase == PhaseView::Listing
                },
                Ok(Acquisition::Held { holder_pid, .. }) => {
                    &&& post.lease is None
                    &&& phase == (PhaseView::Over {
                        result: Ok(quiet(OutcomeView::AnotherWorkerHolds { holder_pid })),
                    })
                },
                Err(e) => {
                    &&& post.lease is None
                    &&& phase == (PhaseView::Over { result: Err(TickError::Lease(e)) })
                },
            }
        }
}

impl Worker {
    pub closed spec fn repo(&self) -> Seq<char> {
        self.repo_path@
    }

    pub closed spec fn base(&self) -> Seq<char> {
        self.base_branch@
    }

    pub closed spec fn log_dir(&self) -> Seq<char> {
        self.log_dir@
    }

    pub closed spec fn lease_ttl(&self) -> Span {
        self.lease_ttl
    }

    pub fn new(repo_path: &str, base_branch: &str, log_dir: &str) -> (r: Self)
        ensures
            r.repo() == repo_path@,
            r.base() == base_branch@,
            r.log_dir() == log_dir@,
            r.lease_ttl() == (Span { secs: 300, nanos: 0 }),
    {
        Worker {
            repo_path: repo_path.to_string(),
            base_branch: base_branch.to_string(),
            log_dir: log_dir.to_string(),
            lease_ttl: Span::from_secs(300),
        }
    }

    pub fn with_lease_ttl(self, ttl: Span) -> (r: Self)
        ensures
            r.repo() == self.repo(),
            r.base() == self.base(),
            r.log_dir() == self.log_dir(),
            r.lease_ttl() == ttl,
    {
        Worker {
            repo_path: self.repo_path,
            base_branch: self.base_branch,
            log_dir: self.log_dir,
            lease_ttl: ttl,
        }
    }

    /// Begin to advance the queue by at most one candidate: take the lease, and
    /// say what is next.
    ///
    /// `holder` is what probing the process that [`lease::holder`] names says.
    pub fn tick(&self, store: &mut Store, now: &Timestamp, pid: i32, holder: Liveness) -> (r: (
        Tick,
        Action,
    ))
        requires
            old(store)@.wf(),
        ensures
            final(store)@.wf(),
            r.0.post().repo == self.repo(),
            r.0.post().base == self.base(),
            r.0.post().log_dir == self.log_dir(),
            begins(
                old(store)@,
                r.0.post(),
                self.lease_ttl(),
                now@,
                pid,
                holder,
                r.0.phase(),
                final(store)@,
            ),
            r.0.phase().wf(),
            r.1@ == r.0.post().asks(r.0.phase()),
    {
        let ghost q = store@;
        let acquired = lease::acquire(
            store,
            &self.repo_path,
            &self.base_branch,
            self.lease_ttl,
            now,
            pid,
            holder,
        );
        assert(acquire_gives(
            q,
            self.repo(),
            self.base(),
            self.lease_ttl(),
            now@,
            pid,
            holder,
            acquired,
            store@,
        ));
        let (lease, phase): (Option<Lease>, Phase) = match acquired {
            Ok(Acquisition::Acquired { lease, .. }) => (Some(lease), Phase::Listing),
            Ok(Acquisition::Held { holder_pid, .. }) => {
                let report = TickReport {
                    outcome: TickOutcome::AnotherWorkerHolds { holder_pid },
                    announcements: Vec::new(),
                };
                assert(report@.announcements =~= Seq::<AnnouncementView>::empty());
                (None, Phase::Over { result: Ok(report) })
            },
            Err(e) => (None, Phase::Over { result: Err(TickError::Lease(e)) }),
        };
        let post = Post {
            repo_path: self.repo_path.clone(),
            base_branch: self.base_branch.clone(),
            log_dir: self.log_dir.clone(),
            lease,
        };
        let action = post.action(&phase);
        (Tick { post, phase }, action)
    }
}

/// Carry out an action that git, the merge gate or the hook is there for. Nothing for
/// the others: those are about the log files, or about a stop.
pub fn perform<G: Git, T: Gate, N: Notifier>(
    action: &Action,
    git: &G,
    gate: &T,
    notifier: &N,
) -> (r: Option<Event>)
    ensures
        match (*action, r) {
            (Action::ListWorktrees, Some(Event::Worktrees(list))) => call_ensures(
                G::worktrees,
                (git,),
                list,
            ),
            (Action::Resolve { refname }, Some(Event::Resolved(sha))) => exists|name: &str|
                name@ == refname@ && #[trigger] call_ensures(G::resolve, (git, name), sha),
            (Action::ReadFile { at, path }, Some(Event::File(file))) => exists|name: &str|
                name@ == path@ && #[trigger] call_ensures(G::read_file_at, (git, &at, name), file),
            (Action::CheckOut { at }, Some(Event::CheckedOut(done))) => call_ensures(
                G::checkout_detached,
                (git, &at),
                done,
            ),
            (Action::Merge { commit, message }, Some(Event::Merged(outcome))) => exists|text: &str|
                text@ == message@ && #[trigger] call_ensures(
                    G::merge,
                    (git, &commit, text),
                    outcome,
                ),
            (
                Action::RunGate { command, candidate, log_path, max_log_size },
                Some(Event::Gated(verdict)),
            ) => exists|script: &str, path: &str|
                script@ == command@ && path@ == log_path@ && #[trigger] call_ensures(
                    T::run,
                    (gate, script, &candidate, path, max_log_size),
                    verdict,
                ),
            (Action::FastForward { refname, from, to }, Some(Event::Forwarded(update))) => exists|
                name: &str,
            | name@ == refname@ && #[trigger] call_ensures(
                G::fast_forward,
                (git, name, &from, &to),
                update,
            ),
            (
                Action::Announce { command, settled, repo_path, base_branch },
                Some(Event::Announced(delivery)),
            ) => exists|script: &str, repo: &str, base: &str|
                script@ == command@ && repo@ == repo_path@ && base@ == base_branch@
                    && #[trigger] call_ensures(
                    N::settled,
                    (notifier, script, &settled, repo, base),
                    delivery,
                ),
            (Action::MeasureLogs { .. }, None) => true,
            (Action::Prune(_), None) => true,
            (Action::AskInterrupted, None) => true,
            (Action::Finish, None) => true,
            _ => false,
        },
{
    match action {
        Action::ListWorktrees => Some(Event::Worktrees(git.worktrees())),
        Action::Resolve { refname } => {
            let name = refname.as_str();
            Some(Event::Resolved(git.resolve(name)))
        },
        Action::ReadFile { at, path } => {
            let name = path.as_str();
            Some(Event::File(git.read_file_at(at, name)))
        },
        Action::CheckOut { at } => Some(Event::CheckedOut(git.checkout_detached(at))),
        Action::Merge { commit, message } => {
            let text = message.as_str();
            Some(Event::Merged(git.merge(commit, text)))
        },
        Action::RunGate { command, candidate, log_path, max_log_size } => {
            let script = command.as_str();
            let path = log_path.as_str();
            Some(Event::Gated(gate.run(script, candidate, path, *max_log_size)))
        },
        Action::FastForward { refname, from, to } => {
            let name = refname.as_str();
            Some(Event::Forwarded(git.fast_forward(name, from, to)))
        },
        Action::Announce { command, settled, repo_path, base_branch } => {
            let script = command.as_str();
            let repo = repo_path.as_str();
            let base = base_branch.as_str();
            Some(Event::Announced(notifier.settled(script, settled, repo, base)))
        },
        Action::MeasureLogs { .. } => None,
        Action::Prune(_) => None,
        Action::AskInterrupted => None,
        Action::Finish => None,
    }
}

} // verus!
