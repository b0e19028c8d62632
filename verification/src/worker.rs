//! What a pass of the queue came to, and the loop around passes.
//!
//! A tick takes the lease, advances the queue by at most one candidate, and
//! gives the lease back. It is the whole of the queue's behaviour, and stands in
//! [`crate::tick`]: working is only a loop around it.

use vstd::prelude::*;

use crate::gate::at_gate;
use crate::gate::gate_phrase;
use crate::git::Sha;
use crate::notify::Delivery;
use crate::notify::DeliveryView;
use crate::queue::ledger::SettledView;
use crate::queue::model::EntryId;
use crate::queue::store::Blame;
use crate::queue::store::Settled;
use crate::text;
use crate::time::Span;

pub use crate::tick::Worker;

verus! {

/// Why a candidate was abandoned without blaming anything in it.
#[derive(Debug, Clone, Copy, PartialEq, Eq, Structural)]
pub enum Abandoned {
    /// The base branch moved, so what the merge gate proved no longer applies.
    BaseMoved,
    /// The worker was asked to stop while the merge gate was running.
    ///
    /// A signal reaches the whole process group, so the merge gate's shell dies with
    /// the worker and exits non-zero. That is not the branch misbehaving, and
    /// charging it an attempt would let repeated interruptions evict something
    /// that never failed on its merits.
    Interrupted,
}

/// Why a candidate was pinned on one entry.
#[derive(Debug, Clone, Copy, PartialEq, Eq, Structural)]
pub enum Fault {
    /// It would not merge onto the base at all.
    Conflict,
    /// It was alone in the candidate and the merge gate failed.
    GateFailed,
}

impl Fault {
    /// How the fault is recorded on an entry.
    pub open spec fn described(self) -> Seq<char> {
        match self {
            Fault::Conflict => "conflicts with the base branch"@,
            Fault::GateFailed => at_gate("failed"@, " on its own"@),
        }
    }

    /// How the fault is recorded on an entry.
    pub fn description(self) -> (r: String)
        ensures
            r@ == self.described(),
    {
        match self {
            Fault::Conflict => "conflicts with the base branch".to_string(),
            Fault::GateFailed => gate_phrase("failed", " on its own"),
        }
    }
}

#[derive(Debug, PartialEq, Eq)]
#[allow(inconsistent_fields)]
pub enum TickOutcome {
    /// Nothing is queued.
    Idle,
    /// Another worker has the branch. Not an error.
    AnotherWorkerHolds { holder_pid: i32 },
    /// The base branch is checked out somewhere, so moving it would corrupt
    /// that checkout. Nothing was attempted.
    BaseCheckedOut { holders: Vec<String> },
    /// The candidate passed and the base now points at it.
    Landed { candidate: i64, entries: usize, at: Sha },
    /// The candidate was thrown away and its entries went back in the queue,
    /// spending none of their retry budget.
    Abandoned { candidate: i64, requeued: usize, reason: Abandoned },
    /// One entry was identified as the fault.
    Blamed { candidate: i64, entry: EntryId, branch: String, blame: Blame, reason: Fault },
    /// The candidate failed with more than one entry in it, so it was split and
    /// the first half will be tried next.
    Split { failed: i64, next: i64, retrying: usize },
}

/// What a pass of the queue came to, over texts.
#[allow(inconsistent_fields)]
pub enum OutcomeView {
    Idle,
    AnotherWorkerHolds { holder_pid: i32 },
    BaseCheckedOut { holders: Seq<Seq<char>> },
    Landed { candidate: i64, entries: usize, at: Seq<char> },
    Abandoned { candidate: i64, requeued: usize, reason: Abandoned },
    Blamed { candidate: i64, entry: EntryId, branch: Seq<char>, blame: Blame, reason: Fault },
    Split { failed: i64, next: i64, retrying: usize },
}

impl View for TickOutcome {
    type V = OutcomeView;

    open spec fn view(&self) -> OutcomeView {
        match self {
            TickOutcome::Idle => OutcomeView::Idle,
            TickOutcome::AnotherWorkerHolds { holder_pid } => OutcomeView::AnotherWorkerHolds {
                holder_pid: *holder_pid,
            },
            TickOutcome::BaseCheckedOut { holders } => OutcomeView::BaseCheckedOut {
                holders: text::texts(holders@),
            },
            TickOutcome::Landed { candidate, entries, at } => OutcomeView::Landed {
                candidate: *candidate,
                entries: *entries,
                at: at@,
            },
            TickOutcome::Abandoned { candidate, requeued, reason } => OutcomeView::Abandoned {
                candidate: *candidate,
                requeued: *requeued,
                reason: *reason,
            },
            TickOutcome::Blamed { candidate, entry, branch, blame, reason } => OutcomeView::Blamed {
                candidate: *candidate,
                entry: *entry,
                branch: branch@,
                blame: *blame,
                reason: *reason,
            },
            TickOutcome::Split { failed, next, retrying } => OutcomeView::Split {
                failed: *failed,
                next: *next,
                retrying: *retrying,
            },
        }
    }
}

impl OutcomeView {
    /// The queue moved.
    pub open spec fn progress(self) -> bool {
        self is Landed || self is Split || self is Blamed || self is Abandoned
    }
}

impl TickOutcome {
    /// Whether the queue moved.
    ///
    /// Drives both how soon to tick again and whether the outcome is worth
    /// reporting twice in a row: a resident worker repeating "nothing queued"
    /// every interval is noise that buries the lines that matter.
    pub fn is_progress(&self) -> (r: bool)
        ensures
            r == self@.progress(),
    {
        match self {
            Self::Landed { .. } => true,
            Self::Split { .. } => true,
            Self::Blamed { .. } => true,
            Self::Abandoned { .. } => true,
            _ => false,
        }
    }
}

/// An entry that settled, and what became of telling someone.
#[derive(Debug, PartialEq, Eq)]
pub struct Announcement {
    pub settled: Settled,
    pub delivery: Delivery,
}

/// What an announcement is.
pub struct AnnouncementView {
    pub settled: SettledView,
    pub delivery: DeliveryView,
}

impl View for Announcement {
    type V = AnnouncementView;

    open spec fn view(&self) -> AnnouncementView {
        AnnouncementView { settled: self.settled@, delivery: self.delivery@ }
    }
}

/// The announcements of a list.
pub open spec fn announcement_views(list: Seq<Announcement>) -> Seq<AnnouncementView> {
    Seq::new(list.len(), |i: int| list[i]@)
}

/// What a pass of the queue came to, and who was told.
#[derive(Debug, PartialEq, Eq)]
pub struct TickReport {
    pub outcome: TickOutcome,
    /// In the order in which the entries settled. A hook that fails is reported
    /// here, alongside the outcome and never instead of it.
    pub announcements: Vec<Announcement>,
}

/// What a report says.
pub struct ReportView {
    pub outcome: OutcomeView,
    pub announcements: Seq<AnnouncementView>,
}

impl View for TickReport {
    type V = ReportView;

    open spec fn view(&self) -> ReportView {
        ReportView {
            outcome: self.outcome@,
            announcements: announcement_views(self.announcements@),
        }
    }
}

/// How the loop around ticks is paced.
#[derive(Debug, Clone, Copy, PartialEq, Eq, Structural)]
pub struct WorkOptions {
    /// How long to wait when there is nothing to do, or when the queue needs a
    /// human before it can progress.
    pub idle: Span,
    /// Stop after this many ticks fail in a row.
    ///
    /// Some failures never clear on their own: a missing gate config, or a
    /// repository that has moved. Looping on those forever would be a worker
    /// that looks alive and achieves nothing, so it gives up and says why.
    pub give_up_after: usize,
}

impl Default for WorkOptions {
    fn default() -> (r: Self)
        ensures
            r == (WorkOptions { idle: Span { secs: 2, nanos: 0 }, give_up_after: 5 }),
    {
        WorkOptions { idle: Span::from_secs(2), give_up_after: 5 }
    }
}

#[derive(Debug, Clone, Copy, PartialEq, Eq, Structural)]
pub struct WorkSummary {
    pub ticks: usize,
    pub entries_landed: usize,
    pub entries_evicted: usize,
    pub failures: usize,
}

impl Default for WorkSummary {
    fn default() -> (r: Self)
        ensures
            r == (WorkSummary { ticks: 0, entries_landed: 0, entries_evicted: 0, failures: 0 }),
    {
        WorkSummary { ticks: 0, entries_landed: 0, entries_evicted: 0, failures: 0 }
    }
}

/// A count with more added to it, as far as it goes.
pub open spec fn counted(n: usize, more: usize) -> usize {
    if n + more <= usize::MAX {
        (n + more) as usize
    } else {
        usize::MAX
    }
}

fn count(n: usize, more: usize) -> (r: usize)
    ensures
        r == counted(n, more),
{
    match n.checked_add(more) {
        Some(sum) => sum,
        None => usize::MAX,
    }
}

impl WorkSummary {
    /// The summary with one outcome more.
    pub open spec fn with(self, outcome: OutcomeView) -> WorkSummary {
        match outcome {
            OutcomeView::Landed { entries, .. } => WorkSummary {
                entries_landed: counted(self.entries_landed, entries),
                ..self
            },
            OutcomeView::Blamed { blame: Blame::Evicted, .. } => WorkSummary {
                entries_evicted: counted(self.entries_evicted, 1),
                ..self
            },
            _ => self,
        }
    }

    /// Take an outcome into the summary.
    pub fn record(&mut self, outcome: &TickOutcome)
        ensures
            *final(self) == old(self).with(outcome@),
    {
        match outcome {
            TickOutcome::Landed { entries, .. } => {
                self.entries_landed = count(self.entries_landed, *entries);
            },
            TickOutcome::Blamed { blame, .. } => match blame {
                Blame::Evicted => {
                    self.entries_evicted = count(self.entries_evicted, 1);
                },
                Blame::Requeued => {},
            },
            _ => {},
        }
    }
}

/// How long to wait before ticking again.
pub open spec fn pause_of(outcome: OutcomeView, idle: Span) -> Span {
    if outcome.progress() {
        Span { secs: 0, nanos: 0 }
    } else {
        idle
    }
}

/// How long to wait before ticking again.
///
/// Progress means there is probably more to do straight away; anything else
/// means waiting is the right move. Separated out from the loop so the pacing
/// can be tested without sleeping.
pub fn pause_after(outcome: &TickOutcome, idle: Span) -> (r: Span)
    ensures
        r == pause_of(outcome@, idle),
{
    if outcome.is_progress() {
        Span { secs: 0, nanos: 0 }
    } else {
        idle
    }
}

/// What the loop around ticks asks for next.
#[derive(Debug, Clone, Copy, PartialEq, Eq, Structural)]
pub enum WorkAction {
    /// See whether a stop was asked for.
    CheckStop,
    /// Tick.
    Tick,
    /// Report what the tick came to, as it happens rather than at the end.
    Report,
    /// Wait.
    Sleep { span: Span },
    /// Stop: a stop was asked for.
    Finish,
    /// Stop: this many ticks failed in a row, and the last failure says why.
    GiveUp { failures: usize },
}

/// What came of it.
pub enum Progress<'a> {
    Stop(bool),
    Ticked(&'a TickOutcome),
    Failed,
    Reported,
    Slept,
}

/// Where the loop is.
#[derive(Debug, Clone, Copy, PartialEq, Eq, Structural)]
pub enum WorkPhase {
    /// Between ticks. A stop is looked for here rather than during a tick, so a
    /// worker always finishes the candidate it is on.
    Between,
    Ticking,
    /// The tick came to something, and it is being reported.
    Reporting { pause: Span },
    /// A pause is due unless a stop was asked for.
    Pausing { pause: Span },
    Sleeping,
    /// The tick failed. Was that a stop reaching git or the merge gate?
    Doubting,
    /// It was not, and it is being reported.
    Complaining,
    Over,
}

/// The loop around ticks.
#[derive(Debug, Clone, Copy, PartialEq, Eq, Structural)]
pub struct Work {
    pub options: WorkOptions,
    pub summary: WorkSummary,
    pub consecutive_failures: usize,
    pub phase: WorkPhase,
}

impl WorkPhase {
    /// The event is an answer to what was asked.
    pub open spec fn takes(self, event: Progress) -> bool {
        match self {
            WorkPhase::Between => event is Stop,
            WorkPhase::Ticking => event is Ticked || event is Failed,
            WorkPhase::Reporting { .. } => event is Reported,
            WorkPhase::Pausing { .. } => event is Stop,
            WorkPhase::Sleeping => event is Slept,
            WorkPhase::Doubting => event is Stop,
            WorkPhase::Complaining => event is Reported,
            WorkPhase::Over => false,
        }
    }
}

impl Work {
    /// Begin to work: first see whether a stop was asked for.
    pub fn start(options: WorkOptions) -> (r: (Work, WorkAction))
        ensures
            r.0 == (Work {
                options,
                summary: WorkSummary {
                    ticks: 0,
                    entries_landed: 0,
                    entries_evicted: 0,
                    failures: 0,
                },
                consecutive_failures: 0,
                phase: WorkPhase::Between,
            }),
            r.1 == WorkAction::CheckStop,
    {
        let work = Work {
            options,
            summary: WorkSummary::default(),
            consecutive_failures: 0,
            phase: WorkPhase::Between,
        };
        (work, WorkAction::CheckStop)
    }

    /// The loop at another place, with the rest as it was.
    pub open spec fn at(self, phase: WorkPhase) -> Work {
        Work { phase, ..self }
    }

    /// The loop once something came of what it asked for, and what it asks for
    /// next.
    pub open spec fn after(self, event: Progress) -> (Work, WorkAction) {
        match (self.phase, event) {
            (WorkPhase::Between, Progress::Stop(stop)) => if stop {
                (self.at(WorkPhase::Over), WorkAction::Finish)
            } else {
                (self.at(WorkPhase::Ticking), WorkAction::Tick)
            },
            (WorkPhase::Ticking, Progress::Ticked(outcome)) => (
                Work {
                    consecutive_failures: 0,
                    summary: (WorkSummary {
                        ticks: counted(self.summary.ticks, 1),
                        ..self.summary
                    }).with(outcome@),
                    phase: WorkPhase::Reporting { pause: pause_of(outcome@, self.options.idle) },
                    ..self
                },
                WorkAction::Report,
            ),
            (WorkPhase::Ticking, _) => (self.at(WorkPhase::Doubting), WorkAction::CheckStop),
            (WorkPhase::Reporting { pause }, _) => (
                self.at(
                    if pause.zero() {
                        WorkPhase::Between
                    } else {
                        WorkPhase::Pausing { pause }
                    },
                ),
                WorkAction::CheckStop,
            ),
            (WorkPhase::Pausing { pause }, Progress::Stop(stop)) => if stop {
                (self.at(WorkPhase::Between), WorkAction::CheckStop)
            } else {
                (self.at(WorkPhase::Sleeping), WorkAction::Sleep { span: pause })
            },
            (WorkPhase::Sleeping, _) => (self.at(WorkPhase::Between), WorkAction::CheckStop),
            (WorkPhase::Doubting, Progress::Stop(stop)) => if stop {
                (self.at(WorkPhase::Over), WorkAction::Finish)
            } else {
                let failures = counted(self.consecutive_failures, 1);
                let charged = Work {
                    consecutive_failures: failures,
                    summary: WorkSummary {
                        failures: counted(self.summary.failures, 1),
                        ..self.summary
                    },
                    ..self
                };
                if failures >= self.options.give_up_after {
                    (charged.at(WorkPhase::Over), WorkAction::GiveUp { failures })
                } else {
                    (charged.at(WorkPhase::Complaining), WorkAction::Report)
                }
            },
            (WorkPhase::Complaining, _) => (
                self.at(WorkPhase::Pausing { pause: self.options.idle }),
                WorkAction::CheckStop,
            ),
            _ => (self, WorkAction::Finish),
        }
    }

    /// Take what came of the last action, and say what is next.
    ///
    /// Ticks that fail in a row are counted, and the loop gives up rather than
    /// looping forever on something that will never clear. A signal reaches every
    /// child process, so git or a gate can die mid-command and report a non-zero
    /// exit with nothing on stderr. That is the interruption arriving, not a
    /// fault, and counting it would end a clean shutdown with a phantom failure
    /// and a misleading error.
    pub fn next(&mut self, event: Progress) -> (r: WorkAction)
        requires
            old(self).phase.takes(event),
        ensures
            (*final(self), r) == old(self).after(event),
    {
        match self.phase {
            WorkPhase::Between => {
                let stop = matches!(event, Progress::Stop(true));
                if stop {
                    self.phase = WorkPhase::Over;
                    WorkAction::Finish
                } else {
                    self.phase = WorkPhase::Ticking;
                    WorkAction::Tick
                }
            },
            WorkPhase::Ticking => match event {
                Progress::Ticked(outcome) => {
                    self.consecutive_failures = 0;
                    self.summary.ticks = count(self.summary.ticks, 1);
                    self.summary.record(outcome);
                    self.phase = WorkPhase::Reporting {
                        pause: pause_after(outcome, self.options.idle),
                    };
                    WorkAction::Report
                },
                _ => {
                    self.phase = WorkPhase::Doubting;
                    WorkAction::CheckStop
                },
            },
            WorkPhase::Reporting { pause } => {
                self.phase = if pause.is_zero() {
                    WorkPhase::Between
                } else {
                    WorkPhase::Pausing { pause }
                };
                WorkAction::CheckStop
            },
            WorkPhase::Pausing { pause } => {
                let stop = matches!(event, Progress::Stop(true));
                if stop {
                    self.phase = WorkPhase::Between;
                    WorkAction::CheckStop
                } else {
                    self.phase = WorkPhase::Sleeping;
                    WorkAction::Sleep { span: pause }
                }
            },
            WorkPhase::Sleeping => {
                self.phase = WorkPhase::Between;
                WorkAction::CheckStop
            },
            WorkPhase::Doubting => {
                let stop = matches!(event, Progress::Stop(true));
                if stop {
                    self.phase = WorkPhase::Over;
                    return WorkAction::Finish;
                }
                self.consecutive_failures = count(self.consecutive_failures, 1);
                self.summary.failures = count(self.summary.failures, 1);
                if self.consecutive_failures >= self.options.give_up_after {
                    self.phase = WorkPhase::Over;
                    WorkAction::GiveUp { failures: self.consecutive_failures }
                } else {
                    self.phase = WorkPhase::Complaining;
                    WorkAction::Report
                }
            },
            WorkPhase::Complaining => {
                self.phase = WorkPhase::Pausing { pause: self.options.idle };
                WorkAction::CheckStop
            },
            WorkPhase::Over => WorkAction::Finish,
        }
    }
}

/// The loop after a tick that failed, reported and waited out, with no stop asked
/// for.
pub open spec fn after_failing(work: Work) -> Work {
    work.after(Progress::Stop(false)).0.after(Progress::Failed).0.after(
        Progress::Stop(false),
    ).0.after(Progress::Reported).0.after(Progress::Stop(false)).0.after(Progress::Slept).0
}

/// The loop after so many ticks that failed in a row.
pub open spec fn after_failures(work: Work, n: nat) -> Work
    decreases n,
{
    if n == 0 {
        work
    } else {
        after_failing(after_failures(work, (n - 1) as nat))
    }
}

/// The loop goes on while fewer ticks have failed in a row than it puts up with.
pub proof fn the_loop_puts_up_with_failures(work: Work, n: nat)
    requires
        work.phase == WorkPhase::Between,
        work.consecutive_failures + n < work.options.give_up_after,
    ensures
        after_failures(work, n).phase == WorkPhase::Between,
        after_failures(work, n).options == work.options,
        after_failures(work, n).consecutive_failures == work.consecutive_failures + n,
    decreases n,
{
    if n > 0 {
        the_loop_puts_up_with_failures(work, (n - 1) as nat);
    }
}

/// The loop gives up when that many ticks have failed in a row, and it says how
/// many.
pub proof fn the_loop_gives_up(work: Work, n: nat)
    requires
        work.phase == WorkPhase::Between,
        work.consecutive_failures + n + 1 == work.options.give_up_after,
    ensures
        after_failures(work, n).after(Progress::Stop(false)).0.after(Progress::Failed).0.after(
            Progress::Stop(false),
        ).1 == (WorkAction::GiveUp { failures: work.options.give_up_after }),
{
    the_loop_puts_up_with_failures(work, n);
}

/// Failures are counted in a row and not in total: a tick that works starts the
/// count again.
pub proof fn success_starts_the_count_again(work: Work, outcome: &TickOutcome)
    requires
        work.phase == WorkPhase::Ticking,
    ensures
        work.after(Progress::Ticked(outcome)).0.consecutive_failures == 0,
        work.after(Progress::Ticked(outcome)).0.summary.failures == work.summary.failures,
{
}

/// A stop is never counted as a failure, wherever it comes.
pub proof fn a_stop_is_no_failure(work: Work)
    ensures
        work.after(Progress::Stop(true)).0.summary == work.summary,
        work.after(Progress::Stop(true)).0.consecutive_failures == work.consecutive_failures,
{
}

/// How many entries an event of the loop says have landed.
pub open spec fn landed_by(event: Progress) -> nat {
    match event {
        Progress::Ticked(TickOutcome::Landed { entries, .. }) => *entries as nat,
        _ => 0,
    }
}

/// How many entries an event of the loop says are out for good: the one that was
/// blamed, if its last attempt went with that.
pub open spec fn evicted_by(event: Progress) -> nat {
    match event {
        Progress::Ticked(TickOutcome::Blamed { blame: Blame::Evicted, .. }) => 1,
        _ => 0,
    }
}

/// How many ticks an event of the loop says came to something.
pub open spec fn ticked_by(event: Progress) -> nat {
    if event is Ticked {
        1
    } else {
        0
    }
}

/// All that a run of events says have landed.
pub open spec fn landed_in(events: Seq<Progress>) -> nat
    decreases events.len(),
{
    if events.len() == 0 {
        0
    } else {
        landed_in(events.drop_last()) + landed_by(events.last())
    }
}

/// All that a run of events says are out for good.
pub open spec fn evicted_in(events: Seq<Progress>) -> nat
    decreases events.len(),
{
    if events.len() == 0 {
        0
    } else {
        evicted_in(events.drop_last()) + evicted_by(events.last())
    }
}

/// All the ticks that a run of events says came to something.
pub open spec fn ticked_in(events: Seq<Progress>) -> nat
    decreases events.len(),
{
    if events.len() == 0 {
        0
    } else {
        ticked_in(events.drop_last()) + ticked_by(events.last())
    }
}

/// A tick failed, and it was not a stop that made it fail.
pub open spec fn failed_at(events: Seq<Progress>, i: int) -> bool {
    1 <= i < events.len() && events[i - 1] is Failed && events[i] == Progress::Stop(false)
}

/// All the ticks that failed, without those that a stop made fail.
pub open spec fn failed_in(events: Seq<Progress>) -> nat
    decreases events.len(),
{
    if events.len() == 0 {
        0
    } else {
        failed_in(events.drop_last()) + if failed_at(events, events.len() - 1) {
            1nat
        } else {
            0
        }
    }
}

/// A number as far as a count goes.
pub open spec fn as_counted(n: nat) -> usize {
    if n <= usize::MAX {
        n as usize
    } else {
        usize::MAX
    }
}

/// The loop, from its start, over a number of events: each is an answer to what
/// the loop asked for.
pub open spec fn is_run(works: Seq<Work>, events: Seq<Progress>) -> bool {
    &&& works.len() == events.len() + 1
    &&& works[0].phase == WorkPhase::Between
    &&& works[0].consecutive_failures == 0
    &&& works[0].summary == (WorkSummary {
        ticks: 0,
        entries_landed: 0,
        entries_evicted: 0,
        failures: 0,
    })
    &&& forall|i: int|
        0 <= i < events.len() ==> {
            &&& (#[trigger] works[i]).phase.takes(events[i])
            &&& works[i + 1] == works[i].after(events[i]).0
        }
}

proof fn a_shorter_run(works: Seq<Work>, events: Seq<Progress>)
    requires
        is_run(works, events),
        events.len() > 0,
    ensures
        is_run(works.drop_last(), events.drop_last()),
        works[works.len() - 2].phase.takes(events.last()),
        works.last() == works[works.len() - 2].after(events.last()).0,
{
    let w = works.drop_last();
    let e = events.drop_last();
    assert forall|i: int| 0 <= i < e.len() implies {
        &&& (#[trigger] w[i]).phase.takes(e[i])
        &&& w[i + 1] == w[i].after(e[i]).0
    } by {
        assert(works[i].phase.takes(events[i]));
    }
    assert(works[events.len() - 1].phase.takes(events[events.len() - 1]));
}

/// The loop doubts a tick exactly while the last event was that it failed.
proof fn doubt_follows_failure(works: Seq<Work>, events: Seq<Progress>)
    requires
        is_run(works, events),
    ensures
        works.last().phase == WorkPhase::Doubting <==> events.len() > 0 && events.last() is Failed,
{
    if events.len() > 0 {
        a_shorter_run(works, events);
    }
}

/// Over any run of the loop, its summary is the sum of what happened: the entries
/// that landed are those of the landings and no others, the entries evicted are
/// as many as the outcomes that blamed an entry for the last time, and neither is
/// touched by an entry that goes back in the queue; the ticks are those that came
/// to something, and the failures those that no stop explains.
pub proof fn the_summary_is_what_happened(works: Seq<Work>, events: Seq<Progress>)
    requires
        is_run(works, events),
    ensures
        works.last().summary.entries_landed == as_counted(landed_in(events)),
        works.last().summary.entries_evicted == as_counted(evicted_in(events)),
        works.last().summary.ticks == as_counted(ticked_in(events)),
        works.last().summary.failures == as_counted(failed_in(events)),
        works.last().options == works[0].options,
    decreases events.len(),
{
    if events.len() > 0 {
        a_shorter_run(works, events);
        let w = works.drop_last();
        let e = events.drop_last();
        the_summary_is_what_happened(w, e);
        doubt_follows_failure(w, e);
        assert(e.len() > 0 ==> e.last() == events[events.len() - 2]);
    }
}

/// What one outcome adds to a summary: to the landed the entries of a landing, to
/// the evicted the one entry of a last blame, and nothing else to anything.
pub proof fn what_an_outcome_adds(summary: &mut WorkSummary, outcome: &TickOutcome)
    requires
        call_ensures(WorkSummary::record, (summary, outcome), ()),
        summary.entries_landed + landed_by(Progress::Ticked(outcome)) <= usize::MAX,
        summary.entries_evicted + 1 <= usize::MAX,
    ensures
        final(summary).entries_landed == old(summary).entries_landed + landed_by(
            Progress::Ticked(outcome),
        ),
        final(summary).entries_evicted == old(summary).entries_evicted + (if (
        outcome matches TickOutcome::Blamed { blame: Blame::Evicted, .. }) {
            1int
        } else {
            0
        }),
        final(summary).ticks == old(summary).ticks,
        final(summary).failures == old(summary).failures,
{
}

/// The queue moved: a candidate was opened, landed, was given up or was pinned on
/// one of its entries.
pub open spec fn moved(outcome: TickOutcome) -> bool {
    match outcome {
        TickOutcome::Landed { .. } => true,
        TickOutcome::Split { .. } => true,
        TickOutcome::Blamed { .. } => true,
        TickOutcome::Abandoned { .. } => true,
        TickOutcome::Idle => false,
        TickOutcome::AnotherWorkerHolds { .. } => false,
        TickOutcome::BaseCheckedOut { .. } => false,
    }
}

/// Where the queue moved the next tick follows at once. Where it did not, the loop
/// waits just as long as it was told to, if that is any time at all, and then
/// ticks again. Every outcome is reported first.
pub proof fn the_loop_is_paced(work: Work, outcome: &TickOutcome)
    requires
        work.phase == WorkPhase::Ticking,
    ensures
        ({
            let told = work.after(Progress::Ticked(outcome));
            let asked = told.0.after(Progress::Reported);
            let on = asked.0.after(Progress::Stop(false));
            let waited = on.0.after(Progress::Slept);
            let idle = work.options.idle;
            &&& told.1 == WorkAction::Report
            &&& asked.1 == WorkAction::CheckStop
            &&& if moved(*outcome) || (idle.secs == 0 && idle.nanos == 0) {
                on.1 == WorkAction::Tick
            } else {
                &&& on.1 == (WorkAction::Sleep { span: idle })
                &&& waited.1 == WorkAction::CheckStop
                &&& waited.0.after(Progress::Stop(false)).1 == WorkAction::Tick
            }
        }),
{
}

/// How long to wait is nothing where the queue moved, and the whole pause where
/// it did not.
pub proof fn the_pause_is_all_or_nothing(outcome: &TickOutcome, idle: Span, r: Span, p: bool)
    requires
        call_ensures(pause_after, (outcome, idle), r),
        call_ensures(TickOutcome::is_progress, (outcome,), p),
    ensures
        p <==> moved(*outcome),
        moved(*outcome) ==> r.secs == 0 && r.nanos == 0,
        !moved(*outcome) ==> r == idle,
{
}

/// A stop that is asked for between ticks ends the loop before another begins, and
/// so does one that is found to have broken the tick under way. One that comes
/// before a pause spares the pause, and the loop ends there too.
pub proof fn a_stop_is_heeded(work: Work)
    ensures
        work.phase == WorkPhase::Between || work.phase == WorkPhase::Doubting ==> work.after(
            Progress::Stop(true),
        ).1 == WorkAction::Finish && work.after(Progress::Stop(true)).0.phase == WorkPhase::Over,
        work.phase is Pausing ==> {
            let spared = work.after(Progress::Stop(true));
            &&& spared.1 == WorkAction::CheckStop
            &&& spared.0.after(Progress::Stop(true)).1 == WorkAction::Finish
        },
{
}

/// A tick that failed on its own is charged once, in the row and in all; it is
/// reported and followed by the whole pause, unless it was one too many: then the
/// loop ends and says how many there were.
pub proof fn a_failure_is_charged(work: Work)
    requires
        work.phase == WorkPhase::Ticking,
        work.consecutive_failures < usize::MAX,
        work.summary.failures < usize::MAX,
    ensures
        ({
            let doubted = work.after(Progress::Failed);
            let charged = doubted.0.after(Progress::Stop(false));
            let told = charged.0.after(Progress::Reported);
            let n = work.consecutive_failures + 1;
            &&& doubted.1 == WorkAction::CheckStop
            &&& charged.0.consecutive_failures == n
            &&& charged.0.summary.failures == work.summary.failures + 1
            &&& charged.0.summary.entries_landed == work.summary.entries_landed
            &&& charged.0.summary.entries_evicted == work.summary.entries_evicted
            &&& charged.0.summary.ticks == work.summary.ticks
            &&& if n >= work.options.give_up_after {
                &&& charged.1 matches WorkAction::GiveUp { failures } && failures == n
                &&& charged.0.phase == WorkPhase::Over
            } else {
                &&& charged.1 == WorkAction::Report
                &&& told.1 == WorkAction::CheckStop
                &&& told.0.after(Progress::Stop(false)).1 == (WorkAction::Sleep {
                    span: work.options.idle,
                })
            }
        }),
{
}

} // verus!
