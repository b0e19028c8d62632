//! Applying the log budget.
//!
//! This is the part that joins the two halves: the queue knows which candidate a
//! log belongs to and how its gate run ended, the filesystem knows how big the
//! log is, and [`crate::logs::plan`] decides what goes.

use vstd::prelude::*;

use crate::bytes::ByteSize;
use crate::failure::Failure;
use crate::gate::at_gate;
use crate::gate::gate_phrase;
use crate::gate::in_context;
use crate::gate::with_context;
use crate::logs::log_views;
use crate::logs::plan;
use crate::logs::removal_views;
use crate::logs::removals;
use crate::logs::total;
use crate::logs::total_bytes;
use crate::logs::Because;
use crate::logs::LogFile;
use crate::logs::LogView;
use crate::logs::Plan;
use crate::logs::RemovalView;
use crate::logs::RETAINED_TAIL_LINES;
use crate::queue::ledger::Ledger;
use crate::queue::ledger::LoggedRunView;
use crate::queue::store::logged_views;
use crate::queue::store::LoggedRun;
use crate::queue::store::Store;
use crate::seqs;
use crate::text;

verus! {

/// A gate run with a log, and how big the log is. Nothing if it is no longer
/// there.
#[derive(Debug, PartialEq, Eq)]
pub struct Measured {
    pub run: LoggedRun,
    pub bytes: Option<u64>,
}

/// What a measured log is.
pub struct MeasuredView {
    pub run: LoggedRunView,
    pub bytes: Option<u64>,
}

impl View for Measured {
    type V = MeasuredView;

    open spec fn view(&self) -> MeasuredView {
        MeasuredView { run: self.run@, bytes: self.bytes }
    }
}

/// The measured logs of a list.
pub open spec fn measured_views(list: Seq<Measured>) -> Seq<MeasuredView> {
    Seq::new(list.len(), |i: int| list[i]@)
}

/// The runs that were measured.
pub open spec fn measured_runs(list: Seq<MeasuredView>) -> Seq<LoggedRunView> {
    list.map_values(|m: MeasuredView| m.run)
}

/// What was measured of the runs whose logs may go by what the rows say now: the
/// rest is not for a prune of this queue to touch.
pub open spec fn standing(
    q: Ledger,
    repo: Seq<char>,
    base: Seq<char>,
    list: Seq<MeasuredView>,
) -> Seq<MeasuredView> {
    list.filter(|m: MeasuredView| q.logged(repo, base).contains(m.run))
}

/// What was measured of all the runs whose logs may go stands as it is.
pub proof fn what_was_asked_stands(
    q: Ledger,
    repo: Seq<char>,
    base: Seq<char>,
    list: Seq<MeasuredView>,
)
    requires
        measured_runs(list) == q.logged(repo, base),
    ensures
        standing(q, repo, base, list) == list,
{
    let pred = |m: MeasuredView| q.logged(repo, base).contains(m.run);
    assert forall|i: int| 0 <= i < list.len() implies pred(#[trigger] list[i]) by {
        assert(measured_runs(list)[i] == list[i].run);
    }
    seqs::filter_all(list, pred);
}

/// The logs that are still there.
pub open spec fn found(list: Seq<MeasuredView>) -> Seq<LogView>
    decreases list.len(),
{
    if list.len() == 0 {
        Seq::empty()
    } else {
        let rest = found(list.drop_last());
        match list.last().bytes {
            Some(bytes) => rest.push(
                LogView {
                    run_id: list.last().run.run_id,
                    candidate_id: list.last().run.candidate_id,
                    path: list.last().run.log_path,
                    bytes,
                    passed: list.last().run.passed,
                },
            ),
            None => rest,
        }
    }
}

/// The rows, with those that point at a log that is no longer there put right.
pub open spec fn reconciled(q: Ledger, list: Seq<MeasuredView>) -> Ledger
    decreases list.len(),
{
    if list.len() == 0 {
        q
    } else {
        let rest = reconciled(q, list.drop_last());
        match list.last().bytes {
            Some(_) => rest,
            None => rest.log_forgotten(list.last().run.run_id, None),
        }
    }
}

/// Whether a run is in a list.
fn holds_run(list: &Vec<LoggedRun>, run: &LoggedRun) -> (r: bool)
    ensures
        r == logged_views(list@).contains(run@),
{
    let ghost all = logged_views(list@);
    for i in 0..list.len()
        invariant
            all == logged_views(list@),
            forall|j: int| 0 <= j < i ==> #[trigger] all[j] != run@,
    {
        let other = &list[i];
        assert(all[i as int] == other@);
        if other.run_id == run.run_id && other.candidate_id == run.candidate_id && other.passed
            == run.passed && text::same(&other.log_path, &run.log_path) {
            return true;
        }
    }
    false
}

/// What was measured of the runs whose logs may go by what the rows say now.
fn still_standing(store: &Store, repo: &str, base: &str, measured: &Vec<Measured>) -> (r: Vec<
    Measured,
>)
    requires
        store@.wf(),
    ensures
        measured_views(r@) == standing(store@, repo@, base@, measured_views(measured@)),
{
    let logged = store.logged_runs(repo, base);
    let ghost all = measured_views(measured@);
    let ghost pred = |m: MeasuredView| store@.logged(repo@, base@).contains(m.run);
    let mut r: Vec<Measured> = Vec::new();
    proof {
        reveal(Seq::filter);
        assert(measured_views(r@) =~= all.take(0).filter(pred));
    }
    for i in 0..measured.len()
        invariant
            all == measured_views(measured@),
            logged_views(logged@) == store@.logged(repo@, base@),
            pred == (|m: MeasuredView| store@.logged(repo@, base@).contains(m.run)),
            measured_views(r@) == all.take(i as int).filter(pred),
    {
        let seen = &measured[i];
        assert(all[i as int] == seen@);
        proof {
            seqs::filter_take(all, i as int, pred);
        }
        if holds_run(&logged, &seen.run) {
            let ghost had = r@;
            let kept = Measured { run: seen.run.clone(), bytes: seen.bytes };
            r.push(kept);
            assert(measured_views(r@) =~= measured_views(had).push(seen@));
        }
    }
    assert(all.take(all.len() as int) =~= all);
    r
}

/// The logs that are still there, of a list.
fn found_logs(measured: &Vec<Measured>) -> (r: Vec<LogFile>)
    ensures
        log_views(r@) == found(measured_views(measured@)),
{
    let ghost all = measured_views(measured@);
    let mut r: Vec<LogFile> = Vec::new();
    assert(log_views(r@) =~= Seq::<LogView>::empty());
    for i in 0..measured.len()
        invariant
            all == measured_views(measured@),
            log_views(r@) == found(all.take(i as int)),
    {
        let seen = &measured[i];
        assert(all.take(i + 1).drop_last() =~= all.take(i as int));
        assert(all.take(i + 1).last() == seen@);
        match seen.bytes {
            Some(bytes) => {
                let log = LogFile {
                    run_id: seen.run.run_id,
                    candidate_id: seen.run.candidate_id,
                    path: seen.run.log_path.clone(),
                    bytes,
                    passed: seen.run.passed,
                };
                let ghost had = r@;
                r.push(log);
                assert(log_views(r@) =~= log_views(had).push(log@));
            },
            None => {},
        }
    }
    assert(all.take(all.len() as int) =~= all);
    r
}

/// Describe every log that may legally be pruned, and how big it is.
///
/// A row pointing at a file that is no longer there is reconciled rather than
/// reported: the row is updated to say the log has gone. That happens whenever
/// someone clears the log directory by hand, and leaving the row claiming a
/// file exists would make reading it fail forever.
pub fn survey(store: &mut Store, repo: &str, base: &str, measured: &Vec<Measured>) -> (r: Vec<
    LogFile,
>)
    requires
        old(store)@.wf(),
    ensures
        final(store)@.wf(),
        ({
            let list = standing(old(store)@, repo@, base@, measured_views(measured@));
            &&& log_views(r@) == found(list)
            &&& final(store)@ == reconciled(old(store)@, list)
        }),
        measured_runs(measured_views(measured@)) == old(store)@.logged(repo@, base@) ==> standing(
            old(store)@,
            repo@,
            base@,
            measured_views(measured@),
        ) == measured_views(measured@),
{
    let list = still_standing(store, repo, base, measured);
    proof {
        if measured_runs(measured_views(measured@)) == store@.logged(repo@, base@) {
            what_was_asked_stands(store@, repo@, base@, measured_views(measured@));
        }
    }
    let ghost all = measured_views(list@);
    for i in 0..list.len()
        invariant
            all == measured_views(list@),
            store@.wf(),
            store@ == reconciled(old(store)@, all.take(i as int)),
    {
        let seen = &list[i];
        assert(all.take(i + 1).drop_last() =~= all.take(i as int));
        assert(all.take(i + 1).last() == seen@);
        match seen.bytes {
            Some(_) => {},
            None => {
                store.forget_log(seen.run.run_id, None);
            },
        }
    }
    assert(all.take(all.len() as int) =~= all);
    found_logs(&list)
}

/// What a prune did.
#[derive(Debug, PartialEq, Eq)]
pub struct Pruned {
    pub plan: Plan,
    pub tails_kept: usize,
}

/// Work out what would go, without touching anything. Nothing if the logs take
/// more bytes together than can be counted.
pub fn dry_run(
    store: &Store,
    repo: &str,
    base: &str,
    measured: &Vec<Measured>,
    budget: ByteSize,
) -> (r: Option<Plan>)
    requires
        store@.wf(),
    ensures
        ({
            let logs = found(standing(store@, repo@, base@, measured_views(measured@)));
            match r {
                Some(plan) => plan.is_for(logs, budget@),
                None => total(logs) > u64::MAX,
            }
        }),
        measured_runs(measured_views(measured@)) == store@.logged(repo@, base@) ==> match r {
            Some(plan) => plan.is_for(found(measured_views(measured@)), budget@),
            None => total(found(measured_views(measured@))) > u64::MAX,
        },
{
    proof {
        if measured_runs(measured_views(measured@)) == store@.logged(repo@, base@) {
            what_was_asked_stands(store@, repo@, base@, measured_views(measured@));
        }
    }
    let logs = found_logs(&still_standing(store, repo, base, measured));
    match total_bytes(&logs) {
        Some(_) => Some(plan(logs, budget)),
        None => None,
    }
}

/// What a prune asks for next.
#[derive(Debug, PartialEq, Eq)]
pub enum PruneAction {
    /// Read the last lines of a log, so many of them.
    ReadTail { path: String, lines: usize },
    /// Remove a log.
    RemoveLog { path: String },
    /// There is nothing left to do.
    Finish,
}

/// What came of it.
#[derive(Debug, PartialEq, Eq)]
pub enum PruneEvent {
    /// The last lines, or nothing if they could not be read.
    Tail(Option<String>),
    Removed(Result<(), Failure>),
}

/// Where a prune is.
#[derive(Debug, Clone, Copy, PartialEq, Eq, Structural)]
pub enum PruneStage {
    Reading,
    Removing,
    Over,
}

/// A prune under way.
#[derive(Debug)]
pub struct PruneRun {
    plan: Plan,
    at: usize,
    tails_kept: usize,
    stage: PruneStage,
    failure: Option<Failure>,
}

/// How a prune stands.
pub struct PruneView {
    pub removals: Seq<RemovalView>,
    pub at: int,
    pub tails_kept: int,
    pub stage: PruneStage,
    pub failure: Option<Seq<char>>,
}

impl View for PruneRun {
    type V = PruneView;

    closed spec fn view(&self) -> PruneView {
        PruneView {
            removals: removal_views(self.plan.remove@),
            at: self.at as int,
            tails_kept: self.tails_kept as int,
            stage: self.stage,
            failure: match self.failure {
                Some(failure) => Some(failure@),
                None => None,
            },
        }
    }
}

/// What a prune asks for, over texts.
pub enum PruneAsk {
    ReadTail { path: Seq<char>, lines: usize },
    RemoveLog { path: Seq<char> },
    Finish,
}

impl View for PruneAction {
    type V = PruneAsk;

    open spec fn view(&self) -> PruneAsk {
        match self {
            PruneAction::ReadTail { path, lines } => PruneAsk::ReadTail {
                path: path@,
                lines: *lines,
            },
            PruneAction::RemoveLog { path } => PruneAsk::RemoveLog { path: path@ },
            PruneAction::Finish => PruneAsk::Finish,
        }
    }
}

impl PruneView {
    pub open spec fn wf(self) -> bool {
        &&& 0 <= self.tails_kept <= self.at + 1
        &&& 0 <= self.at <= self.removals.len()
        &&& self.stage == PruneStage::Reading ==> self.tails_kept <= self.at
        &&& self.stage != PruneStage::Over ==> self.at < self.removals.len()
        &&& self.stage != PruneStage::Over ==> self.failure is None
        &&& self.stage == PruneStage::Reading ==> self.removals[self.at].because
            == Because::OverBudget
        &&& self.stage == PruneStage::Over && self.failure is None ==> self.at
            == self.removals.len()
    }

    /// The log that is being removed.
    pub open spec fn log(self) -> LogView {
        self.removals[self.at].log
    }

    /// The event is an answer to what was asked.
    pub open spec fn takes(self, event: PruneEvent) -> bool {
        match self.stage {
            PruneStage::Reading => event is Tail,
            PruneStage::Removing => event is Removed,
            PruneStage::Over => false,
        }
    }

    /// Turn to the next log: a failure's last lines are read first, a pass has
    /// nothing to explain.
    pub open spec fn turned(self) -> PruneView {
        PruneView {
            stage: if self.at >= self.removals.len() {
                PruneStage::Over
            } else if self.removals[self.at].because == Because::OverBudget {
                PruneStage::Reading
            } else {
                PruneStage::Removing
            },
            ..self
        }
    }

    /// The rows once a prune has turned to the next log.
    pub open spec fn turned_rows(self, q: Ledger) -> Ledger {
        if self.turned().stage == PruneStage::Removing {
            q.log_forgotten(self.log().run_id, None)
        } else {
            q
        }
    }

    /// What a prune that stands so asks for.
    pub open spec fn asks(self) -> PruneAsk {
        match self.stage {
            PruneStage::Reading => PruneAsk::ReadTail {
                path: self.log().path,
                lines: RETAINED_TAIL_LINES,
            },
            PruneStage::Removing => PruneAsk::RemoveLog { path: self.log().path },
            PruneStage::Over => PruneAsk::Finish,
        }
    }

    /// A prune once something came of what it asked for.
    pub open spec fn after(self, event: PruneEvent) -> PruneView {
        match event {
            PruneEvent::Tail(tail) => PruneView {
                tails_kept: self.tails_kept + if tail is Some {
                    1int
                } else {
                    0int
                },
                stage: PruneStage::Removing,
                ..self
            },
            PruneEvent::Removed(Ok(_)) => (PruneView { at: self.at + 1, ..self }).turned(),
            PruneEvent::Removed(Err(why)) => PruneView {
                stage: PruneStage::Over,
                failure: Some(in_context(
                        at_gate("removing"@, " log "@) + self.log().path,
                        why@,
                    )),
                ..self
            },
        }
    }

    /// The rows once something came of what a prune asked for. A failure's last
    /// lines are written to its row before the file goes, so an interruption
    /// between the two loses the bytes rather than the reason.
    pub open spec fn rows_after(self, q: Ledger, event: PruneEvent) -> Ledger {
        match event {
            PruneEvent::Tail(tail) => q.log_forgotten(self.log().run_id, text::optional(tail)),
            PruneEvent::Removed(Ok(_)) => (PruneView { at: self.at + 1, ..self }).turned_rows(q),
            PruneEvent::Removed(Err(_)) => q,
        }
    }
}

/// A prune just begun.
pub open spec fn begun(removals: Seq<RemovalView>) -> PruneView {
    (PruneView { removals, at: 0, tails_kept: 0, stage: PruneStage::Over, failure: None }).turned()
}

impl PruneRun {
    /// The plan that is being carried out.
    pub closed spec fn planned(&self) -> Plan {
        self.plan
    }

    /// Turn to the next log.
    fn turn(&mut self, store: &mut Store) -> (r: PruneAction)
        requires
            old(store)@.wf(),
            0 <= old(self)@.tails_kept <= old(self)@.at <= old(self)@.removals.len(),
            old(self)@.failure is None,
        ensures
            final(store)@.wf(),
            final(self).planned() == old(self).planned(),
            final(self)@ == old(self)@.turned(),
            final(self)@.wf(),
            r@ == final(self)@.asks(),
            final(store)@ == old(self)@.turned_rows(old(store)@),
    {
        assert(self@.removals.len() == self.plan.remove@.len());
        if self.at >= self.plan.remove.len() {
            self.stage = PruneStage::Over;
            return PruneAction::Finish;
        }
        let removal = &self.plan.remove[self.at];
        assert(self@.removals[self.at as int] == removal@);
        match removal.because {
            Because::OverBudget => {
                self.stage = PruneStage::Reading;
                PruneAction::ReadTail {
                    path: self.plan.remove[self.at].log.path.clone(),
                    lines: RETAINED_TAIL_LINES,
                }
            },
            Because::NothingToExplain => {
                store.forget_log(removal.log.run_id, None);
                self.stage = PruneStage::Removing;
                PruneAction::RemoveLog { path: self.plan.remove[self.at].log.path.clone() }
            },
        }
    }

    /// Take what came of the last action, and say what is next.
    pub fn next(&mut self, store: &mut Store, event: PruneEvent) -> (r: PruneAction)
        requires
            old(store)@.wf(),
            old(self)@.wf(),
            old(self)@.takes(event),
        ensures
            final(store)@.wf(),
            final(self).planned() == old(self).planned(),
            final(self)@ == old(self)@.after(event),
            final(self)@.wf(),
            r@ == final(self)@.asks(),
            final(store)@ == old(self)@.rows_after(old(store)@, event),
    {
        let count: usize = self.plan.remove.len();
        assert(self@.removals.len() == count && self.at < count);
        let removal = &self.plan.remove[self.at];
        assert(self@.removals[self.at as int] == removal@);
        match event {
            PruneEvent::Tail(tail) => {
                let path = removal.log.path.clone();
                let run: i64 = removal.log.run_id;
                if tail.is_some() {
                    self.tails_kept = self.tails_kept + 1;
                }
                store.forget_log(run, tail);
                self.stage = PruneStage::Removing;
                PruneAction::RemoveLog { path }
            },
            PruneEvent::Removed(Ok(_)) => {
                self.at = self.at + 1;
                self.turn(store)
            },
            // The row already says the log has gone, which is the honest state:
            // nothing will offer this file again. Worth surfacing rather than
            // swallowing, because a directory that cannot be written to will not
            // stay inside any budget.
            PruneEvent::Removed(Err(why)) => {
                let mut what = gate_phrase("removing", " log ");
                what.append(&removal.log.path);
                self.failure = Some(with_context(&what, &why));
                self.stage = PruneStage::Over;
                PruneAction::Finish
            },
        }
    }

    /// What a prune asks for.
    pub fn action(&self) -> (r: PruneAction)
        requires
            self@.wf(),
        ensures
            r@ == self@.asks(),
    {
        match self.stage {
            PruneStage::Over => PruneAction::Finish,
            PruneStage::Reading => {
                let removal = &self.plan.remove[self.at];
                assert(self@.removals[self.at as int] == removal@);
                PruneAction::ReadTail {
                    path: removal.log.path.clone(),
                    lines: RETAINED_TAIL_LINES,
                }
            },
            PruneStage::Removing => {
                let removal = &self.plan.remove[self.at];
                assert(self@.removals[self.at as int] == removal@);
                PruneAction::RemoveLog { path: removal.log.path.clone() }
            },
        }
    }

    /// Whether a prune is over.
    pub fn is_over(&self) -> (r: bool)
        ensures
            r == (self@.stage == PruneStage::Over),
    {
        self.stage == PruneStage::Over
    }

    /// What a prune that is over did, or why it stopped.
    pub fn finish(self) -> (r: Result<Pruned, Failure>)
        requires
            self@.wf(),
            self@.stage == PruneStage::Over,
        ensures
            match r {
                Ok(pruned) => {
                    &&& self@.failure is None
                    &&& pruned.plan == self.planned()
                    &&& pruned.tails_kept == self@.tails_kept
                },
                Err(failure) => self@.failure == Some(failure@),
            },
    {
        match self.failure {
            Some(failure) => Err(failure),
            None => Ok(Pruned { plan: self.plan, tails_kept: self.tails_kept }),
        }
    }
}

/// Begin to bring the log directory inside its budget. Nothing if the logs take
/// more bytes together than can be counted.
pub fn apply(
    store: &mut Store,
    repo: &str,
    base: &str,
    measured: &Vec<Measured>,
    budget: ByteSize,
) -> (r: Option<(PruneRun, PruneAction)>)
    requires
        old(store)@.wf(),
    ensures
        final(store)@.wf(),
        ({
            let list = standing(old(store)@, repo@, base@, measured_views(measured@));
            let surveyed = reconciled(old(store)@, list);
            match r {
                Some((run, action)) => {
                    let begin = begun(removals(found(list), budget@));
                    &&& run.planned().is_for(found(list), budget@)
                    &&& run@ == begin
                    &&& run@.wf()
                    &&& action@ == run@.asks()
                    &&& final(store)@ == begin.turned_rows(surveyed)
                },
                None => total(found(list)) > u64::MAX && final(store)@ == surveyed,
            }
        }),
        measured_runs(measured_views(measured@)) == old(store)@.logged(repo@, base@) ==> standing(
            old(store)@,
            repo@,
            base@,
            measured_views(measured@),
        ) == measured_views(measured@),
{
    let logs = survey(store, repo, base, measured);
    match total_bytes(&logs) {
        Some(_) => {
            let mut run = PruneRun {
                plan: plan(logs, budget),
                at: 0,
                tails_kept: 0,
                stage: PruneStage::Over,
                failure: None,
            };
            let action = run.turn(store);
            Some((run, action))
        },
        None => None,
    }
}

/// Whenever a prune asks for a log to be removed, its row already says that the
/// log has gone.
pub proof fn rows_go_first(p: PruneView, q: Ledger, event: PruneEvent, i: int)
    requires
        p.wf(),
        p.takes(event),
        p.after(event).stage == PruneStage::Removing,
        0 <= i < q.runs.len(),
        q.runs[i].id == p.after(event).log().run_id,
    ensures
        p.rows_after(q, event).runs[i].log_path is None,
{
}

/// A prune comes to an end: each answer brings it closer.
pub open spec fn prune_measure(p: PruneView) -> nat {
    (2 * (p.removals.len() - p.at) + match p.stage {
        PruneStage::Reading => 2int,
        PruneStage::Removing => 1int,
        PruneStage::Over => 0int,
    }) as nat
}

/// Every answer to what a prune asks brings it closer to its end.
pub proof fn prune_ends(p: PruneView, event: PruneEvent)
    requires
        p.wf(),
        p.takes(event),
    ensures
        prune_measure(p.after(event)) < prune_measure(p),
        p.after(event).wf(),
{
}

} // verus!
