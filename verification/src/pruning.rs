//! What holds of a prune as a whole, whatever the file system answers.

use vstd::prelude::*;

use crate::logs::failures;
use crate::logs::kept;
use crate::logs::passes;
use crate::logs::removals;
use crate::logs::total;
use crate::logs::Because;
use crate::logs::LogView;
use crate::logs::Plan;
use crate::logs::RemovalView;
use crate::queue::ledger::Ledger;
use crate::queue::ledger::LoggedRunView;
use crate::queue::ledger::RunRecord;
use crate::retention::begun;
use crate::retention::found;
use crate::retention::measured_runs;
use crate::retention::prune_ends;
use crate::retention::reconciled;
use crate::retention::standing;
use crate::retention::what_was_asked_stands;
use crate::retention::MeasuredView;
use crate::retention::PruneEvent;
use crate::retention::PruneStage;
use crate::retention::PruneView;
use crate::seqs;
use crate::text;

verus! {

/// The run is of a candidate of this queue that is finished with.
pub open spec fn is_finished(q: Ledger, repo: Seq<char>, base: Seq<char>, run: RunRecord) -> bool {
    q.candidate(run.candidate_id) matches Some(c) && c.in_queue(repo, base) && c.state.terminal()
}

/// The run with this id is of a candidate of this queue that is finished with.
pub open spec fn finished_id(q: Ledger, repo: Seq<char>, base: Seq<char>, id: i64) -> bool {
    forall|i: int|
        0 <= i < q.runs.len() && (#[trigger] q.runs[i]).id == id ==> is_finished(
            q,
            repo,
            base,
            q.runs[i],
        )
}

/// From one ledger to the other nothing changed but what runs of finished
/// candidates of this queue say of their logs. The runs of a candidate that is
/// being assembled or gated, and those of other queues, are as they were.
pub open spec fn spares(repo: Seq<char>, base: Seq<char>, a: Ledger, b: Ledger) -> bool {
    &&& b == (Ledger { runs: b.runs, ..a })
    &&& b.runs.len() == a.runs.len()
    &&& forall|i: int|
        0 <= i < a.runs.len() ==> {
            &&& #[trigger] b.runs[i] == (RunRecord {
                log_path: b.runs[i].log_path,
                tail: b.runs[i].tail,
                ..a.runs[i]
            })
            &&& !is_finished(a, repo, base, a.runs[i]) ==> b.runs[i] == a.runs[i]
        }
}

/// Every log that a prune is to remove is of a finished candidate of this queue.
pub open spec fn removes_finished(q: Ledger, repo: Seq<char>, base: Seq<char>, p: PruneView) -> bool {
    forall|k: int|
        0 <= k < p.removals.len() ==> finished_id(
            q,
            repo,
            base,
            (#[trigger] p.removals[k]).log.run_id,
        )
}

/// Sparing the rest twice spares it altogether.
pub proof fn sparing_twice(repo: Seq<char>, base: Seq<char>, a: Ledger, b: Ledger, c: Ledger)
    requires
        spares(repo, base, a, b),
        spares(repo, base, b, c),
    ensures
        spares(repo, base, a, c),
{
    assert forall|i: int| 0 <= i < a.runs.len() implies {
        &&& #[trigger] c.runs[i] == (RunRecord {
            log_path: c.runs[i].log_path,
            tail: c.runs[i].tail,
            ..a.runs[i]
        })
        &&& !is_finished(a, repo, base, a.runs[i]) ==> c.runs[i] == a.runs[i]
    } by {
        assert(b.runs[i].candidate_id == a.runs[i].candidate_id);
    }
}

/// What is finished stays finished while logs go.
pub proof fn finished_stays(repo: Seq<char>, base: Seq<char>, a: Ledger, b: Ledger, id: i64)
    requires
        spares(repo, base, a, b),
        finished_id(a, repo, base, id),
    ensures
        finished_id(b, repo, base, id),
{
    assert forall|i: int| 0 <= i < b.runs.len() && (#[trigger] b.runs[i]).id == id implies is_finished(
        b,
        repo,
        base,
        b.runs[i],
    ) by {
        assert(a.runs[i].id == id);
    }
}

proof fn forgetting_spares(
    repo: Seq<char>,
    base: Seq<char>,
    q: Ledger,
    id: i64,
    tail: Option<Seq<char>>,
)
    requires
        finished_id(q, repo, base, id),
    ensures
        spares(repo, base, q, q.log_forgotten(id, tail)),
{
}

/// A run whose log may go stands in the table, once, with that log.
proof fn logged_is_there(q: Ledger, repo: Seq<char>, base: Seq<char>, run: LoggedRunView) -> (k: int)
    requires
        q.wf(),
        q.logged(repo, base).contains(run),
    ensures
        0 <= k < q.runs.len(),
        q.runs[k].id == run.run_id,
        q.may_lose_log(q.runs[k], repo, base),
        finished_id(q, repo, base, run.run_id),
{
    let pred = |r: RunRecord| q.may_lose_log(r, repo, base);
    let rows = q.runs.filter(pred);
    let m = choose|m: int| 0 <= m < q.logged(repo, base).len() && q.logged(repo, base)[m] == run;
    q.runs.lemma_filter_pred(pred, m);
    assert(rows.contains(rows[m]));
    q.runs.lemma_filter_contains_rev(pred, rows[m]);
    let k = choose|k: int| 0 <= k < q.runs.len() && q.runs[k] == rows[m];
    assert forall|i: int|
        0 <= i < q.runs.len() && (#[trigger] q.runs[i]).id == run.run_id implies is_finished(
        q,
        repo,
        base,
        q.runs[i],
    ) by {
        assert(i == k);
    }
    k
}

proof fn surveying_spares(repo: Seq<char>, base: Seq<char>, q: Ledger, list: Seq<MeasuredView>)
    requires
        forall|m: int|
            0 <= m < list.len() ==> finished_id(q, repo, base, (#[trigger] list[m]).run.run_id),
    ensures
        spares(repo, base, q, reconciled(q, list)),
    decreases list.len(),
{
    if list.len() > 0 {
        let rest = list.drop_last();
        assert forall|m: int| 0 <= m < rest.len() implies finished_id(
            q,
            repo,
            base,
            (#[trigger] rest[m]).run.run_id,
        ) by {
            assert(list[m] == rest[m]);
        }
        surveying_spares(repo, base, q, rest);
        let id = list[list.len() - 1].run.run_id;
        finished_stays(repo, base, q, reconciled(q, rest), id);
        forgetting_spares(repo, base, reconciled(q, rest), id, None);
        if list.last().bytes is None {
            sparing_twice(repo, base, q, reconciled(q, rest), reconciled(q, list));
        }
    }
}

/// What stands of a list is of finished candidates of the queue.
proof fn standing_is_finished(
    q: Ledger,
    repo: Seq<char>,
    base: Seq<char>,
    list: Seq<MeasuredView>,
)
    requires
        q.wf(),
    ensures
        forall|m: int|
            0 <= m < standing(q, repo, base, list).len() ==> finished_id(
                q,
                repo,
                base,
                (#[trigger] standing(q, repo, base, list)[m]).run.run_id,
            ),
{
    let pred = |m: MeasuredView| q.logged(repo, base).contains(m.run);
    assert forall|m: int| 0 <= m < standing(q, repo, base, list).len() implies finished_id(
        q,
        repo,
        base,
        (#[trigger] standing(q, repo, base, list)[m]).run.run_id,
    ) by {
        list.lemma_filter_pred(pred, m);
        let _ = logged_is_there(q, repo, base, standing(q, repo, base, list)[m].run);
    }
}

/// Whatever was measured, a survey changes nothing but what runs of finished
/// candidates of its queue say of their logs.
pub proof fn a_survey_spares_the_rest(
    q: Ledger,
    repo: Seq<char>,
    base: Seq<char>,
    list: Seq<MeasuredView>,
)
    requires
        q.wf(),
    ensures
        spares(repo, base, q, reconciled(q, standing(q, repo, base, list))),
{
    standing_is_finished(q, repo, base, list);
    surveying_spares(repo, base, q, standing(q, repo, base, list));
}

/// A log that was found, as it was measured.
pub open spec fn log_of(m: MeasuredView) -> LogView {
    LogView {
        run_id: m.run.run_id,
        candidate_id: m.run.candidate_id,
        path: m.run.log_path,
        bytes: m.bytes->0,
        passed: m.run.passed,
    }
}

/// What is found was measured.
proof fn found_was_measured(list: Seq<MeasuredView>, k: int) -> (m: int)
    requires
        0 <= k < found(list).len(),
    ensures
        0 <= m < list.len(),
        list[m].bytes is Some,
        found(list)[k] == log_of(list[m]),
    decreases list.len(),
{
    let rest = list.drop_last();
    if k < found(rest).len() {
        found_was_measured(rest, k)
    } else {
        list.len() - 1
    }
}

/// What was measured and is there is found.
proof fn measured_is_found(list: Seq<MeasuredView>, m: int)
    requires
        0 <= m < list.len(),
        list[m].bytes is Some,
    ensures
        found(list).contains(log_of(list[m])),
    decreases list.len(),
{
    let rest = list.drop_last();
    if m < rest.len() {
        measured_is_found(rest, m);
        let k = choose|k: int| 0 <= k < found(rest).len() && found(rest)[k] == log_of(list[m]);
        assert(found(list)[k] == log_of(list[m]));
    } else {
        assert(found(list)[found(rest).len() as int] == log_of(list[m]));
    }
}

/// What failed is among the failures, and nothing else is.
proof fn failures_have(logs: Seq<LogView>, x: LogView)
    ensures
        failures(logs).contains(x) <==> logs.contains(x) && !x.passed,
{
    let fail = |l: LogView| !l.passed;
    seqs::ordered_has(logs.filter(fail), |a: LogView, b: LogView| a.run_id < b.run_id, x);
    filtered_has(logs, fail, x);
}

proof fn filtered_has(logs: Seq<LogView>, pred: spec_fn(LogView) -> bool, x: LogView)
    ensures
        logs.filter(pred).contains(x) <==> logs.contains(x) && pred(x),
{
    if logs.contains(x) && pred(x) {
        let i = choose|i: int| 0 <= i < logs.len() && logs[i] == x;
        logs.lemma_filter_contains(pred, i);
    }
    if logs.filter(pred).contains(x) {
        let i = choose|i: int| 0 <= i < logs.filter(pred).len() && logs.filter(pred)[i] == x;
        logs.lemma_filter_pred(pred, i);
        logs.lemma_filter_contains_rev(pred, x);
    }
}

/// Where what is removed stands among the passes or the failures.
proof fn removal_is(logs: Seq<LogView>, budget: u64, k: int)
    requires
        0 <= k < removals(logs, budget).len(),
    ensures
        ({
            let removal = removals(logs, budget)[k];
            let n = passes(logs).len() as int;
            &&& logs.contains(removal.log)
            &&& k < n ==> removal.log == passes(logs)[k] && removal.log.passed && removal.because
                == Because::NothingToExplain
            &&& k >= n ==> k - n < failures(logs).len() && removal.log == failures(logs)[k - n]
                && !removal.log.passed && removal.because == Because::OverBudget
        }),
{
    let n = passes(logs).len() as int;
    crate::logs::excess_is_within(failures(logs), budget);
    if k < n {
        filtered_has(logs, |l: LogView| l.passed, passes(logs)[k]);
        assert(passes(logs).contains(passes(logs)[k]));
    } else {
        failures_have(logs, failures(logs)[k - n]);
        assert(failures(logs).contains(failures(logs)[k - n]));
    }
}

/// What a plan removes is of finished candidates of the queue.
pub proof fn planned_is_finished(
    q: Ledger,
    repo: Seq<char>,
    base: Seq<char>,
    list: Seq<MeasuredView>,
    budget: u64,
)
    requires
        q.wf(),
    ensures
        removes_finished(
            q,
            repo,
            base,
            begun(removals(found(standing(q, repo, base, list)), budget)),
        ),
{
    let stood = standing(q, repo, base, list);
    let all = removals(found(stood), budget);
    standing_is_finished(q, repo, base, list);
    assert forall|k: int| 0 <= k < all.len() implies finished_id(
        q,
        repo,
        base,
        (#[trigger] all[k]).log.run_id,
    ) by {
        removal_is(found(stood), budget, k);
        let j = choose|j: int| 0 <= j < found(stood).len() && found(stood)[j] == all[k].log;
        let m = found_was_measured(stood, j);
        assert(finished_id(q, repo, base, stood[m].run.run_id));
    }
}

/// Turning to the next log touches finished runs of the queue alone.
pub proof fn turning_spares(repo: Seq<char>, base: Seq<char>, q: Ledger, p: PruneView)
    requires
        0 <= p.at,
        removes_finished(q, repo, base, p),
    ensures
        spares(repo, base, q, p.turned_rows(q)),
        removes_finished(p.turned_rows(q), repo, base, p.turned()),
{
    if p.turned().stage == PruneStage::Removing {
        assert(finished_id(q, repo, base, p.removals[p.at].log.run_id));
        forgetting_spares(repo, base, q, p.log().run_id, None);
    }
    assert forall|k: int| 0 <= k < p.removals.len() implies finished_id(
        p.turned_rows(q),
        repo,
        base,
        (#[trigger] p.removals[k]).log.run_id,
    ) by {
        finished_stays(repo, base, q, p.turned_rows(q), p.removals[k].log.run_id);
    }
}

/// Whatever came of what a prune asked for, it changes nothing but what runs of
/// finished candidates of its queue say of their logs.
pub proof fn a_prune_spares_the_rest(
    q: Ledger,
    repo: Seq<char>,
    base: Seq<char>,
    p: PruneView,
    event: PruneEvent,
)
    requires
        p.wf(),
        p.takes(event),
        removes_finished(q, repo, base, p),
    ensures
        spares(repo, base, q, p.rows_after(q, event)),
        removes_finished(p.rows_after(q, event), repo, base, p.after(event)),
{
    match event {
        PruneEvent::Tail(tail) => {
            assert(finished_id(q, repo, base, p.removals[p.at].log.run_id));
            forgetting_spares(repo, base, q, p.log().run_id, text::optional(tail));
        },
        PruneEvent::Removed(Ok(_)) => {
            turning_spares(repo, base, q, PruneView { at: p.at + 1, ..p });
        },
        PruneEvent::Removed(Err(_)) => {},
    }
    assert forall|k: int| 0 <= k < p.removals.len() implies finished_id(
        p.rows_after(q, event),
        repo,
        base,
        (#[trigger] p.removals[k]).log.run_id,
    ) by {
        finished_stays(repo, base, q, p.rows_after(q, event), p.removals[k].log.run_id);
    }
}

/// A prune once all of this came, in order, of what it asked for.
pub open spec fn carried(p: PruneView, events: Seq<PruneEvent>) -> PruneView
    decreases events.len(),
{
    if events.len() == 0 {
        p
    } else {
        carried(p, events.drop_last()).after(events.last())
    }
}

/// The rows once all of this came, in order, of what a prune asked for.
pub open spec fn rows_carried(p: PruneView, q: Ledger, events: Seq<PruneEvent>) -> Ledger
    decreases events.len(),
{
    if events.len() == 0 {
        q
    } else {
        carried(p, events.drop_last()).rows_after(
            rows_carried(p, q, events.drop_last()),
            events.last(),
        )
    }
}

/// Each event is an answer to what was asked.
pub open spec fn answers(p: PruneView, events: Seq<PruneEvent>) -> bool
    decreases events.len(),
{
    events.len() > 0 ==> answers(p, events.drop_last()) && carried(p, events.drop_last()).takes(
        events.last(),
    )
}

/// The last lines that were read of a run's log, if they were.
pub open spec fn tail_read(p: PruneView, events: Seq<PruneEvent>, run: i64) -> Option<Seq<char>>
    decreases events.len(),
{
    if events.len() == 0 {
        None
    } else {
        match events.last() {
            PruneEvent::Tail(tail) => if carried(p, events.drop_last()).log().run_id == run {
                text::optional(tail)
            } else {
                tail_read(p, events.drop_last(), run)
            },
            _ => tail_read(p, events.drop_last(), run),
        }
    }
}

/// Every log that was to be read could be.
pub open spec fn all_readable(events: Seq<PruneEvent>) -> bool {
    forall|i: int|
        0 <= i < events.len() ==> (#[trigger] events[i] matches PruneEvent::Tail(tail)
            ==> tail is Some)
}

/// The log of this run is among those to be removed.
pub open spec fn is_planned(removals: Seq<RemovalView>, run: i64) -> bool {
    exists|k: int| 0 <= k < removals.len() && (#[trigger] removals[k]).log.run_id == run
}

/// The log of this run was looked for, and was no longer there.
pub open spec fn is_vanished(list: Seq<MeasuredView>, run: i64) -> bool {
    exists|m: int|
        0 <= m < list.len() && (#[trigger] list[m]).run.run_id == run && list[m].bytes is None
}

/// The failures among what is removed.
pub open spec fn explained(removals: Seq<RemovalView>) -> Seq<RemovalView> {
    removals.filter(|r: RemovalView| r.because == Because::OverBudget)
}

/// No run's log is removed twice.
pub open spec fn removals_apart(removals: Seq<RemovalView>) -> bool {
    forall|i: int, j: int|
        0 <= i < j < removals.len() ==> (#[trigger] removals[i]).log.run_id != (
        #[trigger] removals[j]).log.run_id
}

/// No two logs are of one run.
pub open spec fn logs_apart(logs: Seq<LogView>) -> bool {
    forall|i: int, j: int|
        0 <= i < j < logs.len() ==> (#[trigger] logs[i]).run_id != (#[trigger] logs[j]).run_id
}

/// How many rows a prune has cleared.
spec fn cleared(p: PruneView) -> int {
    p.at + if p.stage == PruneStage::Removing || p.failure is Some {
        1int
    } else {
        0int
    }
}

/// A run once a prune has cleared some rows.
spec fn cleared_run(
    p: PruneView,
    events: Seq<PruneEvent>,
    removals: Seq<RemovalView>,
    run: RunRecord,
) -> RunRecord {
    if is_planned(removals, run.id) {
        RunRecord { log_path: None, tail: tail_read(p, events, run.id), ..run }
    } else {
        run
    }
}

/// How the rows stand after some answers: what was cleared, and what was kept of
/// it.
spec fn stands_so(
    p: PruneView,
    q1: Ledger,
    events: Seq<PruneEvent>,
    n: int,
    tails_kept: int,
    q: Ledger,
) -> bool {
    &&& q == (Ledger { runs: q.runs, ..q1 })
    &&& q.runs.len() == q1.runs.len()
    &&& forall|i: int|
        0 <= i < q1.runs.len() ==> #[trigger] q.runs[i] == cleared_run(
            p,
            events,
            p.removals.take(n),
            q1.runs[i],
        )
    &&& forall|k: int|
        0 <= k < p.removals.len() && (n <= k || p.removals[k].because
            == Because::NothingToExplain) ==> tail_read(
            p,
            events,
            (#[trigger] p.removals[k]).log.run_id,
        ) is None
    &&& all_readable(events) ==> tails_kept == explained(p.removals.take(n)).len()
    &&& all_readable(events) ==> forall|k: int|
        0 <= k < n && p.removals[k].because == Because::OverBudget ==> tail_read(
            p,
            events,
            (#[trigger] p.removals[k]).log.run_id,
        ) is Some
}

/// One more row is cleared.
proof fn one_more(removals: Seq<RemovalView>, n: int)
    requires
        0 <= n < removals.len(),
    ensures
        forall|id: i64| #[trigger]
            is_planned(removals.take(n + 1), id) <==> is_planned(removals.take(n), id) || id
                == removals[n].log.run_id,
        explained(removals.take(n + 1)).len() == explained(removals.take(n)).len() + if removals[n].because
            == Because::OverBudget {
            1int
        } else {
            0int
        },
{
    seqs::filter_take(removals, n, |r: RemovalView| r.because == Because::OverBudget);
    assert forall|id: i64| #[trigger]
        is_planned(removals.take(n + 1), id) <==> is_planned(removals.take(n), id) || id
            == removals[n].log.run_id by {
        if is_planned(removals.take(n), id) {
            let k = choose|k: int|
                0 <= k < removals.take(n).len() && (#[trigger] removals.take(n)[k]).log.run_id
                    == id;
            assert(removals.take(n + 1)[k].log.run_id == id);
        }
        if id == removals[n].log.run_id {
            assert(removals.take(n + 1)[n].log.run_id == id);
        }
        if is_planned(removals.take(n + 1), id) {
            let k = choose|k: int|
                0 <= k < removals.take(n + 1).len() && (
                #[trigger] removals.take(n + 1)[k]).log.run_id == id;
            if k < n {
                assert(removals.take(n)[k].log.run_id == id);
            }
        }
    }
}

/// A row is not cleared before its turn.
proof fn not_yet_planned(removals: Seq<RemovalView>, n: int)
    requires
        0 <= n < removals.len(),
        removals_apart(removals),
    ensures
        !is_planned(removals.take(n), removals[n].log.run_id),
{
    let id = removals[n].log.run_id;
    if is_planned(removals.take(n), id) {
        let k = choose|k: int|
            0 <= k < removals.take(n).len() && (#[trigger] removals.take(n)[k]).log.run_id == id;
        assert(removals[k].log.run_id == id);
    }
}

/// Turning to the next log clears its row, if there is nothing to be read of it.
proof fn turning_stands(
    p: PruneView,
    q1: Ledger,
    events: Seq<PruneEvent>,
    before: PruneView,
    q: Ledger,
)
    requires
        removals_apart(p.removals),
        before.removals == p.removals,
        before.failure is None,
        0 <= before.at <= p.removals.len(),
        stands_so(p, q1, events, before.at, before.tails_kept, q),
    ensures
        stands_so(
            p,
            q1,
            events,
            cleared(before.turned()),
            before.tails_kept,
            before.turned_rows(q),
        ),
{
    if before.turned().stage == PruneStage::Removing {
        let n = before.at;
        let id = p.removals[n].log.run_id;
        let q2 = before.turned_rows(q);
        one_more(p.removals, n);
        not_yet_planned(p.removals, n);
        assert(tail_read(p, events, id) is None);
        assert forall|i: int| 0 <= i < q1.runs.len() implies #[trigger] q2.runs[i] == cleared_run(
            p,
            events,
            p.removals.take(n + 1),
            q1.runs[i],
        ) by {
            assert(q.runs[i] == cleared_run(p, events, p.removals.take(n), q1.runs[i]));
        }
    }
}

/// An answer that is not about last lines changes nothing of those read.
proof fn removing_stands(
    p: PruneView,
    q1: Ledger,
    rest: Seq<PruneEvent>,
    event: PruneEvent,
    n: int,
    tails_kept: int,
    q: Ledger,
)
    requires
        event is Removed,
        0 <= n <= p.removals.len(),
        stands_so(p, q1, rest, n, tails_kept, q),
    ensures
        stands_so(p, q1, rest.push(event), n, tails_kept, q),
{
    let events = rest.push(event);
    assert(events.drop_last() =~= rest);
    assert(all_readable(events) ==> all_readable(rest)) by {
        assert forall|i: int| 0 <= i < rest.len() && all_readable(events) implies (
        #[trigger] rest[i] matches PruneEvent::Tail(tail) ==> tail is Some) by {
            assert(events[i] == rest[i]);
        }
    }
    assert forall|id: i64| #[trigger] tail_read(p, events, id) == tail_read(p, rest, id) by {}
}

/// Last lines that were read, or could not be, are written to the row as it is
/// cleared.
proof fn reading_stands(
    p: PruneView,
    q1: Ledger,
    rest: Seq<PruneEvent>,
    tail: Option<String>,
    before: PruneView,
    q: Ledger,
)
    requires
        removals_apart(p.removals),
        before == carried(p, rest),
        before.removals == p.removals,
        0 <= before.at < p.removals.len(),
        p.removals[before.at].because == Because::OverBudget,
        stands_so(p, q1, rest, before.at, before.tails_kept, q),
    ensures
        stands_so(
            p,
            q1,
            rest.push(PruneEvent::Tail(tail)),
            before.at + 1,
            before.after(PruneEvent::Tail(tail)).tails_kept,
            before.rows_after(q, PruneEvent::Tail(tail)),
        ),
{
    let event = PruneEvent::Tail(tail);
    let events = rest.push(event);
    let n = before.at;
    let id = p.removals[n].log.run_id;
    let q2 = before.rows_after(q, event);
    assert(events.drop_last() =~= rest);
    one_more(p.removals, n);
    not_yet_planned(p.removals, n);
    assert(all_readable(events) ==> all_readable(rest) && tail is Some) by {
        assert forall|i: int| 0 <= i < rest.len() && all_readable(events) implies (
        #[trigger] rest[i] matches PruneEvent::Tail(tail) ==> tail is Some) by {
            assert(events[i] == rest[i]);
        }
        assert(events[rest.len() as int] == event);
    }
    assert forall|other: i64| other != id implies #[trigger] tail_read(p, events, other)
        == tail_read(p, rest, other) by {}
    assert(tail_read(p, events, id) == text::optional(tail));
    assert forall|i: int| 0 <= i < q1.runs.len() implies #[trigger] q2.runs[i] == cleared_run(
        p,
        events,
        p.removals.take(n + 1),
        q1.runs[i],
    ) by {
        assert(q.runs[i] == cleared_run(p, rest, p.removals.take(n), q1.runs[i]));
    }
    assert forall|k: int| 0 <= k < p.removals.len() && k != n implies (
    #[trigger] p.removals[k]).log.run_id != id by {
        if k < n {
            assert(p.removals[k].log.run_id != p.removals[n].log.run_id);
        } else {
            assert(p.removals[n].log.run_id != p.removals[k].log.run_id);
        }
    }
}

/// How a prune stands after any answers.
proof fn a_prune_so_far(list: Seq<RemovalView>, q1: Ledger, events: Seq<PruneEvent>)
    requires
        removals_apart(list),
        answers(begun(list), events),
    ensures
        ({
            let p = begun(list);
            let now = carried(p, events);
            &&& now.wf()
            &&& now.removals == list
            &&& stands_so(
                p,
                q1,
                events,
                cleared(now),
                now.tails_kept,
                rows_carried(p, p.turned_rows(q1), events),
            )
        }),
    decreases events.len(),
{
    let p = begun(list);
    if events.len() == 0 {
        let blank = PruneView { stage: PruneStage::Over, ..p };
        assert(list.take(0) =~= Seq::<RemovalView>::empty());
        reveal(Seq::filter);
        assert(stands_so(p, q1, events, 0, 0, q1));
        turning_stands(p, q1, events, blank, q1);
        assert(blank.turned() == p);
        assert(blank.turned_rows(q1) == p.turned_rows(q1));
    } else {
        let rest = events.drop_last();
        let event = events.last();
        a_prune_so_far(list, q1, rest);
        let before = carried(p, rest);
        let q = rows_carried(p, p.turned_rows(q1), rest);
        prune_ends(before, event);
        assert(events =~= rest.push(event));
        match event {
            PruneEvent::Tail(tail) => {
                reading_stands(p, q1, rest, tail, before, q);
            },
            PruneEvent::Removed(Ok(_)) => {
                removing_stands(p, q1, rest, event, cleared(before), before.tails_kept, q);
                turning_stands(p, q1, events, PruneView { at: before.at + 1, ..before }, q);
            },
            PruneEvent::Removed(Err(_)) => {
                removing_stands(p, q1, rest, event, cleared(before), before.tails_kept, q);
            },
        }
    }
}

proof fn rising_apart(runs: Seq<RunRecord>, pred: spec_fn(RunRecord) -> bool)
    requires
        forall|i: int, j: int|
            0 <= i < j < runs.len() ==> (#[trigger] runs[i]).id < (#[trigger] runs[j]).id,
    ensures
        forall|i: int, j: int|
            0 <= i < j < runs.filter(pred).len() ==> (#[trigger] runs.filter(pred)[i]).id < (
            #[trigger] runs.filter(pred)[j]).id,
    decreases runs.len(),
{
    reveal(Seq::filter);
    if runs.len() > 0 {
        let rest = runs.drop_last();
        let kept = rest.filter(pred);
        rising_apart(rest, pred);
        assert forall|i: int| 0 <= i < kept.len() implies (#[trigger] kept[i]).id
            < runs.last().id by {
            assert(kept.contains(kept[i]));
            rest.lemma_filter_contains_rev(pred, kept[i]);
            let k = choose|k: int| 0 <= k < rest.len() && rest[k] == kept[i];
            assert(runs[k].id < runs[runs.len() - 1].id);
        }
    }
}

/// No two of the runs whose logs may go have one id.
proof fn logged_are_apart(q: Ledger, repo: Seq<char>, base: Seq<char>, i: int, j: int)
    requires
        q.wf(),
        0 <= i < j < q.logged(repo, base).len(),
    ensures
        q.logged(repo, base)[i].run_id < q.logged(repo, base)[j].run_id,
{
    let pred = |r: RunRecord| q.may_lose_log(r, repo, base);
    rising_apart(q.runs, pred);
    assert(q.runs.filter(pred)[i].id < q.runs.filter(pred)[j].id);
}

/// What was measured of runs apart is found apart.
proof fn found_are_apart(list: Seq<MeasuredView>)
    requires
        forall|i: int, j: int|
            0 <= i < j < list.len() ==> (#[trigger] list[i]).run.run_id != (
            #[trigger] list[j]).run.run_id,
    ensures
        logs_apart(found(list)),
    decreases list.len(),
{
    if list.len() > 0 {
        let rest = list.drop_last();
        found_are_apart(rest);
        assert forall|k: int| 0 <= k < found(rest).len() implies (#[trigger] found(rest)[k]).run_id
            != list.last().run.run_id by {
            let m = found_was_measured(rest, k);
            assert(list[m].run.run_id != list[list.len() - 1].run.run_id);
        }
    }
}

/// Measuring the runs whose logs may go finds logs apart.
proof fn asked_are_apart(q: Ledger, repo: Seq<char>, base: Seq<char>, list: Seq<MeasuredView>)
    requires
        q.wf(),
        measured_runs(list) == q.logged(repo, base),
    ensures
        forall|i: int, j: int|
            0 <= i < j < list.len() ==> (#[trigger] list[i]).run.run_id != (
            #[trigger] list[j]).run.run_id,
        logs_apart(found(list)),
{
    assert forall|i: int, j: int| 0 <= i < j < list.len() implies (#[trigger] list[i]).run.run_id
        != (#[trigger] list[j]).run.run_id by {
        logged_are_apart(q, repo, base, i, j);
        assert(measured_runs(list)[i] == list[i].run);
        assert(measured_runs(list)[j] == list[j].run);
    }
    found_are_apart(list);
}

proof fn filtered_are_apart(logs: Seq<LogView>, pred: spec_fn(LogView) -> bool)
    requires
        logs_apart(logs),
    ensures
        logs_apart(logs.filter(pred)),
    decreases logs.len(),
{
    reveal(Seq::filter);
    if logs.len() > 0 {
        let rest = logs.drop_last();
        let kept = rest.filter(pred);
        filtered_are_apart(rest, pred);
        assert forall|i: int| 0 <= i < kept.len() implies (#[trigger] kept[i]).run_id
            != logs.last().run_id by {
            assert(kept.contains(kept[i]));
            filtered_has(rest, pred, kept[i]);
            let k = choose|k: int| 0 <= k < rest.len() && rest[k] == kept[i];
            assert(logs[k].run_id != logs[logs.len() - 1].run_id);
        }
    }
}

proof fn inserted_are_apart(logs: Seq<LogView>, x: LogView, before: spec_fn(LogView, LogView) -> bool)
    requires
        logs_apart(logs),
        forall|i: int| 0 <= i < logs.len() ==> (#[trigger] logs[i]).run_id != x.run_id,
    ensures
        logs_apart(seqs::inserted(logs, x, before)),
        forall|i: int|
            0 <= i < seqs::inserted(logs, x, before).len() ==> #[trigger] seqs::inserted(
                logs,
                x,
                before,
            )[i] == x || logs.contains(seqs::inserted(logs, x, before)[i]),
    decreases logs.len(),
{
    let r = seqs::inserted(logs, x, before);
    if logs.len() > 0 && before(x, logs.last()) {
        let rest = logs.drop_last();
        let less = seqs::inserted(rest, x, before);
        inserted_are_apart(rest, x, before);
        let n = logs.len() - 1;
        assert forall|i: int| 0 <= i < less.len() implies (#[trigger] less[i]).run_id
            != logs[n].run_id && (less[i] == x || logs.contains(less[i])) by {
            if less[i] != x {
                let k = choose|k: int| 0 <= k < rest.len() && rest[k] == less[i];
                assert(logs[k] == less[i]);
                assert(logs[k].run_id != logs[n].run_id);
            }
        }
        assert(r =~= less.push(logs[n]));
    } else {
        assert forall|i: int| 0 <= i < r.len() implies #[trigger] r[i] == x || logs.contains(
            r[i],
        ) by {
            if i < logs.len() {
                assert(r[i] == logs[i]);
            }
        }
    }
}

proof fn ordered_are_apart(logs: Seq<LogView>, before: spec_fn(LogView, LogView) -> bool)
    requires
        logs_apart(logs),
    ensures
        logs_apart(seqs::ordered(logs, before)),
    decreases logs.len(),
{
    if logs.len() > 0 {
        let rest = logs.drop_last();
        let less = seqs::ordered(rest, before);
        ordered_are_apart(rest, before);
        assert forall|i: int| 0 <= i < less.len() implies (#[trigger] less[i]).run_id
            != logs.last().run_id by {
            assert(less.contains(less[i]));
            seqs::ordered_has(rest, before, less[i]);
            let k = choose|k: int| 0 <= k < rest.len() && rest[k] == less[i];
            assert(logs[k].run_id != logs[logs.len() - 1].run_id);
        }
        inserted_are_apart(less, logs.last(), before);
    }
}

/// A plan for logs apart removes logs apart.
proof fn planned_are_apart(logs: Seq<LogView>, budget: u64)
    requires
        logs_apart(logs),
    ensures
        removals_apart(removals(logs, budget)),
{
    let all = removals(logs, budget);
    let n = passes(logs).len() as int;
    let fail = |l: LogView| !l.passed;
    filtered_are_apart(logs, |l: LogView| l.passed);
    filtered_are_apart(logs, fail);
    ordered_are_apart(logs.filter(fail), |a: LogView, b: LogView| a.run_id < b.run_id);
    assert forall|i: int, j: int| 0 <= i < j < all.len() implies (#[trigger] all[i]).log.run_id != (
    #[trigger] all[j]).log.run_id by {
        removal_is(logs, budget, i);
        removal_is(logs, budget, j);
        if i < n && j >= n {
            let a = choose|a: int| 0 <= a < logs.len() && logs[a] == all[i].log;
            let b = choose|b: int| 0 <= b < logs.len() && logs[b] == all[j].log;
            if a < b {
                assert(logs[a].run_id != logs[b].run_id);
            } else {
                assert(logs[b].run_id != logs[a].run_id);
            }
        } else if j < n {
            assert(passes(logs)[i].run_id != passes(logs)[j].run_id);
        } else {
            assert(failures(logs)[i - n].run_id != failures(logs)[j - n].run_id);
        }
    }
}

/// A survey clears the rows of the logs that have vanished, and those alone.
pub proof fn a_survey_clears(q: Ledger, list: Seq<MeasuredView>)
    ensures
        reconciled(q, list) == (Ledger { runs: reconciled(q, list).runs, ..q }),
        reconciled(q, list).runs.len() == q.runs.len(),
        forall|i: int|
            0 <= i < q.runs.len() ==> #[trigger] reconciled(q, list).runs[i] == (if is_vanished(
                list,
                q.runs[i].id,
            ) {
                RunRecord { log_path: None, tail: None, ..q.runs[i] }
            } else {
                q.runs[i]
            }),
    decreases list.len(),
{
    if list.len() > 0 {
        let rest = list.drop_last();
        let n = list.len() - 1;
        a_survey_clears(q, rest);
        assert forall|id: i64| #[trigger]
            is_vanished(list, id) <==> is_vanished(rest, id) || (list[n].run.run_id == id
                && list[n].bytes is None) by {
            if is_vanished(rest, id) {
                let m = choose|m: int|
                    0 <= m < rest.len() && (#[trigger] rest[m]).run.run_id == id
                        && rest[m].bytes is None;
                assert(list[m] == rest[m]);
            }
            if is_vanished(list, id) {
                let m = choose|m: int|
                    0 <= m < list.len() && (#[trigger] list[m]).run.run_id == id
                        && list[m].bytes is None;
                if m < n {
                    assert(rest[m] == list[m]);
                }
            }
        }
        assert forall|i: int| 0 <= i < q.runs.len() implies #[trigger] reconciled(q, list).runs[i]
            == (if is_vanished(list, q.runs[i].id) {
            RunRecord { log_path: None, tail: None, ..q.runs[i] }
        } else {
            q.runs[i]
        }) by {
            assert(reconciled(q, rest).runs[i].id == q.runs[i].id);
        }
    }
}

/// The rows once a prune of a queue is over.
pub open spec fn pruned_rows(
    q: Ledger,
    list: Seq<MeasuredView>,
    budget: u64,
    events: Seq<PruneEvent>,
) -> Ledger {
    let p = begun(removals(found(list), budget));
    rows_carried(p, p.turned_rows(reconciled(q, list)), events)
}

/// A prune of a queue that was carried out to its end, with every log removed.
pub open spec fn is_whole(
    q: Ledger,
    repo: Seq<char>,
    base: Seq<char>,
    list: Seq<MeasuredView>,
    budget: u64,
    events: Seq<PruneEvent>,
) -> bool {
    let p = begun(removals(found(list), budget));
    &&& q.wf()
    &&& measured_runs(list) == q.logged(repo, base)
    &&& answers(p, events)
    &&& carried(p, events).stage == PruneStage::Over
    &&& carried(p, events).failure is None
}

/// A prune clears exactly the rows of the logs that it planned to remove, and of
/// those that had vanished: everything else is as it was. A failure keeps on its
/// row what was read of its log, a pass keeps nothing, and where every log could
/// be read as many last lines are kept as failures went.
pub proof fn a_prune_clears_what_it_planned(
    q: Ledger,
    repo: Seq<char>,
    base: Seq<char>,
    list: Seq<MeasuredView>,
    budget: u64,
    events: Seq<PruneEvent>,
)
    requires
        is_whole(q, repo, base, list, budget, events),
    ensures
        ({
            let plan = removals(found(list), budget);
            let p = begun(plan);
            let q2 = pruned_rows(q, list, budget, events);
            &&& spares(repo, base, q, q2)
            &&& forall|i: int|
                0 <= i < q.runs.len() ==> #[trigger] q2.runs[i] == (if is_planned(
                    plan,
                    q.runs[i].id,
                ) {
                    RunRecord {
                        log_path: None,
                        tail: tail_read(p, events, q.runs[i].id),
                        ..q.runs[i]
                    }
                } else if is_vanished(list, q.runs[i].id) {
                    RunRecord { log_path: None, tail: None, ..q.runs[i] }
                } else {
                    q.runs[i]
                })
            &&& forall|k: int|
                0 <= k < plan.len() && plan[k].because == Because::NothingToExplain ==> tail_read(
                    p,
                    events,
                    (#[trigger] plan[k]).log.run_id,
                ) is None
            &&& all_readable(events) ==> forall|k: int|
                0 <= k < plan.len() && plan[k].because == Because::OverBudget ==> tail_read(
                    p,
                    events,
                    (#[trigger] plan[k]).log.run_id,
                ) is Some
            &&& all_readable(events) ==> carried(p, events).tails_kept == explained(plan).len()
        }),
{
    let plan = removals(found(list), budget);
    let p = begun(plan);
    let q1 = reconciled(q, list);
    let q2 = pruned_rows(q, list, budget, events);
    asked_are_apart(q, repo, base, list);
    planned_are_apart(found(list), budget);
    a_prune_so_far(plan, q1, events);
    a_survey_clears(q, list);
    assert(cleared(carried(p, events)) == plan.len());
    assert(plan.take(plan.len() as int) =~= plan);
    what_was_asked_stands(q, repo, base, list);
    standing_is_finished(q, repo, base, list);
    planned_is_finished(q, repo, base, list, budget);
    assert forall|i: int| 0 <= i < q.runs.len() implies {
        &&& #[trigger] q2.runs[i] == (if is_planned(plan, q.runs[i].id) {
            RunRecord { log_path: None, tail: tail_read(p, events, q.runs[i].id), ..q.runs[i] }
        } else if is_vanished(list, q.runs[i].id) {
            RunRecord { log_path: None, tail: None, ..q.runs[i] }
        } else {
            q.runs[i]
        })
        &&& !is_finished(q, repo, base, q.runs[i]) ==> q2.runs[i] == q.runs[i]
    } by {
        let id = q.runs[i].id;
        assert(q1.runs[i].id == id);
        assert(q2.runs[i] == cleared_run(p, events, plan, q1.runs[i]));
        if is_planned(plan, id) {
            let k = choose|k: int|
                0 <= k < plan.len() && (#[trigger] plan[k]).log.run_id == id;
            assert(finished_id(q, repo, base, p.removals[k].log.run_id));
        } else if is_vanished(list, id) {
            let m = choose|m: int|
                0 <= m < list.len() && (#[trigger] list[m]).run.run_id == id && list[m].bytes
                    is None;
            assert(finished_id(q, repo, base, standing(q, repo, base, list)[m].run.run_id));
        }
    }
}

/// Logs apart take no more bytes than any logs that they are among.
proof fn part_is_no_larger(part: Seq<LogView>, whole: Seq<LogView>)
    requires
        logs_apart(part),
        forall|i: int| 0 <= i < part.len() ==> whole.contains(#[trigger] part[i]),
    ensures
        total(part) <= total(whole),
    decreases part.len(),
{
    if part.len() == 0 {
        crate::logs::total_is_natural(whole);
    } else {
        let x = part[0];
        let rest = part.drop_first();
        assert(whole.contains(part[0]));
        let k = choose|k: int| 0 <= k < whole.len() && whole[k] == x;
        let less = whole.remove(k);
        assert forall|i: int| 0 <= i < rest.len() implies less.contains(#[trigger] rest[i]) by {
            assert(rest[i] == part[i + 1]);
            assert(part[0].run_id != part[i + 1].run_id);
            assert(whole.contains(part[i + 1]));
            let j = choose|j: int| 0 <= j < whole.len() && whole[j] == rest[i];
            if j < k {
                assert(less[j] == rest[i]);
            } else {
                assert(less[j - 1] == rest[i]);
            }
        }
        assert(logs_apart(rest)) by {
            assert forall|i: int, j: int| 0 <= i < j < rest.len() implies (
            #[trigger] rest[i]).run_id != (#[trigger] rest[j]).run_id by {
                assert(part[i + 1].run_id != part[j + 1].run_id);
            }
        }
        part_is_no_larger(rest, less);
        total_without(whole, k);
    }
}

proof fn total_without(logs: Seq<LogView>, k: int)
    requires
        0 <= k < logs.len(),
    ensures
        total(logs.remove(k)) + logs[k].bytes == total(logs),
    decreases k,
{
    if k == 0 {
        assert(logs.remove(0) =~= logs.drop_first());
    } else {
        total_without(logs.drop_first(), k - 1);
        assert(logs.remove(k).drop_first() =~= logs.drop_first().remove(k - 1));
        assert(logs.remove(k)[0] == logs[0]);
    }
}

/// Pruning again, with the logs that are left as big as they were, removes
/// nothing and changes no row.
pub proof fn a_second_prune_removes_nothing(
    q: Ledger,
    repo: Seq<char>,
    base: Seq<char>,
    list: Seq<MeasuredView>,
    budget: u64,
    events: Seq<PruneEvent>,
    again: Seq<MeasuredView>,
)
    requires
        is_whole(q, repo, base, list, budget, events),
        measured_runs(again) == pruned_rows(q, list, budget, events).logged(repo, base),
        forall|j: int| 0 <= j < again.len() ==> list.contains(#[trigger] again[j]),
    ensures
        removals(found(again), budget).len() == 0,
        reconciled(pruned_rows(q, list, budget, events), again) == pruned_rows(
            q,
            list,
            budget,
            events,
        ),
{
    let logs = found(list);
    let plan = removals(logs, budget);
    let q2 = pruned_rows(q, list, budget, events);
    a_prune_clears_what_it_planned(q, repo, base, list, budget, events);
    crate::queue::ledger::same_rows_wf(q, q2);
    asked_are_apart(q2, repo, base, again);
    assert forall|j: int| 0 <= j < again.len() implies (#[trigger] again[j]).bytes is Some && kept(
        logs,
        budget,
    ).contains(log_of(again[j])) by {
        let m = choose|m: int| 0 <= m < list.len() && list[m] == again[j];
        let id = again[j].run.run_id;
        assert(measured_runs(again)[j] == again[j].run);
        assert(q2.logged(repo, base).contains(again[j].run));
        let i = logged_is_there(q2, repo, base, again[j].run);
        assert(q2.runs[i].id == id && q.runs[i].id == id);
        assert(!is_planned(plan, id) && !is_vanished(list, id));
        assert(list[m].bytes is Some);
        measured_is_found(list, m);
        left_is_kept(logs, budget, log_of(again[j]));
    }
    let left = found(again);
    assert forall|k: int| 0 <= k < left.len() implies kept(logs, budget).contains(
        #[trigger] left[k],
    ) by {
        let m = found_was_measured(again, k);
        assert(kept(logs, budget).contains(log_of(again[m])));
    }
    nothing_of_it_goes(logs, budget, left);
    a_survey_clears(q2, again);
    assert forall|i: int| 0 <= i < q2.runs.len() implies #[trigger] reconciled(q2, again).runs[i]
        == q2.runs[i] by {
        if is_vanished(again, q2.runs[i].id) {
            let m = choose|m: int|
                0 <= m < again.len() && (#[trigger] again[m]).run.run_id == q2.runs[i].id
                    && again[m].bytes is None;
            assert(again[m].bytes is Some);
        }
    }
    assert(reconciled(q2, again).runs =~= q2.runs);
}

/// A log that was found and is not planned to go is kept.
proof fn left_is_kept(logs: Seq<LogView>, budget: u64, x: LogView)
    requires
        logs.contains(x),
        !is_planned(removals(logs, budget), x.run_id),
    ensures
        kept(logs, budget).contains(x),
{
    let plan = removals(logs, budget);
    let n = passes(logs).len() as int;
    crate::logs::excess_is_within(failures(logs), budget);
    let gone = crate::logs::excess(failures(logs), budget) as int;
    if x.passed {
        filtered_has(logs, |l: LogView| l.passed, x);
        let k = choose|k: int| 0 <= k < passes(logs).len() && passes(logs)[k] == x;
        assert(plan[k].log.run_id == x.run_id);
    } else {
        failures_have(logs, x);
        let k = choose|k: int| 0 <= k < failures(logs).len() && failures(logs)[k] == x;
        if k < gone {
            assert(plan[n + k].log == failures(logs).take(gone)[k]);
            assert(plan[n + k].log.run_id == x.run_id);
        } else {
            assert(kept(logs, budget)[k - gone] == x);
        }
    }
}

/// Of logs apart that a prune kept, nothing goes.
proof fn nothing_of_it_goes(logs: Seq<LogView>, budget: u64, left: Seq<LogView>)
    requires
        logs_apart(left),
        forall|k: int| 0 <= k < left.len() ==> kept(logs, budget).contains(#[trigger] left[k]),
    ensures
        removals(left, budget).len() == 0,
{
    let pass = |l: LogView| l.passed;
    let gone = crate::logs::excess(failures(logs), budget) as int;
    crate::logs::excess_is_within(failures(logs), budget);
    crate::logs::budget_is_met(logs, budget);
    assert forall|k: int| 0 <= k < left.len() implies !pass(#[trigger] left[k]) by {
        let m = choose|m: int| 0 <= m < kept(logs, budget).len() && kept(logs, budget)[m] == left[k];
        assert(failures(logs)[gone + m] == left[k]);
        failures_have(logs, left[k]);
    }
    seqs::filter_none(left, pass);
    part_is_no_larger(left, kept(logs, budget));
    crate::logs::total_partition(left);
    assert(total(passes(left)) == 0);
    assert(crate::logs::excess(failures(left), budget) == 0);
    assert(failures(left).take(0) =~= Seq::<LogView>::empty());
}

/// A dry run foretells a prune: from the same rows and the same sizes both plan
/// the same removals, down to the byte.
pub proof fn a_dry_run_foretells(plan: Plan, applied: Plan, logs: Seq<LogView>, budget: u64)
    requires
        plan.is_for(logs, budget),
        applied.is_for(logs, budget),
    ensures
        crate::logs::removal_views(plan.remove@) == crate::logs::removal_views(applied.remove@),
        plan.bytes_before == applied.bytes_before,
        plan.bytes_after == applied.bytes_after,
        plan.budget@ == applied.budget@,
{
}

} // verus!
