//! What keeping the logs inside their budget comes to.

use vstd::prelude::*;

use crate::bytes::ByteSize;
use crate::logs::ended_lines;
use crate::logs::excess;
use crate::logs::failures;
use crate::logs::kept;
use crate::logs::last_of;
use crate::logs::lines_of;
use crate::logs::log_views;
use crate::logs::open_line;
use crate::logs::passes;
use crate::logs::plan;
use crate::logs::removal_views;
use crate::logs::removals;
use crate::logs::shown;
use crate::logs::tail;
use crate::logs::tail_text;
use crate::logs::total;
use crate::logs::Because;
use crate::logs::LogFile;
use crate::logs::LogView;
use crate::logs::Plan;
use crate::logs::RemovalView;
use crate::queue::ledger::Ledger;
use crate::queue::ledger::RunRecord;
use crate::queue::store::Store;
use crate::retention::measured_views;
use crate::retention::survey;
use crate::retention::Measured;
use crate::retention::MeasuredView;
use crate::retention::PruneAction;
use crate::retention::PruneEvent;
use crate::retention::PruneRun;
use crate::seqs;
use crate::text;

verus! {

/// The bytes of logs add up: those of two lists together are those of the one and
/// those of the other, and a log alone takes what it takes.
pub proof fn bytes_add_up(a: Seq<LogView>, b: Seq<LogView>, x: LogView)
    ensures
        total(Seq::<LogView>::empty()) == 0,
        total(seq![x]) == x.bytes,
        total(a + b) == total(a) + total(b),
    decreases a.len(),
{
    assert(seq![x].drop_first() =~= Seq::<LogView>::empty());
    if a.len() == 0 {
        assert(a + b =~= b);
    } else {
        bytes_add_up(a.drop_first(), b, x);
        assert((a + b).drop_first() =~= a.drop_first() + b);
        assert((a + b)[0] == a[0]);
    }
}

/// The failures are exactly the logs that did not pass, each as often as it is
/// there, oldest first.
pub proof fn failures_are_what_did_not_pass(logs: Seq<LogView>)
    ensures
        failures(logs).to_multiset() == logs.filter(|l: LogView| !l.passed).to_multiset(),
        forall|x: LogView| #[trigger]
            failures(logs).contains(x) <==> logs.contains(x) && !x.passed,
        forall|i: int, j: int|
            0 <= i < j < failures(logs).len() ==> (#[trigger] failures(logs)[i]).run_id <= (
            #[trigger] failures(logs)[j]).run_id,
{
    let fail = |l: LogView| !l.passed;
    let older = |a: LogView, b: LogView| a.run_id < b.run_id;
    let list = logs.filter(fail);
    seqs::ordered_keeps(list, older);
    seqs::ordered_is_ordered(list, older);
    assert forall|x: LogView| #[trigger] failures(logs).contains(x) <==> logs.contains(x)
        && !x.passed by {
        seqs::ordered_has(list, older, x);
        if logs.contains(x) && !x.passed {
            let i = choose|i: int| 0 <= i < logs.len() && logs[i] == x;
            logs.lemma_filter_contains(fail, i);
        }
        if list.contains(x) {
            let i = choose|i: int| 0 <= i < list.len() && list[i] == x;
            logs.lemma_filter_pred(fail, i);
            logs.lemma_filter_contains_rev(fail, x);
        }
    }
    assert forall|i: int, j: int| 0 <= i < j < failures(logs).len() implies (
    #[trigger] failures(logs)[i]).run_id <= (#[trigger] failures(logs)[j]).run_id by {
        assert(!older(failures(logs)[j], failures(logs)[i]));
    }
}

/// A log goes in a plan.
pub open spec fn goes(p: Plan, log: LogView) -> bool {
    exists|k: int| 0 <= k < p.remove@.len() && (#[trigger] p.remove@[k]).log@ == log
}

/// A plan for logs and a budget. Every log that passed goes, as having nothing to
/// explain. Of those that failed only as many go as it takes, as being over budget
/// and the oldest first. What stays fits, and had the last of the failures that go
/// stayed, it would not have. The plan says how much there was, how much stays and
/// under which budget.
pub proof fn a_plan_takes_no_more_than_it_must(logs: Vec<LogFile>, budget: ByteSize, r: Plan)
    requires
        call_ensures(plan, (logs, budget), r),
    ensures
        ({
            let all = log_views(logs@);
            &&& r.budget@ == budget@
            &&& r.bytes_before == total(all)
            &&& r.bytes_after <= budget@
            &&& forall|k: int|
                0 <= k < r.remove@.len() ==> {
                    let x = #[trigger] r.remove@[k];
                    &&& all.contains(x.log@)
                    &&& (x.because == Because::NothingToExplain <==> x.log.passed)
                    &&& (x.because == Because::OverBudget <==> !x.log.passed)
                }
            &&& forall|i: int|
                0 <= i < all.len() && (#[trigger] all[i]).passed ==> goes(r, all[i])
            &&& forall|i: int, j: int|
                0 <= i < all.len() && 0 <= j < all.len() && !(#[trigger] all[i]).passed && !(
                #[trigger] all[j]).passed && all[i].run_id < all[j].run_id && goes(r, all[j])
                    ==> goes(r, all[i])
            &&& total(failures(all)) <= budget@ ==> forall|k: int|
                0 <= k < r.remove@.len() ==> (#[trigger] r.remove@[k]).log.passed
            &&& r.remove@.len() > 0 && !r.remove@[r.remove@.len() - 1].log.passed ==> r.bytes_after
                + r.remove@[r.remove@.len() - 1].log.bytes > budget@
            &&& r.bytes_before - r.bytes_after == total(
                removal_views(r.remove@).map_values(|x: RemovalView| x.log),
            )
        }),
{
    let all = log_views(logs@);
    let old = failures(all);
    let n = excess(old, budget@) as int;
    let gone = old.take(n);
    let left = kept(all, budget@);
    let m = passes(all).len() as int;
    let list = removals(all, budget@);
    let pass = |l: LogView| l.passed;
    crate::logs::excess_is_within(old, budget@);
    crate::logs::budget_is_met(all, budget@);
    crate::logs::total_partition(all);
    failures_are_what_did_not_pass(all);
    assert(removal_views(r.remove@) == list);
    assert(list.len() == r.remove@.len());
    assert(list.len() == m + n);
    assert(old =~= gone + left);
    assert forall|k: int| 0 <= k < r.remove@.len() implies {
        let x = #[trigger] r.remove@[k];
        &&& all.contains(x.log@)
        &&& (x.because == Because::NothingToExplain <==> x.log.passed)
        &&& (x.because == Because::OverBudget <==> !x.log.passed)
        &&& k < m ==> x.log@ == passes(all)[k]
        &&& k >= m ==> x.log@ == old[k - m]
    } by {
        assert(list[k] == r.remove@[k]@);
        if k < m {
            all.lemma_filter_pred(pass, k);
            all.lemma_filter_contains_rev(pass, passes(all)[k]);
        } else {
            assert(list[k].log == gone[k - m]);
            assert(gone[k - m] == old[k - m]);
            assert(old.contains(old[k - m]));
        }
    }
    assert forall|i: int| 0 <= i < all.len() && (#[trigger] all[i]).passed implies goes(
        r,
        all[i],
    ) by {
        all.lemma_filter_contains(pass, i);
        let k = choose|k: int| 0 <= k < passes(all).len() && passes(all)[k] == all[i];
        assert(r.remove@[k].log@ == all[i]);
    }
    assert forall|i: int, j: int|
        0 <= i < all.len() && 0 <= j < all.len() && !(#[trigger] all[i]).passed && !(
        #[trigger] all[j]).passed && all[i].run_id < all[j].run_id && goes(r, all[j]) implies goes(
        r,
        all[i],
    ) by {
        let k = choose|k: int| 0 <= k < r.remove@.len() && (#[trigger] r.remove@[k]).log@ == all[j];
        assert(k >= m);
        assert(old[k - m] == all[j]);
        assert(all.contains(all[i]));
        assert(old.contains(all[i]));
        let x = choose|x: int| 0 <= x < old.len() && old[x] == all[i];
        if k - m < x {
            assert(old[k - m].run_id <= old[x].run_id);
        }
        assert(x < n);
        assert(r.remove@[m + x].log@ == old[m + x - m]);
    }
    let last = r.remove@.len() - 1;
    if r.remove@.len() > 0 && !r.remove@[last].log.passed {
        assert(last >= m);
        crate::logs::no_failure_goes_needlessly(all, budget@, n - 1);
        let x = old[n - 1];
        assert(r.remove@[last].log@ == old[last - m]);
        assert(old.skip(n - 1) =~= seq![x] + left);
        bytes_add_up(seq![x], left, x);
    }
    let logs_gone = list.map_values(|x: RemovalView| x.log);
    assert(logs_gone =~= passes(all) + gone);
    if all.len() > 0 {
        bytes_add_up(passes(all), gone, all[0]);
        bytes_add_up(gone, left, all[0]);
    } else {
        assert(passes(all) =~= Seq::<LogView>::empty()) by {
            all.lemma_filter_len(pass);
        }
        assert(total(passes(all)) == 0);
        assert(total(old) == 0);
        let any = LogView {
            run_id: 0,
            candidate_id: 0,
            path: Seq::empty(),
            bytes: 0,
            passed: false,
        };
        bytes_add_up(passes(all), gone, any);
        bytes_add_up(gone, left, any);
    }
}

/// How much a plan frees is the difference.
pub proof fn what_a_plan_frees(p: &Plan, none: bool, freed: u64)
    requires
        call_ensures(Plan::is_empty, (p,), none),
        call_ensures(Plan::bytes_freed, (p,), freed),
    ensures
        none <==> p.remove@.len() == 0,
        p.bytes_before >= p.bytes_after ==> freed == p.bytes_before - p.bytes_after,
        p.bytes_before < p.bytes_after ==> freed == 0,
{
}

/// Lines of bytes, each ended.
pub open spec fn written_bytes(lines: Seq<Seq<u8>>) -> Seq<u8>
    decreases lines.len(),
{
    if lines.len() == 0 {
        Seq::empty()
    } else {
        (written_bytes(lines.drop_last()) + lines.last()).push(10u8)
    }
}

/// The bytes are within one line.
pub open spec fn in_one_line(bytes: Seq<u8>) -> bool {
    forall|i: int| 0 <= i < bytes.len() ==> #[trigger] bytes[i] != 10
}

proof fn a_line_is_begun(s: Seq<u8>, line: Seq<u8>)
    requires
        s.len() == 0 || s.last() == 10,
        in_one_line(line),
    ensures
        ended_lines(s + line) == ended_lines(s),
        open_line(s + line) == line,
    decreases line.len(),
{
    if line.len() == 0 {
        assert(s + line =~= s);
        assert(open_line(s) =~= line);
    } else {
        let less = line.drop_last();
        assert forall|i: int| 0 <= i < less.len() implies #[trigger] less[i] != 10 by {
            assert(less[i] == line[i]);
        }
        a_line_is_begun(s, less);
        assert((s + line).drop_last() =~= s + less);
        assert((s + line).last() == line[line.len() - 1]);
        assert(open_line(s + line) =~= line);
    }
}

proof fn written_lines_are_ended(lines: Seq<Seq<u8>>)
    requires
        forall|i: int| 0 <= i < lines.len() ==> in_one_line(#[trigger] lines[i]),
    ensures
        ended_lines(written_bytes(lines)) == lines,
        written_bytes(lines).len() == 0 || written_bytes(lines).last() == 10,
    decreases lines.len(),
{
    if lines.len() > 0 {
        let rest = lines.drop_last();
        let line = lines[lines.len() - 1];
        assert forall|i: int| 0 <= i < rest.len() implies in_one_line(#[trigger] rest[i]) by {
            assert(rest[i] == lines[i]);
        }
        written_lines_are_ended(rest);
        a_line_is_begun(written_bytes(rest), line);
        let s = written_bytes(lines);
        assert(s.drop_last() =~= written_bytes(rest) + line);
        assert(ended_lines(s) =~= lines);
    } else {
        assert(lines =~= Seq::empty());
    }
}

/// The end of a log is its last lines, as many as were asked for or as there are,
/// in their order, whether or not the last is ended.
pub proof fn the_end_of_a_log_is_its_last_lines(
    lines: Seq<Seq<u8>>,
    open: Seq<u8>,
    log: &[u8],
    n: usize,
    r: Vec<String>,
    joined: String,
)
    requires
        forall|i: int| 0 <= i < lines.len() ==> in_one_line(#[trigger] lines[i]),
        in_one_line(open),
        log@ == written_bytes(lines) + open,
        call_ensures(tail, (log, n), r),
        call_ensures(tail_text, (log, n), joined),
    ensures
        ({
            let all = if open.len() > 0 {
                lines.push(open)
            } else {
                lines
            };
            let m = if all.len() <= n {
                all.len() as int
            } else {
                n as int
            };
            &&& r@.len() == m
            &&& forall|i: int|
                0 <= i < m ==> (#[trigger] r@[i])@ == text::lossy_text(all[all.len() - m + i])
            &&& joined@ == text::joined(text::texts(r@), "\n"@)
        }),
{
    written_lines_are_ended(lines);
    a_line_is_begun(written_bytes(lines), open);
    let all = if open.len() > 0 {
        lines.push(open)
    } else {
        lines
    };
    assert(lines_of(log@) == all);
    let last = last_of(all, n as nat);
    assert(text::texts(r@) == shown(last));
    assert(text::texts(r@).len() == r@.len());
    assert(shown(last).len() == last.len());
    assert forall|i: int| 0 <= i < r@.len() implies (#[trigger] r@[i])@ == text::lossy_text(
        all[all.len() - r@.len() + i],
    ) by {
        assert(text::texts(r@)[i] == r@[i]@);
        assert(last[i] == all[all.len() - last.len() + i]);
    }
}

/// A survey of logs that were measured while they might go: what it gives is every
/// log that is there, as it was measured and in that order, and the rows of those
/// that are not there say so. No other row changes.
pub proof fn a_survey_is_of_what_is_there(
    store: &mut Store,
    repo: &str,
    base: &str,
    measured: &Vec<Measured>,
    r: Vec<LogFile>,
)
    requires
        call_ensures(survey, (store, repo, base, measured), r),
        crate::retention::measured_runs(measured_views(measured@)) == store@.logged(repo@, base@),
    ensures
        ({
            let a = old(store)@;
            let b = final(store)@;
            let there = measured@.filter(|m: Measured| m.bytes is Some);
            &&& r@.len() == there.len()
            &&& forall|i: int|
                0 <= i < there.len() ==> {
                    let x = #[trigger] r@[i];
                    &&& x.run_id == there[i].run.run_id
                    &&& x.candidate_id == there[i].run.candidate_id
                    &&& x.path@ == there[i].run.log_path@
                    &&& x.passed == there[i].run.passed
                    &&& Some(x.bytes) == there[i].bytes
                }
            &&& b.entries == a.entries
            &&& b.candidates == a.candidates
            &&& b.members == a.members
            &&& b.leases == a.leases
            &&& b.runs.len() == a.runs.len()
            &&& forall|i: int|
                0 <= i < a.runs.len() ==> if exists|k: int|
                    0 <= k < measured@.len() && (#[trigger] measured@[k]).run.run_id == a.runs[i].id
                        && measured@[k].bytes is None {
                    (#[trigger] b.runs[i]) == (RunRecord { log_path: None, tail: None, ..a.runs[i] })
                } else {
                    b.runs[i] == a.runs[i]
                }
        }),
{
    let a = old(store)@;
    let b = final(store)@;
    let list = measured_views(measured@);
    crate::pruning::a_survey_clears(a, list);
    assert(b == crate::retention::reconciled(a, list));
    found_is_there(measured@);
    let there = measured@.filter(|m: Measured| m.bytes is Some);
    let logs = crate::retention::found(list);
    assert(log_views(r@) == logs);
    assert(log_views(r@).len() == r@.len());
    assert forall|i: int| 0 <= i < there.len() implies {
        let x = #[trigger] r@[i];
        &&& x.run_id == there[i].run.run_id
        &&& x.candidate_id == there[i].run.candidate_id
        &&& x.path@ == there[i].run.log_path@
        &&& x.passed == there[i].run.passed
        &&& Some(x.bytes) == there[i].bytes
    } by {
        assert(log_views(r@)[i] == r@[i]@);
        assert(is_log_of(logs[i], there[i]));
    }
    assert forall|i: int| 0 <= i < a.runs.len() implies if exists|k: int|
        0 <= k < measured@.len() && (#[trigger] measured@[k]).run.run_id == a.runs[i].id
            && measured@[k].bytes is None {
        (#[trigger] b.runs[i]) == (RunRecord { log_path: None, tail: None, ..a.runs[i] })
    } else {
        b.runs[i] == a.runs[i]
    } by {
        let id = a.runs[i].id;
        if exists|k: int|
            0 <= k < measured@.len() && (#[trigger] measured@[k]).run.run_id == id
                && measured@[k].bytes is None {
            let k = choose|k: int|
                0 <= k < measured@.len() && (#[trigger] measured@[k]).run.run_id == id
                    && measured@[k].bytes is None;
            assert(list[k].run.run_id == id && list[k].bytes is None);
            assert(crate::pruning::is_vanished(list, id));
        } else if crate::pruning::is_vanished(list, id) {
            let k = choose|k: int|
                0 <= k < list.len() && (#[trigger] list[k]).run.run_id == id && list[k].bytes
                    is None;
            assert(measured@[k].run.run_id == id && measured@[k].bytes is None);
        }
    }
}

/// A log that was found is as it was measured.
spec fn is_log_of(log: LogView, m: Measured) -> bool {
    &&& log.run_id == m.run.run_id
    &&& log.candidate_id == m.run.candidate_id
    &&& log.path == m.run.log_path@
    &&& log.passed == m.run.passed
    &&& Some(log.bytes) == m.bytes
}

proof fn found_is_there(measured: Seq<Measured>)
    ensures
        ({
            let there = measured.filter(|m: Measured| m.bytes is Some);
            let logs = crate::retention::found(measured_views(measured));
            &&& logs.len() == there.len()
            &&& forall|i: int|
                0 <= i < there.len() ==> is_log_of(#[trigger] logs[i], there[i])
        }),
    decreases measured.len(),
{
    reveal(Seq::filter);
    let list = measured_views(measured);
    if measured.len() > 0 {
        let rest = measured.drop_last();
        found_is_there(rest);
        assert(list.drop_last() =~= measured_views(rest));
        assert(list.last() == measured.last()@);
        let there = measured.filter(|m: Measured| m.bytes is Some);
        let logs = crate::retention::found(list);
        assert forall|i: int| 0 <= i < there.len() implies is_log_of(
            #[trigger] logs[i],
            there[i],
        ) by {
            if i < crate::retention::found(measured_views(rest)).len() {
                assert(logs[i] == crate::retention::found(measured_views(rest))[i]);
            }
        }
    }
}

/// How a prune goes from log to log. What could be read of a failure goes on its
/// row, which says from then on that the log has gone, and only then is the file
/// removed. When it is, the next log has its turn: a failure is read first, its
/// last forty lines, and the row of a pass is cleared with nothing kept. A file
/// that cannot be removed ends the prune, and why is said. No row of anything but
/// the one run changes.
pub proof fn a_prune_goes_from_log_to_log(
    run: &mut PruneRun,
    store: &mut Store,
    event: PruneEvent,
    r: PruneAction,
)
    requires
        run@.wf(),
        run@.takes(event),
        call_ensures(PruneRun::next, (run, store, event), r),
    ensures
        ({
            let p = old(run)@;
            let p2 = final(run)@;
            let a = old(store)@;
            let b = final(store)@;
            let log = p.removals[p.at].log;
            let more = p.at + 1 < p.removals.len();
            let turn = p.removals[p.at + 1];
            let cleared = |id: i64, tail: Option<Seq<char>>|
                forall|i: int|
                    0 <= i < a.runs.len() ==> (#[trigger] b.runs[i]) == (if a.runs[i].id == id {
                        RunRecord { log_path: None, tail, ..a.runs[i] }
                    } else {
                        a.runs[i]
                    });
            &&& b.entries == a.entries
            &&& b.candidates == a.candidates
            &&& b.members == a.members
            &&& b.leases == a.leases
            &&& b.runs.len() == a.runs.len()
            &&& p2.removals == p.removals
            &&& match event {
                PruneEvent::Tail(tail) => {
                    &&& cleared(log.run_id, match tail {
                        Some(t) => Some(t@),
                        None => None,
                    })
                    &&& r matches PruneAction::RemoveLog { path } && path@ == log.path
                    &&& p2.at == p.at
                    &&& p2.tails_kept == p.tails_kept + (if tail is Some {
                        1int
                    } else {
                        0
                    })
                },
                PruneEvent::Removed(Ok(_)) => {
                    &&& p2.at == p.at + 1
                    &&& p2.tails_kept == p.tails_kept
                    &&& p2.failure is None
                    &&& !more ==> r is Finish && b == a
                    &&& more && turn.because == Because::OverBudget ==> {
                        &&& r matches PruneAction::ReadTail { path, lines } && path@
                            == turn.log.path && lines == 40
                        &&& b == a
                    }
                    &&& more && turn.because == Because::NothingToExplain ==> {
                        &&& r matches PruneAction::RemoveLog { path } && path@ == turn.log.path
                        &&& cleared(turn.log.run_id, None)
                    }
                },
                PruneEvent::Removed(Err(why)) => {
                    &&& r is Finish
                    &&& b == a
                    &&& p2.failure matches Some(said) && crate::gate::ends_in(said, why@)
                },
            }
        }),
{
    if let PruneEvent::Removed(Err(why)) = event {
        let said = final(run)@.failure->0;
        let n = said.len() - why@.len();
        assert(said =~= said.take(n) + why@);
    }
}

/// Logs go so that the rest fits: every log that goes is one of them, for the
/// reason that fits it, every log that passed goes, and what stays is all the
/// others and within the budget.
pub open spec fn fits_once_gone(
    logs: Seq<LogView>,
    gone: Seq<RemovalView>,
    budget: u64,
) -> bool {
    &&& forall|k: int|
        0 <= k < gone.len() ==> {
            &&& logs.contains((#[trigger] gone[k]).log)
            &&& (gone[k].because == Because::NothingToExplain <==> gone[k].log.passed)
        }
    &&& forall|i: int|
        0 <= i < logs.len() && (#[trigger] logs[i]).passed ==> exists|k: int|
            0 <= k < gone.len() && (#[trigger] gone[k]).log == logs[i]
    &&& exists|stays: Seq<LogView>|
        {
            &&& #[trigger] total(stays) <= budget
            &&& total(stays) + total(gone.map_values(|x: RemovalView| x.log)) == total(logs)
            &&& forall|i: int|
                0 <= i < logs.len() && !stays.contains(#[trigger] logs[i]) ==> exists|k: int|
                    0 <= k < gone.len() && (#[trigger] gone[k]).log == logs[i]
        }
}

proof fn planned_fits(logs: Seq<LogView>, budget: u64)
    ensures
        fits_once_gone(logs, removals(logs, budget), budget),
{
    let old = failures(logs);
    let n = excess(old, budget) as int;
    let gone = old.take(n);
    let stays = kept(logs, budget);
    let m = passes(logs).len() as int;
    let list = removals(logs, budget);
    let pass = |l: LogView| l.passed;
    crate::logs::excess_is_within(old, budget);
    crate::logs::budget_is_met(logs, budget);
    crate::logs::total_partition(logs);
    failures_are_what_did_not_pass(logs);
    assert(list.len() == m + n);
    assert(old =~= gone + stays);
    assert forall|k: int| 0 <= k < list.len() implies {
        &&& logs.contains((#[trigger] list[k]).log)
        &&& (list[k].because == Because::NothingToExplain <==> list[k].log.passed)
    } by {
        if k < m {
            logs.lemma_filter_pred(pass, k);
            logs.lemma_filter_contains_rev(pass, passes(logs)[k]);
        } else {
            assert(list[k].log == gone[k - m]);
            assert(gone[k - m] == old[k - m]);
            assert(old.contains(old[k - m]));
        }
    }
    assert forall|i: int| 0 <= i < logs.len() && (#[trigger] logs[i]).passed implies exists|k: int|
        0 <= k < list.len() && (#[trigger] list[k]).log == logs[i] by {
        logs.lemma_filter_contains(pass, i);
        let k = choose|k: int| 0 <= k < passes(logs).len() && passes(logs)[k] == logs[i];
        assert(list[k].log == logs[i]);
    }
    assert forall|i: int| 0 <= i < logs.len() && !stays.contains(#[trigger] logs[i]) implies exists|
        k: int,
    | 0 <= k < list.len() && (#[trigger] list[k]).log == logs[i] by {
        if !logs[i].passed {
            assert(logs.contains(logs[i]));
            assert(old.contains(logs[i]));
            let x = choose|x: int| 0 <= x < old.len() && old[x] == logs[i];
            if x >= n {
                assert(stays[x - n] == logs[i]);
            }
            assert(list[m + x].log == gone[x]);
        }
    }
    let any = LogView { run_id: 0, candidate_id: 0, path: Seq::empty(), bytes: 0, passed: false };
    bytes_add_up(passes(logs), gone, any);
    bytes_add_up(gone, stays, any);
    assert(list.map_values(|x: RemovalView| x.log) =~= passes(logs) + gone);
    assert(total(stays) <= budget);
}

/// Once the logs of a queue are measured, a tick brings them inside the budget that
/// is configured: while it removes any, those are what has to go of the logs that
/// were found. Where they are more than can be counted, the tick is over.
pub proof fn a_tick_prunes_to_its_budget(
    post: crate::tick::PostView,
    base: Seq<char>,
    config: crate::config::ConfigView,
    measured: Vec<Measured>,
    q: Ledger,
    now: crate::time::Instant,
    p2: crate::tick::PhaseView,
    q2: Ledger,
)
    requires
        crate::retention::measured_runs(measured_views(measured@)) == q.logged(
            post.repo,
            post.base,
        ),
        post.steps(
            crate::tick::PhaseView::Measuring {
                base,
                config,
                runs: q.logged(post.repo, post.base),
            },
            q,
            crate::tick::Event::Measured(measured),
            now,
            p2,
            q2,
        ),
    ensures
        ({
            let logs = crate::retention::found(measured_views(measured@));
            &&& p2 matches crate::tick::PhaseView::Pruning { base: b, config: c, prune } ==> {
                &&& b == base
                &&& c == config
                &&& prune.at == 0
                &&& prune.tails_kept == 0
                &&& prune.removals.len() > 0
                &&& fits_once_gone(logs, prune.removals, config.log_budget)
            }
            &&& total(logs) > u64::MAX ==> (p2 matches crate::tick::PhaseView::Over {
                result: Err(crate::tick::TickError::LogsTooLarge),
            })
            &&& total(logs) <= config.log_budget && (forall|i: int|
                0 <= i < logs.len() ==> !(#[trigger] logs[i]).passed) ==> !(p2 is Pruning)
        }),
{
    let list = measured_views(measured@);
    let logs = crate::retention::found(list);
    crate::retention::what_was_asked_stands(q, post.repo, post.base, list);
    planned_fits(logs, config.log_budget);
    if forall|i: int| 0 <= i < logs.len() ==> !(#[trigger] logs[i]).passed {
        let pass = |l: LogView| l.passed;
        seqs::filter_none(logs, pass);
        crate::logs::total_partition(logs);
        assert(total(passes(logs)) == 0);
    }
}

/// A run that was measured and whose log may go by now still counts; one whose log
/// may not is left alone.
pub proof fn what_may_not_go_is_left_alone(
    q: Ledger,
    repo: Seq<char>,
    base: Seq<char>,
    list: Seq<MeasuredView>,
    m: MeasuredView,
)
    ensures
        crate::retention::standing(q, repo, base, list).contains(m) <==> list.contains(m)
            && q.logged(repo, base).contains(m.run),
{
    let pred = |m: MeasuredView| q.logged(repo, base).contains(m.run);
    let left = crate::retention::standing(q, repo, base, list);
    if list.contains(m) && pred(m) {
        let i = choose|i: int| 0 <= i < list.len() && list[i] == m;
        list.lemma_filter_contains(pred, i);
    }
    if left.contains(m) {
        let i = choose|i: int| 0 <= i < left.len() && left[i] == m;
        list.lemma_filter_pred(pred, i);
        list.lemma_filter_contains_rev(pred, m);
    }
}

} // verus!
