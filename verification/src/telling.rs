//! What is told of a queue, in words.

use vstd::prelude::*;

use crate::queue::lease::Held;
use crate::queue::ledger::Ledger;
use crate::queue::ledger::RunRecord;
use crate::queue::store::Blame;
use crate::queue::store::StatusEntry;
use crate::queue::store::Store;
use crate::queue::store::Summary;
use crate::report::announcements_said;
use crate::report::describe;
use crate::report::describe_summary;
use crate::report::entry_lines;
use crate::report::failed_hooks;
use crate::report::humanise;
use crate::report::is_of;
use crate::report::last_log;
use crate::report::overview_line;
use crate::report::run_lines;
use crate::report::run_said;
use crate::report::runs_said;
use crate::report::span_said;
use crate::report::worker_said;
use crate::report::worth_saying;
use crate::report::Remains;
use crate::text::begins_with;
use crate::text::decimal;
use crate::text::integer;
use crate::text::joined;
use crate::text::texts;
use crate::time::Timestamp;
use crate::worker::announcement_views;
use crate::worker::moved;
use crate::worker::Abandoned;
use crate::worker::Announcement;
use crate::worker::Fault;
use crate::worker::TickOutcome;
use crate::worker::WorkSummary;

verus! {

/// What is said of a landing names the candidate, how many entries landed and the
/// first of the commit; what is said of a split names both candidates and how many
/// are retried; and so on: every number of an outcome is said, and in its place.
pub proof fn an_outcome_is_told_in_full(outcome: &TickOutcome, r: String)
    requires
        call_ensures(describe, (outcome,), r),
    ensures
        match outcome {
            TickOutcome::Idle => r@ == "nothing queued"@,
            TickOutcome::AnotherWorkerHolds { holder_pid } => r@
                == "another worker holds this branch (pid "@ + integer(*holder_pid as int) + ")"@,
            TickOutcome::Landed { candidate, entries, at } => r@ == "candidate "@ + integer(
                *candidate as int,
            ) + " passed; "@ + decimal(*entries as nat) + " entr(ies) landed at "@ + at@.take(7),
            TickOutcome::Abandoned { candidate, requeued, reason } => r@ == "candidate "@ + integer(
                *candidate as int,
            ) + " discarded ("@ + (if *reason == Abandoned::BaseMoved {
                "BaseMoved"@
            } else {
                "Interrupted"@
            }) + "); "@ + decimal(*requeued as nat) + " requeued, no attempts spent"@,
            TickOutcome::Blamed { candidate, branch, blame, reason, .. } => r@ == "candidate "@
                + integer(*candidate as int) + " failed: "@ + branch@ + " "@ + (if *reason
                == Fault::Conflict {
                "Conflict"@
            } else {
                "GateFailed"@
            }) + ", "@ + (if *blame == Blame::Evicted {
                "Evicted"@
            } else {
                "Requeued"@
            }),
            TickOutcome::Split { failed, next, retrying } => r@ == "candidate "@ + integer(
                *failed as int,
            ) + " failed; bisecting into candidate "@ + integer(*next as int) + " of "@ + decimal(
                *retrying as nat,
            ),
            TickOutcome::BaseCheckedOut { holders } => forall|i: int|
                0 <= i < holders@.len() ==> crate::text::occurs(r@, "  "@ + (#[trigger] holders@[i])@),
        },
{
    if let TickOutcome::BaseCheckedOut { holders } = outcome {
        let list = texts(holders@);
        let lines = seq!["refusing to touch the base branch: it is checked out in"@]
            + crate::report::holder_lines(list)
            + seq!["git would move it anyway and leave that checkout inconsistent"@];
        assert forall|i: int| 0 <= i < holders@.len() implies crate::text::occurs(
            r@,
            "  "@ + (#[trigger] holders@[i])@,
        ) by {
            assert(lines[i + 1] == "  "@ + holders@[i]@);
            a_part_occurs(lines, "\n"@, i + 1);
        }
    }
}

/// A part of a joined text occurs in it.
proof fn a_part_occurs(parts: Seq<Seq<char>>, separator: Seq<char>, i: int)
    requires
        0 <= i < parts.len(),
    ensures
        crate::text::occurs(joined(parts, separator), parts[i]),
    decreases parts.len(),
{
    let s = joined(parts, separator);
    let part = parts[i];
    let none = Seq::<char>::empty();
    let rest = parts.drop_last();
    if parts.len() == 1 {
        assert(s =~= none + part + none);
        crate::wording::beginning_is(none, part, none);
    } else if i == parts.len() - 1 {
        let lead = joined(rest, separator) + separator;
        assert(s =~= lead + part + none);
        crate::wording::beginning_is(lead, part, none);
    } else {
        a_part_occurs(rest, separator, i);
        let t = joined(rest, separator);
        crate::wording::an_occurrence_is_there(t, part);
        let k = choose|k: int|
            0 <= k <= t.len() - part.len() && #[trigger] t.subrange(k, k + part.len()) == part;
        let lead = t.take(k);
        let end = t.skip(k + part.len()) + separator + parts.last();
        assert(t =~= lead + t.subrange(k, k + part.len()) + t.skip(k + part.len()));
        assert(s =~= lead + part + end);
        crate::wording::beginning_is(lead, part, end);
    }
}

/// A number of seconds is told in its two largest units: the seconds alone below a
/// minute, minutes and seconds below an hour, hours and minutes from there on.
pub proof fn a_span_is_told_in_its_units(seconds: u64, h: nat, m: nat, s: nat, r: String)
    requires
        call_ensures(humanise, (seconds,), r),
        seconds == h * 3600 + m * 60 + s,
        m < 60,
        s < 60,
    ensures
        h == 0 && m == 0 ==> r@ == decimal(s) + "s"@,
        h == 0 && m > 0 ==> r@ == decimal(m) + "m "@ + decimal(s) + "s"@,
        h > 0 ==> r@ == decimal(h) + "h "@ + decimal(m) + "m"@,
{
    if h > 0 {
        assert(seconds as nat / 3600 == h);
        assert(seconds as nat % 3600 == m * 60 + s);
    }
}

/// A worker's work is told number by number.
pub proof fn a_summary_is_told_in_full(summary: &WorkSummary, r: String)
    requires
        call_ensures(describe_summary, (summary,), r),
    ensures
        r@ == "stopped after "@ + decimal(summary.ticks as nat) + " tick(s): "@ + decimal(
            summary.entries_landed as nat,
        ) + " landed, "@ + decimal(summary.entries_evicted as nat) + " evicted, "@ + decimal(
            summary.failures as nat,
        ) + " failed tick(s)"@,
{
}

/// A quiet outcome is worth a line only where the one before was not quiet; where
/// the queue moved it always is. Quiet is where the queue did not move.
pub proof fn what_is_worth_a_line(outcome: &TickOutcome, repeating: bool, r: (bool, bool))
    requires
        call_ensures(worth_saying, (outcome, repeating), r),
    ensures
        r.1 <==> !moved(*outcome),
        r.0 <==> moved(*outcome) || !repeating,
{
}

/// A hook that worked is not mentioned, and every one that did not is, on a line
/// of its own, in order.
pub proof fn every_failed_hook_is_mentioned(announcements: &Vec<Announcement>, r: Vec<String>)
    requires
        call_ensures(failed_hooks, (announcements,), r),
    ensures
        ({
            let failed = announcements@.filter(|a: Announcement| !(a.delivery is Delivered));
            &&& r@.len() == failed.len()
            &&& forall|i: int|
                0 <= i < failed.len() ==> (#[trigger] r@[i])@ == "  on_settle for "@
                    + failed[i].settled.branch@ + " ("@ + failed[i].settled.state.name() + "): "@
                    + failed[i].delivery@.described()
        }),
{
    hooks_by_hook(announcements@);
    let failed = announcements@.filter(|a: Announcement| !(a.delivery is Delivered));
    let said = announcements_said(announcement_views(announcements@));
    assert(texts(r@) == said);
    assert(texts(r@).len() == r@.len());
    assert forall|i: int| 0 <= i < failed.len() implies (#[trigger] r@[i])@ == "  on_settle for "@
        + failed[i].settled.branch@ + " ("@ + failed[i].settled.state.name() + "): "@
        + failed[i].delivery@.described() by {
        assert(texts(r@)[i] == r@[i]@);
        assert(is_said_of(said[i], failed[i]));
    }
}

spec fn is_said_of(line: Seq<char>, a: Announcement) -> bool {
    line == "  on_settle for "@ + a.settled.branch@ + " ("@ + a.settled.state.name() + "): "@
        + a.delivery@.described()
}

proof fn hooks_by_hook(list: Seq<Announcement>)
    ensures
        ({
            let failed = list.filter(|a: Announcement| !(a.delivery is Delivered));
            let said = announcements_said(announcement_views(list));
            &&& said.len() == failed.len()
            &&& forall|i: int| 0 <= i < failed.len() ==> is_said_of(#[trigger] said[i], failed[i])
        }),
    decreases list.len(),
{
    reveal(Seq::filter);
    let views = announcement_views(list);
    if list.len() > 0 {
        let rest = list.drop_last();
        hooks_by_hook(rest);
        assert(views.drop_last() =~= announcement_views(rest));
        assert(views.last() == list.last()@);
        let failed = list.filter(|a: Announcement| !(a.delivery is Delivered));
        let said = announcements_said(views);
        assert forall|i: int| 0 <= i < failed.len() implies is_said_of(
            #[trigger] said[i],
            failed[i],
        ) by {
            if i < announcements_said(announcement_views(rest)).len() {
                assert(said[i] == announcements_said(announcement_views(rest))[i]);
            }
        }
    }
}

/// The run is of a candidate of the queue, and of the one that is asked for where
/// one is.
pub open spec fn is_asked_for(
    q: Ledger,
    run: RunRecord,
    repo: Seq<char>,
    base: Seq<char>,
    wanted: Option<i64>,
) -> bool {
    &&& wanted is None || wanted == Some(run.candidate_id)
    &&& exists|k: int|
        0 <= k < q.candidates.len() && (#[trigger] q.candidates[k]).id == run.candidate_id
            && q.candidates[k].repo_path == repo && q.candidates[k].base_branch == base
}

proof fn asked_for_is_of(
    q: Ledger,
    run: RunRecord,
    repo: Seq<char>,
    base: Seq<char>,
    wanted: Option<i64>,
)
    ensures
        is_asked_for(q, run, repo, base, wanted) == is_of(q, run, repo, base, wanted),
{
    if is_asked_for(q, run, repo, base, wanted) {
        let k = choose|k: int|
            0 <= k < q.candidates.len() && (#[trigger] q.candidates[k]).id == run.candidate_id
                && q.candidates[k].repo_path == repo && q.candidates[k].base_branch == base;
        assert(q.candidates[k].in_queue(repo, base));
    }
    if is_of(q, run, repo, base, wanted) {
        let k = choose|k: int|
            0 <= k < q.candidates.len() && (#[trigger] q.candidates[k]).id == run.candidate_id
                && q.candidates[k].in_queue(repo, base);
        assert(q.candidates[k].repo_path == repo);
    }
}

/// How a run ended: it passed exactly where its code is zero.
pub open spec fn ended_as(run: RunRecord) -> Seq<char> {
    if run.exit_code == Some(0i32) {
        "passed"@
    } else if run.exit_code is Some {
        "failed (exit "@ + integer(run.exit_code->0 as int) + ")"@
    } else {
        "failed (signal)"@
    }
}

/// Every run that is asked for is on a line, oldest first, and no other: which run
/// it is, of which candidate, how it ended and when it was.
pub proof fn every_run_has_its_line(
    store: &Store,
    repo: &str,
    base: &str,
    wanted: Option<i64>,
    r: Vec<String>,
)
    requires
        call_ensures(run_lines, (store, repo, base, wanted), r),
    ensures
        ({
            let runs = store@.runs.filter(
                |x: RunRecord| is_asked_for(store@, x, repo@, base@, wanted),
            );
            &&& r@.len() == runs.len()
            &&& forall|i: int|
                0 <= i < runs.len() ==> begins_with(
                    (#[trigger] r@[i])@,
                    "run "@ + integer(runs[i].id as int) + "  candidate "@ + integer(
                        runs[i].candidate_id as int,
                    ) + "  "@ + ended_as(runs[i]) + "  "@ + runs[i].started_at + "  "@,
                ) && (runs[i].log_path matches Some(path) ==> crate::gate::ends_in(r@[i]@, path))
        }),
{
    let q = store@;
    let pred = |x: RunRecord| is_asked_for(q, x, repo@, base@, wanted);
    runs_by_run(q, q.runs, repo@, base@, wanted);
    let runs = q.runs.filter(pred);
    let said = runs_said(q, q.runs, repo@, base@, wanted);
    assert(texts(r@) == said);
    assert(texts(r@).len() == r@.len());
    assert forall|i: int| 0 <= i < runs.len() implies begins_with(
        (#[trigger] r@[i])@,
        "run "@ + integer(runs[i].id as int) + "  candidate "@ + integer(
            runs[i].candidate_id as int,
        ) + "  "@ + ended_as(runs[i]) + "  "@ + runs[i].started_at + "  "@,
    ) && (runs[i].log_path matches Some(path) ==> crate::gate::ends_in(r@[i]@, path)) by {
        assert(texts(r@)[i] == r@[i]@);
        assert(said[i] == run_said(runs[i]));
        a_run_in_a_line(runs[i]);
    }
}

proof fn a_run_in_a_line(run: RunRecord)
    ensures
        begins_with(
            run_said(run),
            "run "@ + integer(run.id as int) + "  candidate "@ + integer(run.candidate_id as int)
                + "  "@ + ended_as(run) + "  "@ + run.started_at + "  "@,
        ),
        run.log_path matches Some(path) ==> crate::gate::ends_in(run_said(run), path),
{
    let lead = "run "@ + integer(run.id as int) + "  candidate "@ + integer(
        run.candidate_id as int,
    ) + "  "@ + ended_as(run) + "  "@ + run.started_at + "  "@;
    let log = match run.log_path {
        Some(path) => path,
        None => if run.tail is Some {
            "log pruned, tail kept"@
        } else {
            "log pruned"@
        },
    };
    assert(run_said(run) == lead + log);
    crate::wording::beginning_is(lead, lead, log);
}

proof fn runs_by_run(
    q: Ledger,
    runs: Seq<RunRecord>,
    repo: Seq<char>,
    base: Seq<char>,
    wanted: Option<i64>,
)
    ensures
        ({
            let asked = runs.filter(|x: RunRecord| is_asked_for(q, x, repo, base, wanted));
            let said = runs_said(q, runs, repo, base, wanted);
            &&& said.len() == asked.len()
            &&& forall|i: int| 0 <= i < asked.len() ==> #[trigger] said[i] == run_said(asked[i])
        }),
    decreases runs.len(),
{
    reveal(Seq::filter);
    if runs.len() > 0 {
        let rest = runs.drop_last();
        runs_by_run(q, rest, repo, base, wanted);
        asked_for_is_of(q, runs.last(), repo, base, wanted);
        let asked = runs.filter(|x: RunRecord| is_asked_for(q, x, repo, base, wanted));
        let said = runs_said(q, runs, repo, base, wanted);
        assert forall|i: int| 0 <= i < asked.len() implies #[trigger] said[i] == run_said(
            asked[i],
        ) by {
            if i < runs_said(q, rest, repo, base, wanted).len() {
                assert(said[i] == runs_said(q, rest, repo, base, wanted)[i]);
            }
        }
    }
}

/// What is left of a candidate's log is that of its latest run: the file while it
/// is there, its last lines where they were kept, and otherwise nothing. There is
/// nothing to say exactly where the candidate, of that queue, was never gated.
pub proof fn what_is_left_is_of_the_latest_run(
    store: &Store,
    repo: &str,
    base: &str,
    candidate: i64,
    r: Option<Remains>,
    i: int,
)
    requires
        call_ensures(last_log, (store, repo, base, candidate), r),
        0 <= i < store@.runs.len(),
        is_asked_for(store@, store@.runs[i], repo@, base@, Some(candidate)),
        forall|j: int|
            i < j < store@.runs.len() ==> !is_asked_for(
                store@,
                #[trigger] store@.runs[j],
                repo@,
                base@,
                Some(candidate),
            ),
    ensures
        r is Some,
        store@.runs[i].log_path matches Some(path) ==> (r matches Some(Remains::Log { path: given })
            && given@ == path),
        store@.runs[i].log_path is None ==> match store@.runs[i].tail {
            Some(tail) => r matches Some(Remains::Tail { text }) && text@ == tail,
            None => r == Some(Remains::Nothing),
        },
{
    let q = store@;
    assert forall|j: int| 0 <= j < q.runs.len() implies is_asked_for(
        q,
        #[trigger] q.runs[j],
        repo@,
        base@,
        Some(candidate),
    ) == (q.runs[j].candidate_id == candidate && is_of(q, q.runs[j], repo@, base@, None)) by {
        asked_for_is_of(q, q.runs[j], repo@, base@, None);
    }
    if let Some(remains) = r {
        let k = choose|k: int|
            {
                &&& 0 <= k < q.runs.len()
                &&& (#[trigger] q.runs[k]).candidate_id == candidate
                &&& is_of(q, q.runs[k], repo@, base@, None)
                &&& forall|j: int|
                    k < j < q.runs.len() && (#[trigger] q.runs[j]).candidate_id == candidate
                        ==> !is_of(q, q.runs[j], repo@, base@, None)
                &&& crate::report::remains_of(q.runs[k], remains)
            };
        assert(is_asked_for(q, q.runs[k], repo@, base@, Some(candidate)));
        assert(k == i);
    }
}

/// A part of a queue that has entries is a blank line, a heading with their number
/// and a line for each, in order: its id, its state, its branch and the first of
/// its commit. A part that has none is not mentioned.
pub proof fn every_entry_has_its_line(
    heading: &str,
    entries: &Vec<StatusEntry>,
    budget: Option<u32>,
    r: Vec<String>,
)
    requires
        call_ensures(entry_lines, (heading, entries, budget), r),
    ensures
        entries@.len() == 0 ==> r@.len() == 0,
        entries@.len() > 0 ==> {
            &&& r@.len() == entries@.len() + 2
            &&& r@[0]@.len() == 0
            &&& r@[1]@ == heading@ + " ("@ + decimal(entries@.len()) + ")"@
            &&& forall|i: int|
                0 <= i < entries@.len() ==> begins_with(
                    (#[trigger] r@[i + 2])@,
                    "  #"@ + crate::text::padded(integer(entries@[i].id as int), 4) + " "@
                        + crate::text::padded(entries@[i].state.name(), 10) + " "@
                        + crate::text::padded(entries@[i].branch@, 24) + " "@
                        + entries@[i].branch_sha@.take(7),
                )
        },
{
    reveal_strlit("");
    let views = crate::queue::store::status_views(entries@);
    let said = crate::report::entries_said(heading@, views, budget);
    assert(texts(r@) == said);
    assert(texts(r@).len() == r@.len());
    assert(views.len() == entries@.len());
    if entries@.len() > 0 {
        assert(texts(r@)[0] == r@[0]@);
        assert(texts(r@)[1] == r@[1]@);
        assert(said[1] == heading@ + " ("@ + decimal(entries@.len()) + ")"@);
        assert forall|i: int| 0 <= i < entries@.len() implies begins_with(
            (#[trigger] r@[i + 2])@,
            "  #"@ + crate::text::padded(integer(entries@[i].id as int), 4) + " "@
                + crate::text::padded(entries@[i].state.name(), 10) + " "@ + crate::text::padded(
                entries@[i].branch@,
                24,
            ) + " "@ + entries@[i].branch_sha@.take(7),
        ) by {
            assert(texts(r@)[i + 2] == r@[i + 2]@);
            assert(said[i + 2] == crate::report::entry_said(views[i], budget));
            let lead = "  #"@ + crate::text::padded(integer(entries@[i].id as int), 4) + " "@
                + crate::text::padded(entries@[i].state.name(), 10) + " "@ + crate::text::padded(
                entries@[i].branch@,
                24,
            ) + " "@ + entries@[i].branch_sha@.take(7);
            let notes = crate::report::entry_notes(views[i], budget);
            let suffix = if notes.len() == 0 {
                Seq::empty()
            } else {
                "  ("@ + joined(notes, "; "@) + ")"@
            };
            assert(crate::report::entry_said(views[i], budget) == lead + suffix);
            crate::wording::beginning_is(lead, lead, suffix);
        }
    }
}

/// What is noted of an entry: how many attempts it has spent, where it has, and
/// why it is out, where it is.
pub proof fn what_is_noted_of_an_entry(
    entry: StatusEntry,
    budget: Option<u32>,
)
    ensures
        ({
            let notes = crate::report::entry_notes(entry@, budget);
            let spent = if budget is Some {
                "attempt "@ + decimal(entry.attempts as nat) + " of "@ + decimal(
                    budget->0 as nat,
                )
            } else {
                decimal(entry.attempts as nat) + " attempt(s) spent"@
            };
            &&& entry.attempts == 0 && entry.evict_reason is None ==> notes.len() == 0
            &&& entry.attempts > 0 && entry.evict_reason is None ==> notes == seq![spent]
            &&& entry.attempts == 0 && entry.evict_reason is Some ==> notes
                == seq![entry.evict_reason->0@]
            &&& entry.attempts > 0 && entry.evict_reason is Some ==> notes
                == seq![spent, entry.evict_reason->0@]
        }),
{
}

/// Who works on a branch is told by process, with a note where the process is gone,
/// and how long the lease still lasts or has been over.
pub proof fn a_worker_is_told_by_its_lease(held: Held, now: &Timestamp)
    ensures
        worker_said(None, now@) == "none"@,
        ({
            let left = if held.expired {
                "expired "@ + span_said(held.expires_at@.seconds_until(now@) as nat) + " ago"@
            } else {
                "expires in "@ + span_said(now@.seconds_until(held.expires_at@) as nat)
            };
            worker_said(Some(held), now@) == "pid "@ + integer(held.holder_pid as int) + " ("@ + (
            if held.holder_present {
                left
            } else {
                "process gone"@ + ", "@ + left
            }) + ")"@
        }),
{
    let notes = crate::report::held_notes(held, now@);
    if held.holder_present {
        assert(notes =~= seq![notes[0]]);
        crate::wording::joining_is(Seq::empty(), notes[0], ", "@);
    } else {
        let gone = seq!["process gone"@];
        assert(notes =~= gone.push(notes[1]));
        crate::wording::joining_is(Seq::empty(), "process gone"@, ", "@);
        crate::wording::joining_is(gone, notes[1], ", "@);
    }
}

/// One of several queues is told in a line: its base and tip, who works on it, the
/// candidate in flight and how many entries are where.
pub proof fn a_queue_is_told_in_a_line(
    base: &str,
    tip: &Option<crate::git::Sha>,
    held: &Option<Held>,
    summary: &Summary,
    now: &Timestamp,
    r: String,
)
    requires
        call_ensures(overview_line, (base, tip, held, summary, now), r),
    ensures
        r@ == base@ + " @ "@ + (match tip {
            Some(sha) => sha@.take(7),
            None => "unresolved"@,
        }) + "  worker "@ + worker_said(*held, now@) + "  candidate "@ + (match summary.active {
            Some(id) => integer(id as int),
            None => "none"@,
        }) + "  "@ + decimal(summary.queued as nat) + " queued, "@ + decimal(summary.batched as nat)
            + " in a candidate, "@ + decimal(summary.settled as nat) + " settled"@,
{
}

/// A queue is told in full: where it is, at which tip and who works on it; then the
/// candidate in flight, if there is one, with its entries in order; then what waits,
/// what is in a candidate and what has settled.
pub proof fn a_queue_is_told_in_full(
    repo: &str,
    base: &str,
    tip: &Option<crate::git::Sha>,
    held: &Option<Held>,
    budget: Option<u32>,
    snapshot: &crate::queue::store::Snapshot,
    now: &Timestamp,
    queued: Vec<String>,
    batched: Vec<String>,
    settled: Vec<String>,
    r: Vec<String>,
)
    requires
        call_ensures(
            crate::report::status_lines,
            (repo, base, tip, held, budget, snapshot, now),
            r,
        ),
        call_ensures(entry_lines, ("queued", &snapshot.queued, budget), queued),
        call_ensures(entry_lines, ("in a candidate", &snapshot.batched, budget), batched),
        call_ensures(entry_lines, ("settled", &snapshot.settled, budget), settled),
    ensures
        ({
            let parts = texts(queued@) + texts(batched@) + texts(settled@);
            let n = match snapshot.active {
                Some(candidate) => candidate.entries@.len() + 2,
                None => 0,
            } as int;
            &&& r@.len() == 3 + n + parts.len()
            &&& r@[0]@ == "repo    "@ + repo@
            &&& r@[1]@ == "base    "@ + base@ + " @ "@ + (match tip {
                Some(sha) => sha@.take(7),
                None => "unresolved"@,
            })
            &&& r@[2]@ == "worker  "@ + worker_said(*held, now@)
            &&& forall|i: int| 0 <= i < parts.len() ==> (#[trigger] r@[3 + n + i])@ == parts[i]
            &&& snapshot.active matches Some(candidate) ==> {
                &&& r@[3]@.len() == 0
                &&& r@[4]@ == "candidate "@ + integer(candidate.id as int) + " on base "@
                    + candidate.base_sha@.take(7) + " ("@ + decimal(candidate.entries@.len())
                    + " entr(ies))"@
                &&& forall|i: int|
                    0 <= i < candidate.entries@.len() ==> (#[trigger] r@[5 + i])@ == "  "@
                        + decimal((i + 1) as nat) + ". "@ + candidate.entries@[i].branch@ + " "@
                        + candidate.entries@[i].branch_sha@.take(7)
            }
        }),
{
    reveal_strlit("");
    let said = texts(r@);
    assert(said.len() == r@.len());
    let head = seq![
        "repo    "@ + repo@,
        "base    "@ + base@ + " @ "@ + (match tip {
            Some(sha) => sha@.take(7),
            None => "unresolved"@,
        }),
        "worker  "@ + worker_said(*held, now@),
    ];
    let active = match snapshot.active {
        Some(candidate) => crate::report::candidate_said(candidate@),
        None => Seq::empty(),
    };
    let parts = texts(queued@) + texts(batched@) + texts(settled@);
    assert(said =~= head + active + parts);
    assert(said[0] == r@[0]@ && said[1] == r@[1]@ && said[2] == r@[2]@);
    let n = active.len() as int;
    assert forall|i: int| 0 <= i < parts.len() implies (#[trigger] r@[3 + n + i])@ == parts[i] by {
        assert(said[3 + n + i] == parts[i]);
    }
    if let Some(candidate) = snapshot.active {
        assert(candidate@.entries.len() == candidate.entries@.len());
        assert(active.len() == candidate.entries@.len() + 2);
        assert(said[3] == active[0] && said[4] == active[1]);
        assert forall|i: int| 0 <= i < candidate.entries@.len() implies (#[trigger] r@[5 + i])@
            == "  "@ + decimal((i + 1) as nat) + ". "@ + candidate.entries@[i].branch@ + " "@
            + candidate.entries@[i].branch_sha@.take(7) by {
            assert(said[5 + i] == active[2 + i]);
            assert(candidate@.entries[i] == candidate.entries@[i]@);
        }
    }
}

} // verus!
