//! What is read of a queue, and what is done to it by hand.

use vstd::prelude::*;

use crate::git::spelled_id;
use crate::queue::laws::the_line_is_in_order;
use crate::queue::ledger::all_seen;
use crate::queue::ledger::all_status;
use crate::queue::ledger::candidate_found_is_there;
use crate::queue::ledger::candidate_is_found;
use crate::queue::ledger::distinct;
use crate::queue::ledger::entry_found_is_there;
use crate::queue::ledger::entry_is_found;
use crate::queue::ledger::CandidateRecord;
use crate::queue::ledger::EntryRecord;
use crate::queue::ledger::LeaseRecord;
use crate::queue::ledger::Ledger;
use crate::queue::ledger::Member;
use crate::queue::ledger::RunRecord;
use crate::queue::ledger::Section;
use crate::queue::model::EntryId;
use crate::queue::rows::of_queue;
use crate::queue::rows::only_moved;
use crate::queue::rows::under_way;
use crate::queue::state::EntryState;
use crate::queue::store::entry_views;
use crate::queue::store::status_views;
use crate::queue::store::Candidate;
use crate::queue::store::Entry;
use crate::queue::store::LoggedRun;
use crate::queue::store::Settled;
use crate::queue::store::Snapshot;
use crate::queue::store::StatusEntry;
use crate::queue::store::Store;
use crate::queue::store::StoreError;
use crate::queue::store::Summary;
use crate::seqs;
use crate::text;
use crate::time::written;
use crate::time::Timestamp;

verus! {

/// An entry can be moved or removed by hand exactly while it waits in the queue
/// that is named.
pub open spec fn waits_in(q: Ledger, repo: Seq<char>, base: Seq<char>, id: EntryId) -> bool {
    exists|i: int|
        0 <= i < q.entries.len() && (#[trigger] q.entries[i]).id == id && of_queue(
            q.entries[i],
            repo,
            base,
        ) && q.entries[i].state == EntryState::Queued
}

proof fn waiting_is_waiting(q: Ledger, repo: Seq<char>, base: Seq<char>, id: EntryId)
    requires
        q.wf(),
    ensures
        waits_in(q, repo, base, id) == q.waits(repo, base, id),
{
    entry_found_is_there(q.entries, id);
    if waits_in(q, repo, base, id) {
        let i = choose|i: int|
            0 <= i < q.entries.len() && (#[trigger] q.entries[i]).id == id && of_queue(
                q.entries[i],
                repo,
                base,
            ) && q.entries[i].state == EntryState::Queued;
        entry_is_found(q.entries, i);
    }
    if q.waits(repo, base, id) {
        let e = q.entry(id)->0;
        let i = choose|i: int| 0 <= i < q.entries.len() && q.entries[i] == e;
        assert(q.entries[i].id == id);
    }
}

/// An entry that is promoted is in front of everything that waits in its queue:
/// its priority is above every other's there. Nothing else of it changes, and no
/// other row does. Where it does not wait in that queue, nothing changes at all.
pub proof fn promoting_puts_one_in_front(
    store: &mut Store,
    repo: &str,
    base: &str,
    id: EntryId,
    now: &Timestamp,
    r: Result<(), StoreError>,
)
    requires
        store@.wf(),
        call_ensures(Store::promote, (store, repo, base, id, now), r),
        forall|i: int| 0 <= i < store@.entries.len() ==> (#[trigger] store@.entries[i]).priority
            < i64::MAX,
    ensures
        ({
            let a = old(store)@;
            let b = final(store)@;
            &&& r is Ok <==> waits_in(a, repo@, base@, id)
            &&& r is Err ==> b == a
            &&& r matches Err(e) ==> e is UnknownEntry || e is NotWaiting
            &&& b.candidates == a.candidates
            &&& b.members == a.members
            &&& b.runs == a.runs
            &&& b.leases == a.leases
            &&& b.entries.len() == a.entries.len()
            &&& forall|i: int|
                0 <= i < a.entries.len() && a.entries[i].id != id ==> #[trigger] b.entries[i]
                    == a.entries[i]
            &&& r is Ok ==> forall|i: int|
                0 <= i < a.entries.len() && a.entries[i].id == id ==> {
                    let y = #[trigger] b.entries[i];
                    &&& only_moved(EntryRecord { priority: y.priority, ..a.entries[i] }, y)
                    &&& y.state == EntryState::Queued
                    &&& y.updated_at == written(now@)
                    &&& forall|j: int|
                        0 <= j < a.entries.len() && of_queue(
                            #[trigger] a.entries[j],
                            repo@,
                            base@,
                        ) && a.entries[j].state == EntryState::Queued ==> y.priority
                            > a.entries[j].priority
                    &&& exists|j: int|
                        0 <= j < a.entries.len() && of_queue(
                            #[trigger] a.entries[j],
                            repo@,
                            base@,
                        ) && a.entries[j].state == EntryState::Queued && y.priority
                            == a.entries[j].priority + 1
                }
        }),
{
    let a = old(store)@;
    let b = final(store)@;
    waiting_is_waiting(a, repo@, base@, id);
    let line = a.waiting(repo@, base@);
    the_line_is_in_order(a, repo@, base@);
    if a.waits(repo@, base@, id) {
        entry_found_is_there(a.entries, id);
        let e = a.entry(id)->0;
        assert(line.contains(e));
        assert(line.contains(line[0]));
        let top = choose|j: int| 0 <= j < a.entries.len() && a.entries[j] == line[0];
        assert(a.entries[top].priority < i64::MAX);
        assert forall|j: int|
            0 <= j < a.entries.len() && of_queue(#[trigger] a.entries[j], repo@, base@)
                && a.entries[j].state == EntryState::Queued implies a.entries[j].priority
            <= line[0].priority by {
            assert(a.entries.contains(a.entries[j]));
            assert(line.contains(a.entries[j]));
            let k = choose|k: int| 0 <= k < line.len() && line[k] == a.entries[j];
            if k > 0 {
                assert(!crate::queue::ledger::waits_before(line[k], line[0]));
            }
        }
        assert(of_queue(a.entries[top], repo@, base@));
        assert forall|i: int| 0 <= i < a.entries.len() && a.entries[i].id == id implies (
        #[trigger] a.entries[i]) == e by {
            entry_is_found(a.entries, i);
        }
        assert forall|i: int| 0 <= i < a.entries.len() && a.entries[i].id == id implies {
            let y = #[trigger] b.entries[i];
            &&& only_moved(EntryRecord { priority: y.priority, ..a.entries[i] }, y)
            &&& y.state == EntryState::Queued
            &&& y.updated_at == written(now@)
            &&& forall|j: int|
                0 <= j < a.entries.len() && of_queue(#[trigger] a.entries[j], repo@, base@)
                    && a.entries[j].state == EntryState::Queued ==> y.priority
                    > a.entries[j].priority
            &&& exists|j: int|
                0 <= j < a.entries.len() && of_queue(#[trigger] a.entries[j], repo@, base@)
                    && a.entries[j].state == EntryState::Queued && y.priority
                    == a.entries[j].priority + 1
        } by {
            assert(a.entries[i] == e);
        }
    }
}

/// An entry that is removed by hand is out, with that as the reason and nothing
/// spent. No other row changes. Where it does not wait in that queue, nothing
/// changes at all.
pub proof fn removing_takes_one_out(
    store: &mut Store,
    repo: &str,
    base: &str,
    id: EntryId,
    now: &Timestamp,
    r: Result<(), StoreError>,
)
    requires
        store@.wf(),
        call_ensures(Store::dequeue, (store, repo, base, id, now), r),
    ensures
        ({
            let a = old(store)@;
            let b = final(store)@;
            &&& r is Ok <==> waits_in(a, repo@, base@, id)
            &&& r is Err ==> b == a
            &&& r matches Err(e) ==> e is UnknownEntry || e is NotWaiting
            &&& b.candidates == a.candidates
            &&& b.members == a.members
            &&& b.runs == a.runs
            &&& b.leases == a.leases
            &&& b.entries.len() == a.entries.len()
            &&& forall|i: int|
                0 <= i < a.entries.len() ==> {
                    let y = #[trigger] b.entries[i];
                    if r is Ok && a.entries[i].id == id {
                        &&& only_moved(EntryRecord { evict_reason: y.evict_reason, ..a.entries[i] }, y)
                        &&& y.state == EntryState::Evicted
                        &&& y.evict_reason == Some("removed by hand"@)
                        &&& y.updated_at == written(now@)
                    } else {
                        y == a.entries[i]
                    }
                }
        }),
{
    waiting_is_waiting(old(store)@, repo@, base@, id);
}

/// An entry has settled exactly where it is merged or evicted, and what is said of
/// it is what its row says.
pub proof fn settled_is_merged_or_evicted(store: &Store, id: EntryId, r: Option<Settled>)
    requires
        store@.wf(),
        call_ensures(Store::settlement, (store, id), r),
    ensures
        r is Some <==> exists|i: int|
            0 <= i < store@.entries.len() && (#[trigger] store@.entries[i]).id == id && (
            store@.entries[i].state == EntryState::Merged || store@.entries[i].state
                == EntryState::Evicted),
        r matches Some(s) ==> forall|i: int|
            0 <= i < store@.entries.len() && (#[trigger] store@.entries[i]).id == id ==> {
                let e = store@.entries[i];
                &&& s.entry == id
                &&& s.branch@ == e.branch
                &&& s.state == e.state
                &&& s.attempts == e.attempts
                &&& s.reason is Some <==> e.evict_reason is Some
                &&& s.reason matches Some(reason) ==> e.evict_reason == Some(reason@)
            },
{
    let q = store@;
    entry_found_is_there(q.entries, id);
    assert forall|i: int| 0 <= i < q.entries.len() && (#[trigger] q.entries[i]).id == id implies
        q.entry(id) == Some(q.entries[i]) by {
        entry_is_found(q.entries, i);
    }
    if q.entry(id) is Some {
        let e = q.entry(id)->0;
        let i = choose|i: int| 0 <= i < q.entries.len() && q.entries[i] == e;
        assert(q.entries[i].id == id);
    }
}

/// A log is forgotten on one run, which keeps the part of it that is given, and on
/// no other; nothing else changes.
pub proof fn forgetting_is_of_one_run(store: &mut Store, run: i64, tail: Option<String>)
    requires
        call_ensures(Store::forget_log, (store, run, tail), ()),
    ensures
        ({
            let a = old(store)@;
            let b = final(store)@;
            &&& b.entries == a.entries
            &&& b.candidates == a.candidates
            &&& b.members == a.members
            &&& b.leases == a.leases
            &&& b.runs.len() == a.runs.len()
            &&& forall|i: int|
                0 <= i < a.runs.len() ==> {
                    let x = a.runs[i];
                    let y = #[trigger] b.runs[i];
                    if x.id == run {
                        &&& y.id == x.id
                        &&& y.candidate_id == x.candidate_id
                        &&& y.command == x.command
                        &&& y.exit_code == x.exit_code
                        &&& y.started_at == x.started_at
                        &&& y.finished_at == x.finished_at
                        &&& y.log_path is None
                        &&& y.tail == (match tail {
                            Some(t) => Some(t@),
                            None => None,
                        })
                    } else {
                        y == x
                    }
                }
        }),
{
}

/// The run has a log, and its candidate, of this queue, is finished with.
pub open spec fn log_may_go(q: Ledger, run: RunRecord, repo: Seq<char>, base: Seq<char>) -> bool {
    run.log_path is Some && exists|k: int|
        0 <= k < q.candidates.len() && (#[trigger] q.candidates[k]).id == run.candidate_id
            && q.candidates[k].repo_path == repo && q.candidates[k].base_branch == base
            && !under_way(q.candidates[k])
}

/// The logs that may go are those of runs whose candidate, of this queue, is
/// finished with: every one of them, once, as its row has it, oldest first. A run
/// passed exactly where its exit code is zero.
pub proof fn every_log_that_may_go_is_listed(
    store: &Store,
    repo: &str,
    base: &str,
    r: Vec<LoggedRun>,
)
    requires
        store@.wf(),
        call_ensures(Store::logged_runs, (store, repo, base), r),
    ensures
        ({
            let q = store@;
            let runs = q.runs.filter(|x: RunRecord| log_may_go(q, x, repo@, base@));
            &&& r@.len() == runs.len()
            &&& forall|i: int|
                0 <= i < runs.len() ==> {
                    let x = runs[i];
                    let y = #[trigger] r@[i];
                    &&& y.run_id == x.id
                    &&& y.candidate_id == x.candidate_id
                    &&& Some(y.log_path@) == x.log_path
                    &&& (y.passed <==> x.exit_code == Some(0i32))
                }
        }),
{
    let q = store@;
    let may = |x: RunRecord| q.may_lose_log(x, repo@, base@);
    let listed = |x: RunRecord| log_may_go(q, x, repo@, base@);
    assert forall|x: RunRecord| #[trigger] may(x) == listed(x) by {
        candidate_found_is_there(q.candidates, x.candidate_id);
        if listed(x) {
            let k = choose|k: int|
                0 <= k < q.candidates.len() && (#[trigger] q.candidates[k]).id == x.candidate_id
                    && q.candidates[k].repo_path == repo@ && q.candidates[k].base_branch == base@
                    && !under_way(q.candidates[k]);
            candidate_is_found(q.candidates, k);
        }
        if may(x) {
            let c = q.candidate(x.candidate_id)->0;
            let k = choose|k: int| 0 <= k < q.candidates.len() && q.candidates[k] == c;
            assert(q.candidates[k].id == x.candidate_id);
        }
    }
    assert(may =~= listed);
    let runs = q.runs.filter(listed);
    assert(crate::queue::store::logged_views(r@) == q.logged(repo@, base@));
    assert(q.logged(repo@, base@).len() == runs.len());
    assert forall|i: int| 0 <= i < runs.len() implies {
        let x = runs[i];
        let y = #[trigger] r@[i];
        &&& y.run_id == x.id
        &&& y.candidate_id == x.candidate_id
        &&& Some(y.log_path@) == x.log_path
        &&& (y.passed <==> x.exit_code == Some(0i32))
    } by {
        q.runs.lemma_filter_pred(listed, i);
        assert(crate::queue::store::logged_views(r@)[i] == r@[i]@);
        assert(q.logged(repo@, base@)[i].run_id == runs[i].id);
    }
}

/// The positions of the members of a candidate, as the table has them, and which
/// entries have them.
pub open spec fn place_of(q: Ledger, candidate: i64, x: Member) -> bool {
    q.members.contains(x) && x.candidate_id == candidate
}

proof fn positions_are_an_order()
    ensures
        seqs::is_order(|a: Member, b: Member| a.position < b.position),
{
}

/// The members of a candidate are all of its places, each once, by position.
pub proof fn members_stand_by_position(q: Ledger, candidate: i64)
    ensures
        forall|x: Member| #[trigger]
            q.members_of(candidate).contains(x) <==> place_of(q, candidate, x),
        forall|i: int, j: int|
            0 <= i < j < q.members_of(candidate).len() ==> (#[trigger] q.members_of(candidate)[i]).position
                <= (#[trigger] q.members_of(candidate)[j]).position,
        q.members_of(candidate).len() == q.members.filter(
            |m: Member| m.candidate_id == candidate,
        ).len(),
{
    let pred = |m: Member| m.candidate_id == candidate;
    let before = |a: Member, b: Member| a.position < b.position;
    let list = q.members.filter(pred);
    let line = q.members_of(candidate);
    positions_are_an_order();
    seqs::ordered_is_ordered(list, before);
    seqs::ordered_keeps(list, before);
    assert forall|x: Member| #[trigger] line.contains(x) <==> place_of(q, candidate, x) by {
        seqs::ordered_has(list, before, x);
        if place_of(q, candidate, x) {
            let i = choose|i: int| 0 <= i < q.members.len() && q.members[i] == x;
            q.members.lemma_filter_contains(pred, i);
        }
        if list.contains(x) {
            let i = choose|i: int| 0 <= i < list.len() && list[i] == x;
            q.members.lemma_filter_pred(pred, i);
            q.members.lemma_filter_contains_rev(pred, x);
        }
    }
    assert forall|i: int, j: int| 0 <= i < j < line.len() implies (#[trigger] line[i]).position <= (
    #[trigger] line[j]).position by {
        assert(!before(line[j], line[i]));
    }
}

/// The entries of a candidate are read in the order of their places, each as its
/// row has it, and none is left out.
pub proof fn a_candidate_is_read_in_order(store: &Store, candidate: i64, r: Vec<Entry>)
    requires
        store@.wf(),
        call_ensures(
            Store::candidate_entries,
            (store, candidate),
            Ok::<Vec<Entry>, StoreError>(r),
        ),
    ensures
        ({
            let q = store@;
            let places = q.members_of(candidate);
            &&& r@.len() == places.len()
            &&& forall|i: int|
                0 <= i < r@.len() ==> {
                    &&& (#[trigger] r@[i]).id == places[i].entry_id
                    &&& exists|j: int|
                        0 <= j < q.entries.len() && {
                            let e = #[trigger] q.entries[j];
                            &&& e.id == r@[i].id
                            &&& e.branch == r@[i].branch@
                            &&& spelled_id(e.branch_sha) == r@[i].branch_sha@
                            &&& e.attempts == r@[i].attempts
                        }
                }
        }),
{
    let q = store@;
    let places = q.members_of(candidate);
    let order = q.merge_order(candidate);
    members_stand_by_position(q, candidate);
    assert(entry_views(r@) == all_seen(order));
    assert(entry_views(r@).len() == order.len());
    assert forall|i: int| 0 <= i < r@.len() implies {
        &&& (#[trigger] r@[i]).id == places[i].entry_id
        &&& exists|j: int|
            0 <= j < q.entries.len() && {
                let e = #[trigger] q.entries[j];
                &&& e.id == r@[i].id
                &&& e.branch == r@[i].branch@
                &&& spelled_id(e.branch_sha) == r@[i].branch_sha@
                &&& e.attempts == r@[i].attempts
            }
    } by {
        assert(entry_views(r@)[i] == r@[i]@);
        assert(places.contains(places[i]));
        let k = choose|k: int| 0 <= k < q.members.len() && q.members[k] == places[i];
        assert(crate::queue::ledger::has_entry(q.entries, q.members[k].entry_id));
        entry_found_is_there(q.entries, places[i].entry_id);
        let e = order[i];
        let j = choose|j: int| 0 <= j < q.entries.len() && q.entries[j] == e;
        assert(q.entries[j].id == r@[i].id);
    }
}

/// The candidate that is given as unfinished is one of this queue that is under
/// way, on the base it was built against; there is none exactly where no candidate
/// of the queue is under way.
pub proof fn the_unfinished_candidate_is_found(
    store: &Store,
    repo: &str,
    base: &str,
    r: Option<Candidate>,
)
    requires
        store@.wf(),
        call_ensures(
            Store::active_candidate,
            (store, repo, base),
            Ok::<Option<Candidate>, StoreError>(r),
        ),
    ensures
        r is Some <==> exists|k: int|
            0 <= k < store@.candidates.len() && under_way(#[trigger] store@.candidates[k])
                && store@.candidates[k].repo_path == repo@ && store@.candidates[k].base_branch
                == base@,
        r matches Some(c) ==> exists|k: int|
            0 <= k < store@.candidates.len() && {
                let x = #[trigger] store@.candidates[k];
                &&& x.id == c.id
                &&& under_way(x)
                &&& x.repo_path == repo@
                &&& x.base_branch == base@
                &&& spelled_id(x.base_sha) == c.base_sha@
            },
        r matches Some(c) ==> c.entries@.len() == store@.members_of(c.id).len() && forall|i: int|
            0 <= i < c.entries@.len() ==> (#[trigger] c.entries@[i]).id == store@.members_of(
                c.id,
            )[i].entry_id,
{
    let q = store@;
    let pred = |c: CandidateRecord| c.in_queue(repo@, base@) && c.state.active();
    let active = q.active(repo@, base@);
    seqs::filter_nonempty(q.candidates, pred);
    if exists|k: int|
        0 <= k < q.candidates.len() && under_way(#[trigger] q.candidates[k])
            && q.candidates[k].repo_path == repo@ && q.candidates[k].base_branch == base@ {
        let k = choose|k: int|
            0 <= k < q.candidates.len() && under_way(#[trigger] q.candidates[k])
                && q.candidates[k].repo_path == repo@ && q.candidates[k].base_branch == base@;
        assert(pred(q.candidates[k]));
    }
    if active.len() > 0 {
        q.candidates.lemma_filter_pred(pred, 0);
        q.candidates.lemma_filter_contains_rev(pred, active[0]);
        let k = choose|k: int| 0 <= k < q.candidates.len() && q.candidates[k] == active[0];
        assert(under_way(q.candidates[k]));
    }
    if let Some(c) = r {
        let order = q.merge_order(c.id);
        assert(entry_views(c.entries@) == all_seen(order));
        assert(entry_views(c.entries@).len() == order.len());
        assert forall|i: int| 0 <= i < c.entries@.len() implies (#[trigger] c.entries@[i]).id
            == q.members_of(c.id)[i].entry_id by {
            let places = q.members_of(c.id);
            assert(entry_views(c.entries@)[i] == c.entries@[i]@);
            members_stand_by_position(q, c.id);
            assert(places.contains(places[i]));
            let k = choose|k: int| 0 <= k < q.members.len() && q.members[k] == places[i];
            assert(crate::queue::ledger::has_entry(q.entries, q.members[k].entry_id));
            entry_found_is_there(q.entries, places[i].entry_id);
        }
    }
}

/// What a listing says of an entry is what its row says.
pub open spec fn says(s: StatusEntry, e: EntryRecord) -> bool {
    &&& s.id == e.id
    &&& s.state == e.state
    &&& s.branch@ == e.branch
    &&& s.branch_sha@ == spelled_id(e.branch_sha)
    &&& s.attempts == e.attempts
    &&& s.evict_reason is Some <==> e.evict_reason is Some
    &&& s.evict_reason matches Some(reason) ==> e.evict_reason == Some(reason@)
}

proof fn a_list_says(list: Seq<StatusEntry>, rows: Seq<EntryRecord>)
    requires
        status_views(list) == all_status(rows),
    ensures
        list.len() == rows.len(),
        forall|i: int| 0 <= i < rows.len() ==> says(#[trigger] list[i], rows[i]),
{
    let shown = status_views(list);
    assert(shown.len() == list.len());
    assert(all_status(rows).len() == rows.len());
    assert forall|i: int| 0 <= i < rows.len() implies says(#[trigger] list[i], rows[i]) by {
        assert(shown[i] == list[i]@);
        assert(all_status(rows)[i] == rows[i].status());
    }
}

/// A listing of a queue has all that waits, in line; all that is in a candidate;
/// and of what is settled the most recent, as many as were asked for or as there
/// are.
pub proof fn a_listing_is_of_the_whole_queue(
    store: &Store,
    repo: &str,
    base: &str,
    limit: usize,
    r: Snapshot,
)
    requires
        store@.wf(),
        call_ensures(
            Store::snapshot,
            (store, repo, base, limit),
            Ok::<Snapshot, StoreError>(r),
        ),
    ensures
        ({
            let waiting = store@.section(repo@, base@, Section::Waiting);
            let batched = store@.section(repo@, base@, Section::Batched);
            let settled = store@.section(repo@, base@, Section::Settled);
            &&& r.queued@.len() == waiting.len()
            &&& forall|i: int| 0 <= i < waiting.len() ==> says(#[trigger] r.queued@[i], waiting[i])
            &&& r.batched@.len() == batched.len()
            &&& forall|i: int| 0 <= i < batched.len() ==> says(#[trigger] r.batched@[i], batched[i])
            &&& r.settled@.len() == (if settled.len() <= limit {
                settled.len()
            } else {
                limit as nat
            })
            &&& forall|i: int|
                0 <= i < r.settled@.len() ==> says(#[trigger] r.settled@[i], settled[i])
            &&& r.active is Some <==> exists|k: int|
                0 <= k < store@.candidates.len() && under_way(#[trigger] store@.candidates[k])
                    && store@.candidates[k].repo_path == repo@ && store@.candidates[k].base_branch
                    == base@
        }),
{
    let q = store@;
    let settled = q.section(repo@, base@, Section::Settled);
    a_list_says(r.queued@, q.waiting(repo@, base@));
    a_list_says(r.batched@, q.section(repo@, base@, Section::Batched));
    a_list_says(r.settled@, crate::queue::store::upto(settled, limit as nat));
    let pred = |c: CandidateRecord| c.in_queue(repo@, base@) && c.state.active();
    seqs::filter_nonempty(q.candidates, pred);
    if exists|k: int|
        0 <= k < q.candidates.len() && under_way(#[trigger] q.candidates[k])
            && q.candidates[k].repo_path == repo@ && q.candidates[k].base_branch == base@ {
        let k = choose|k: int|
            0 <= k < q.candidates.len() && under_way(#[trigger] q.candidates[k])
                && q.candidates[k].repo_path == repo@ && q.candidates[k].base_branch == base@;
        assert(pred(q.candidates[k]));
    }
    if q.active(repo@, base@).len() > 0 {
        let k = choose|k: int| 0 <= k < q.candidates.len() && pred(#[trigger] q.candidates[k]);
        assert(under_way(q.candidates[k]));
    }
}

/// A queue in a line counts what a listing of it would list.
pub proof fn a_summary_counts_the_queue(store: &Store, repo: &str, base: &str, r: Summary)
    requires
        store@.wf(),
        call_ensures(Store::summary, (store, repo, base), r),
    ensures
        r.queued == store@.section(repo@, base@, Section::Waiting).len(),
        r.batched == store@.section(repo@, base@, Section::Batched).len(),
        r.settled == store@.section(repo@, base@, Section::Settled).len(),
        r.active is Some <==> exists|k: int|
            0 <= k < store@.candidates.len() && under_way(#[trigger] store@.candidates[k])
                && store@.candidates[k].repo_path == repo@ && store@.candidates[k].base_branch
                == base@,
        r.active matches Some(id) ==> exists|k: int|
            0 <= k < store@.candidates.len() && (#[trigger] store@.candidates[k]).id == id
                && under_way(store@.candidates[k]) && store@.candidates[k].repo_path == repo@
                && store@.candidates[k].base_branch == base@,
{
    let q = store@;
    let pred = |c: CandidateRecord| c.in_queue(repo@, base@) && c.state.active();
    seqs::filter_nonempty(q.candidates, pred);
    if exists|k: int|
        0 <= k < q.candidates.len() && under_way(#[trigger] q.candidates[k])
            && q.candidates[k].repo_path == repo@ && q.candidates[k].base_branch == base@ {
        let k = choose|k: int|
            0 <= k < q.candidates.len() && under_way(#[trigger] q.candidates[k])
                && q.candidates[k].repo_path == repo@ && q.candidates[k].base_branch == base@;
        assert(pred(q.candidates[k]));
    }
    let active = q.active(repo@, base@);
    if active.len() > 0 {
        q.candidates.lemma_filter_pred(pred, 0);
        q.candidates.lemma_filter_contains_rev(pred, active[0]);
        let k = choose|k: int| 0 <= k < q.candidates.len() && q.candidates[k] == active[0];
        assert(under_way(q.candidates[k]));
    }
}

/// A repository has rows for a base branch: an entry, a candidate or a lease.
pub open spec fn has_rows(q: Ledger, repo: Seq<char>, base: Seq<char>) -> bool {
    ||| exists|i: int|
        0 <= i < q.entries.len() && (#[trigger] q.entries[i]).repo_path == repo
            && q.entries[i].base_branch == base
    ||| exists|i: int|
        0 <= i < q.candidates.len() && (#[trigger] q.candidates[i]).repo_path == repo
            && q.candidates[i].base_branch == base
    ||| exists|i: int|
        0 <= i < q.leases.len() && (#[trigger] q.leases[i]).repo_path == repo
            && q.leases[i].base_branch == base
}

proof fn distinct_has(list: Seq<Seq<char>>)
    ensures
        distinct(list).no_duplicates(),
        forall|x: Seq<char>| #[trigger] distinct(list).contains(x) <==> list.contains(x),
    decreases list.len(),
{
    if list.len() > 0 {
        let rest = list.drop_last();
        let last = list.last();
        distinct_has(rest);
        let seen = distinct(rest);
        assert forall|x: Seq<char>| #[trigger] distinct(list).contains(x) <==> list.contains(x) by {
            if list.contains(x) {
                let i = choose|i: int| 0 <= i < list.len() && list[i] == x;
                if i < rest.len() {
                    assert(rest[i] == x);
                    assert(seen.contains(x));
                    let k = choose|k: int| 0 <= k < seen.len() && seen[k] == x;
                    assert(distinct(list)[k] == x);
                } else if !seen.contains(last) {
                    assert(distinct(list)[seen.len() as int] == x);
                }
            }
            if distinct(list).contains(x) {
                let k = choose|k: int| 0 <= k < distinct(list).len() && distinct(list)[k] == x;
                if k < seen.len() {
                    assert(seen[k] == x);
                    assert(seen.contains(x));
                    assert(rest.contains(x));
                    let i = choose|i: int| 0 <= i < rest.len() && rest[i] == x;
                    assert(list[i] == x);
                } else {
                    assert(list[list.len() - 1] == x);
                }
            }
        }
    }
}

/// The base branches of a repository are exactly those that it has rows for, each
/// named once.
pub proof fn every_base_branch_is_named_once(store: &Store, repo: &str, r: Vec<String>)
    requires
        call_ensures(Store::base_branches, (store, repo), r),
    ensures
        text::texts(r@).no_duplicates(),
        forall|base: Seq<char>| #[trigger]
            text::texts(r@).contains(base) <==> has_rows(store@, repo@, base),
{
    let q = store@;
    let e = q.entries.filter(|e: EntryRecord| e.repo_path == repo@).map_values(
        |e: EntryRecord| e.base_branch,
    );
    let c = q.candidates.filter(|c: CandidateRecord| c.repo_path == repo@).map_values(
        |c: CandidateRecord| c.base_branch,
    );
    let l = q.leases.filter(|l: LeaseRecord| l.repo_path == repo@).map_values(
        |l: LeaseRecord| l.base_branch,
    );
    distinct_has(e + c + l);
    assert forall|base: Seq<char>| #[trigger]
        text::texts(r@).contains(base) <==> has_rows(q, repo@, base) by {
        picked_has(
            q.entries,
            |e: EntryRecord| e.repo_path == repo@,
            |e: EntryRecord| e.base_branch,
            base,
        );
        picked_has(
            q.candidates,
            |c: CandidateRecord| c.repo_path == repo@,
            |c: CandidateRecord| c.base_branch,
            base,
        );
        picked_has(
            q.leases,
            |l: LeaseRecord| l.repo_path == repo@,
            |l: LeaseRecord| l.base_branch,
            base,
        );
        joined_has(e, c, l, base);
    }
}

proof fn joined_has(a: Seq<Seq<char>>, b: Seq<Seq<char>>, c: Seq<Seq<char>>, x: Seq<char>)
    ensures
        (a + b + c).contains(x) <==> a.contains(x) || b.contains(x) || c.contains(x),
{
    let all = a + b + c;
    if a.contains(x) {
        let i = choose|i: int| 0 <= i < a.len() && a[i] == x;
        assert(all[i] == x);
    }
    if b.contains(x) {
        let i = choose|i: int| 0 <= i < b.len() && b[i] == x;
        assert(all[a.len() + i] == x);
    }
    if c.contains(x) {
        let i = choose|i: int| 0 <= i < c.len() && c[i] == x;
        assert(all[a.len() + b.len() + i] == x);
    }
    if all.contains(x) {
        let i = choose|i: int| 0 <= i < all.len() && all[i] == x;
        if i < a.len() {
            assert(a[i] == x);
        } else if i < a.len() + b.len() {
            assert(b[i - a.len()] == x);
        } else {
            assert(c[i - a.len() - b.len()] == x);
        }
    }
}

proof fn picked_has<A>(
    s: Seq<A>,
    pred: spec_fn(A) -> bool,
    name: spec_fn(A) -> Seq<char>,
    x: Seq<char>,
)
    ensures
        s.filter(pred).map_values(name).contains(x) <==> exists|i: int|
            0 <= i < s.len() && pred(#[trigger] s[i]) && name(s[i]) == x,
{
    let f = s.filter(pred);
    let names = f.map_values(name);
    if names.contains(x) {
        let k = choose|k: int| 0 <= k < names.len() && names[k] == x;
        s.lemma_filter_pred(pred, k);
        s.lemma_filter_contains_rev(pred, f[k]);
        let i = choose|i: int| 0 <= i < s.len() && s[i] == f[k];
        assert(pred(s[i]) && name(s[i]) == x);
    }
    if exists|i: int| 0 <= i < s.len() && pred(#[trigger] s[i]) && name(s[i]) == x {
        let i = choose|i: int| 0 <= i < s.len() && pred(#[trigger] s[i]) && name(s[i]) == x;
        s.lemma_filter_contains(pred, i);
        let k = choose|k: int| 0 <= k < f.len() && f[k] == s[i];
        assert(names[k] == x);
    }
}

/// The row names its commit in full.
pub open spec fn names_in_full(e: EntryRecord) -> bool {
    crate::git::is_object_id(spelled_id(e.branch_sha))
}

/// What waits is read from the front as far as is asked for, each entry as its row
/// has it. It is refused exactly where one of those rows does not name its commit in
/// full, and what the first such row says instead is said.
pub proof fn the_line_is_read_from_the_front(
    store: &Store,
    repo: &str,
    base: &str,
    limit: usize,
    r: Result<Vec<Entry>, StoreError>,
)
    requires
        call_ensures(Store::queued_entries, (store, repo, base, limit), r),
    ensures
        ({
            let line = store@.waiting(repo@, base@);
            let n = if line.len() <= limit {
                line.len() as int
            } else {
                limit as int
            };
            &&& r is Ok <==> forall|i: int| 0 <= i < n ==> names_in_full(#[trigger] line[i])
            &&& r matches Ok(entries) ==> entries@.len() == n && forall|i: int|
                0 <= i < n ==> {
                    &&& (#[trigger] entries@[i]).id == line[i].id
                    &&& entries@[i].branch@ == line[i].branch
                    &&& entries@[i].branch_sha@ == spelled_id(line[i].branch_sha)
                    &&& entries@[i].attempts == line[i].attempts
                }
            &&& r matches Err(e) ==> (e matches StoreError::NotAnObjectId { raw } && exists|i: int|
                0 <= i < n && !names_in_full(#[trigger] line[i]) && line[i].branch_sha == raw@
                    && forall|j: int| 0 <= j < i ==> names_in_full(#[trigger] line[j]))
        }),
{
    let line = store@.waiting(repo@, base@);
    let front = store@.front(repo@, base@, limit as nat);
    let n = front.len() as int;
    assert forall|i: int| 0 <= i < n implies #[trigger] front[i] == line[i] by {}
    match r {
        Ok(entries) => {
            assert(entry_views(entries@) == all_seen(front));
            assert(entry_views(entries@).len() == entries@.len());
            assert forall|i: int| 0 <= i < n implies names_in_full(#[trigger] line[i]) by {
                assert(front[i] == line[i]);
            }
            assert forall|i: int| 0 <= i < n implies {
                &&& (#[trigger] entries@[i]).id == line[i].id
                &&& entries@[i].branch@ == line[i].branch
                &&& entries@[i].branch_sha@ == spelled_id(line[i].branch_sha)
                &&& entries@[i].attempts == line[i].attempts
            } by {
                assert(entry_views(entries@)[i] == entries@[i]@);
                assert(front[i] == line[i]);
            }
        },
        Err(e) => {
            if let StoreError::NotAnObjectId { raw } = e {
                let i = choose|i: int|
                    #[trigger] crate::queue::store::misread_at(front, i, raw@);
                assert(front[i] == line[i]);
                assert forall|j: int| 0 <= j < i implies names_in_full(#[trigger] line[j]) by {
                    assert(front.take(i)[j] == line[j]);
                }
                assert(!names_in_full(line[i]));
            }
        },
    }
}

} // verus!
