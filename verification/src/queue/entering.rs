//! How rows come into the tables as they are given, and when they do not.

use vstd::prelude::*;

use crate::queue::ledger::entry_found_is_there;
use crate::queue::ledger::entry_is_found;
use crate::queue::ledger::ids;
use crate::queue::ledger::lease_found_is_there;
use crate::queue::ledger::Ledger;
use crate::queue::ledger::Member;
use crate::queue::model::EntryId;
use crate::queue::rows::in_play;
use crate::queue::rows::lists;
use crate::queue::rows::same_listing;
use crate::queue::state::CandidateState;
use crate::queue::state::EntryState;
use crate::queue::store::entry_views;
use crate::queue::store::Blame;
use crate::queue::store::CandidateRow;
use crate::queue::store::Entry;
use crate::queue::store::EntryRow;
use crate::queue::store::LeaseRow;
use crate::queue::store::RunRow;
use crate::queue::store::Store;
use crate::queue::store::StoreError;
use crate::queue::tenure::is_on;
use crate::time::written;
use crate::time::Timestamp;

verus! {

/// The other tables are as they were.
pub open spec fn only_entries(a: Ledger, b: Ledger) -> bool {
    b.candidates == a.candidates && b.members == a.members && b.runs == a.runs && b.leases
        == a.leases
}

/// An entry comes in as the row that it is, at the end, exactly where its id
/// follows the ids before it and nothing in play is the same commit of the same
/// branch. Otherwise nothing changes.
pub proof fn an_entry_comes_in_as_it_is(store: &mut Store, row: EntryRow, r: Result<(), StoreError>)
    requires
        call_ensures(Store::insert_entry, (store, row), r),
    ensures
        ({
            let a = old(store)@;
            let b = final(store)@;
            let n = a.entries.len() as int;
            let follows = if n == 0 {
                row.id >= 1
            } else {
                row.id > a.entries[n - 1].id
            };
            let doubled = (row.state == EntryState::Queued || row.state == EntryState::Batched)
                && exists|i: int|
                0 <= i < n && in_play(#[trigger] a.entries[i]) && a.entries[i].repo_path
                    == row.repo_path@ && a.entries[i].base_branch == row.base_branch@
                    && a.entries[i].branch == row.branch@ && a.entries[i].branch_sha
                    == row.branch_sha@;
            &&& only_entries(a, b)
            &&& r is Ok <==> follows && !doubled
            &&& r is Ok ==> {
                let e = b.entries[n];
                &&& b.entries.len() == n + 1
                &&& forall|i: int| 0 <= i < n ==> #[trigger] b.entries[i] == a.entries[i]
                &&& e.id == row.id
                &&& e.repo_path == row.repo_path@
                &&& e.base_branch == row.base_branch@
                &&& e.branch == row.branch@
                &&& e.branch_sha == row.branch_sha@
                &&& e.state == row.state
                &&& e.attempts == row.attempts
                &&& e.priority == row.priority
                &&& e.enqueued_at == row.enqueued_at@
                &&& e.updated_at == row.updated_at@
            }
            &&& r is Err ==> b == a
        }),
{
    let a = old(store)@;
    let n = a.entries.len() as int;
    if a.has_live_twin(row@) {
        let i = choose|i: int|
            0 <= i < a.entries.len() && (#[trigger] a.entries[i]).state.live()
                && a.entries[i].same_identity(row@);
        assert(in_play(a.entries[i]));
    }
    if exists|i: int|
        0 <= i < n && in_play(#[trigger] a.entries[i]) && a.entries[i].repo_path == row.repo_path@
            && a.entries[i].base_branch == row.base_branch@ && a.entries[i].branch == row.branch@
            && a.entries[i].branch_sha == row.branch_sha@ {
        let i = choose|i: int|
            0 <= i < n && in_play(#[trigger] a.entries[i]) && a.entries[i].repo_path
                == row.repo_path@ && a.entries[i].base_branch == row.base_branch@
                && a.entries[i].branch == row.branch@ && a.entries[i].branch_sha == row.branch_sha@;
        assert(a.entries[i].state.live() && a.entries[i].same_identity(row@));
        assert(a.has_live_twin(row@));
    }
}

/// A candidate comes in as the row that it is, at the end, exactly where its id
/// follows the ids before it and it has a commit if it is gated or landed.
pub proof fn a_candidate_comes_in_as_it_is(
    store: &mut Store,
    row: CandidateRow,
    r: Result<(), StoreError>,
)
    requires
        call_ensures(Store::insert_candidate, (store, row), r),
    ensures
        ({
            let a = old(store)@;
            let b = final(store)@;
            let n = a.candidates.len() as int;
            let follows = if n == 0 {
                row.id >= 1
            } else {
                row.id > a.candidates[n - 1].id
            };
            let named = row.candidate_sha is Some || !(row.state == CandidateState::Testing
                || row.state == CandidateState::Passed);
            &&& b.entries == a.entries
            &&& b.members == a.members
            &&& b.runs == a.runs
            &&& b.leases == a.leases
            &&& r is Ok <==> follows && named
            &&& r is Ok ==> b.candidates == a.candidates.push(row@)
            &&& r is Err ==> b == a
        }),
{
}

/// A place comes in at the end exactly where its candidate and its entry are there
/// and the entry has no place in that candidate yet.
pub proof fn a_place_comes_in_once(store: &mut Store, member: Member, r: Result<(), StoreError>)
    requires
        call_ensures(Store::insert_member, (store, member), r),
    ensures
        ({
            let a = old(store)@;
            let b = final(store)@;
            &&& b.entries == a.entries
            &&& b.candidates == a.candidates
            &&& b.runs == a.runs
            &&& b.leases == a.leases
            &&& r is Ok <==> {
                &&& exists|k: int|
                    0 <= k < a.candidates.len() && (#[trigger] a.candidates[k]).id
                        == member.candidate_id
                &&& exists|k: int|
                    0 <= k < a.entries.len() && (#[trigger] a.entries[k]).id == member.entry_id
                &&& !lists(a.members, member.candidate_id, member.entry_id)
            }
            &&& r is Ok ==> b.members == a.members.push(member)
            &&& r is Err ==> b == a
        }),
{
    same_listing(old(store)@.members, member.candidate_id, member.entry_id);
}

/// A run comes in as the row that it is, at the end, exactly where its id follows
/// the ids before it and its candidate is there.
pub proof fn a_run_comes_in_as_it_is(store: &mut Store, row: RunRow, r: Result<(), StoreError>)
    requires
        call_ensures(Store::insert_run, (store, row), r),
    ensures
        ({
            let a = old(store)@;
            let b = final(store)@;
            let n = a.runs.len() as int;
            let follows = if n == 0 {
                row.id >= 1
            } else {
                row.id > a.runs[n - 1].id
            };
            &&& b.entries == a.entries
            &&& b.candidates == a.candidates
            &&& b.members == a.members
            &&& b.leases == a.leases
            &&& r is Ok <==> follows && exists|k: int|
                0 <= k < a.candidates.len() && (#[trigger] a.candidates[k]).id == row.candidate_id
            &&& r is Ok ==> b.runs == a.runs.push(row@)
            &&& r is Err ==> b == a
        }),
{
}

/// A lease comes in at the end exactly where its base branch has none.
pub proof fn a_lease_comes_in_once(store: &mut Store, row: LeaseRow, r: Result<(), StoreError>)
    requires
        call_ensures(Store::insert_lease, (store, row), r),
    ensures
        ({
            let a = old(store)@;
            let b = final(store)@;
            &&& b.entries == a.entries
            &&& b.candidates == a.candidates
            &&& b.members == a.members
            &&& b.runs == a.runs
            &&& r is Err <==> exists|k: int|
                0 <= k < a.leases.len() && is_on(
                    #[trigger] a.leases[k],
                    row.repo_path@,
                    row.base_branch@,
                )
            &&& r is Ok ==> b.leases == a.leases.push(row@)
            &&& r is Err ==> b == a
        }),
{
    let a = old(store)@;
    lease_found_is_there(a.leases, row.repo_path@, row.base_branch@);
    if exists|k: int|
        0 <= k < a.leases.len() && is_on(#[trigger] a.leases[k], row.repo_path@, row.base_branch@) {
        let k = choose|k: int|
            0 <= k < a.leases.len() && is_on(
                #[trigger] a.leases[k],
                row.repo_path@,
                row.base_branch@,
            );
        assert(a.leases[k].covers(row.repo_path@, row.base_branch@));
    }
    if a.lease(row.repo_path@, row.base_branch@) is Some {
        let k = choose|k: int|
            0 <= k < a.leases.len() && (#[trigger] a.leases[k]).covers(
                row.repo_path@,
                row.base_branch@,
            );
        assert(is_on(a.leases[k], row.repo_path@, row.base_branch@));
    }
}

/// The id that comes next is one after the last, and the first is one.
pub proof fn ids_go_on_from_the_last(
    store: &Store,
    entry: Option<EntryId>,
    candidate: Option<i64>,
    run: Option<i64>,
)
    requires
        call_ensures(Store::next_entry_id, (store,), entry),
        call_ensures(Store::next_candidate_id, (store,), candidate),
        call_ensures(Store::next_run_id, (store,), run),
    ensures
        ({
            let q = store@;
            let last_entry: int = if q.entries.len() == 0 {
                0
            } else {
                q.entries.last().id as int
            };
            let last_candidate: int = if q.candidates.len() == 0 {
                0
            } else {
                q.candidates.last().id as int
            };
            let last_run: int = if q.runs.len() == 0 {
                0
            } else {
                q.runs.last().id as int
            };
            &&& entry is Some <==> last_entry < i64::MAX
            &&& entry matches Some(id) ==> id == last_entry + 1
            &&& candidate is Some <==> last_candidate < i64::MAX
            &&& candidate matches Some(id) ==> id == last_candidate + 1
            &&& run is Some <==> last_run < i64::MAX
            &&& run matches Some(id) ==> id == last_run + 1
        }),
{
}

/// The id is listed at two places.
pub open spec fn listed_twice(entries: Seq<Entry>) -> bool {
    exists|i: int, j: int|
        0 <= i < j < entries.len() && (#[trigger] entries[i]).id == (#[trigger] entries[j]).id
}

/// No entry has the id.
pub open spec fn is_strange(q: Ledger, id: EntryId) -> bool {
    forall|k: int| 0 <= k < q.entries.len() ==> (#[trigger] q.entries[k]).id != id
}

/// An id is listed that no entry has.
pub open spec fn lists_a_stranger(q: Ledger, entries: Seq<Entry>) -> bool {
    exists|i: int| 0 <= i < entries.len() && is_strange(q, (#[trigger] entries[i]).id)
}

/// A candidate over entries that all wait is opened, unless it has none, lists one
/// twice or lists one that is not there; and where it is refused nothing changes.
pub proof fn a_candidate_over_waiting_entries_is_opened(
    store: &mut Store,
    repo: &str,
    base: &str,
    base_sha: &crate::git::Sha,
    entries: &Vec<Entry>,
    parent: Option<i64>,
    now: &Timestamp,
    r: Result<i64, StoreError>,
)
    requires
        store@.wf(),
        call_ensures(
            Store::open_candidate,
            (store, repo, base, base_sha, entries, parent, now),
            r,
        ),
        store@.candidates.len() > 0 ==> store@.candidates.last().id < i64::MAX,
        entries@.len() <= i64::MAX,
        forall|i: int, k: int|
            0 <= i < entries@.len() && 0 <= k < store@.entries.len() && (
            #[trigger] entries@[i]).id == (#[trigger] store@.entries[k]).id
                ==> store@.entries[k].state == EntryState::Queued,
    ensures
        r is Ok <==> entries@.len() > 0 && !listed_twice(entries@) && !lists_a_stranger(
            old(store)@,
            entries@,
        ),
        r is Err ==> final(store)@ == old(store)@,
        r is Err && entries@.len() == 0 ==> r->Err_0 is NoEntries,
{
    let a = old(store)@;
    let views = entry_views(entries@);
    let list = ids(views);
    let after = a.opened(repo@, base@, base_sha@, list, parent, written(now@));
    assert(list.len() == entries@.len());
    assert forall|i: int| 0 <= i < list.len() implies #[trigger] list[i] == entries@[i].id by {
        assert(views[i] == entries@[i]@);
    }
    let good = !listed_twice(entries@) && !lists_a_stranger(a, entries@);
    if good {
        assert forall|i: int, j: int| 0 <= i < list.len() && 0 <= j < list.len() && i != j implies
            list[i] != list[j] by {
            if i < j {
                assert(entries@[i].id != entries@[j].id);
            } else {
                assert(entries@[j].id != entries@[i].id);
            }
        }
        assert forall|i: int| 0 <= i < list.len() implies crate::queue::ledger::has_entry(
            a.entries,
            #[trigger] list[i],
        ) by {
            if !crate::queue::ledger::has_entry(a.entries, list[i]) {
                assert(is_strange(a, entries@[i].id));
                assert(lists_a_stranger(a, entries@));
            }
        }
        assert(crate::queue::store::listable(a, list));
        // What waits stays in play, so nothing comes to be doubled.
        assert forall|i: int| 0 <= i < a.entries.len() && (
        #[trigger] after.entries[i]).state.live() implies a.entries[i].state.live() by {
            if list.contains(a.entries[i].id) {
                let k = choose|k: int| 0 <= k < list.len() && list[k] == a.entries[i].id;
                assert(entries@[k].id == a.entries[i].id);
            }
        }
        assert forall|i: int, j: int|
            0 <= i < after.entries.len() && 0 <= j < after.entries.len() && i != j
                && #[trigger] after.entries[i].state.live()
                && #[trigger] after.entries[j].state.live() implies !after.entries[i].same_identity(
            after.entries[j],
        ) by {
            assert(a.entries[i].state.live() && a.entries[j].state.live());
        }
        assert(crate::queue::ledger::live_apart(after.entries));
        match r {
            Err(StoreError::AlreadyLive { branch }) => {
                let (i, j) = choose|i: int, j: int|
                    0 <= i < j < after.entries.len() && (#[trigger] after.entries[i]).state.live()
                        && (#[trigger] after.entries[j]).state.live()
                        && after.entries[i].same_identity(after.entries[j])
                        && after.entries[i].branch == branch@;
                assert(!after.entries[i].same_identity(after.entries[j]));
            },
            Err(StoreError::RepeatedEntry { id }) => {
                let i = choose|i: int|
                    #[trigger] crate::queue::store::reads_to(a, list, i, id) && list.take(i).contains(
                        id,
                    );
                let k = choose|k: int| 0 <= k < i && list.take(i)[k] == id;
                assert(entries@[k].id == entries@[i].id);
            },
            Err(StoreError::UnknownEntry { id }) => {
                let i = choose|i: int| #[trigger] crate::queue::store::reads_to(a, list, i, id);
                assert(crate::queue::ledger::has_entry(a.entries, list[i]));
            },
            _ => {},
        }
    }
    if r is Ok {
        if listed_twice(entries@) {
            let (i, j) = choose|i: int, j: int|
                0 <= i < j < entries@.len() && (#[trigger] entries@[i]).id == (
                #[trigger] entries@[j]).id;
            assert(list[i] == list[j]);
        }
        if lists_a_stranger(a, entries@) {
            let i = choose|i: int|
                0 <= i < entries@.len() && is_strange(a, (#[trigger] entries@[i]).id);
            assert(list[i] == entries@[i].id);
            assert(crate::queue::ledger::has_entry(a.entries, list[i]));
            let k = choose|k: int| 0 <= k < a.entries.len() && #[trigger] a.entries[k].id == list[i];
            assert(a.entries[k].id != entries@[i].id);
        }
    }
}

/// An entry in play that is there, and that can be charged once more, is blamed
/// when it is; one that is not there is refused, and nothing changes.
pub proof fn an_entry_in_play_can_be_blamed(
    store: &mut Store,
    candidate: i64,
    culprit: EntryId,
    max_attempts: u32,
    reason: &str,
    now: &Timestamp,
    i: int,
    r: Result<Blame, StoreError>,
)
    requires
        store@.wf(),
        call_ensures(
            Store::blame,
            (store, candidate, culprit, max_attempts, reason, now),
            r,
        ),
    ensures
        ({
            let a = old(store)@;
            &&& 0 <= i < a.entries.len() && a.entries[i].id == culprit && in_play(a.entries[i])
                ==> (r is Ok <==> a.entries[i].attempts < u32::MAX)
            &&& (forall|k: int|
                0 <= k < a.entries.len() ==> (#[trigger] a.entries[k]).id != culprit) ==> (
            r matches Err(StoreError::UnknownEntry { id }) && id == culprit)
            &&& r is Err ==> final(store)@ == a
        }),
{
    let a = old(store)@;
    entry_found_is_there(a.entries, culprit);
    if 0 <= i < a.entries.len() && a.entries[i].id == culprit {
        entry_is_found(a.entries, i);
    }
}

} // verus!
