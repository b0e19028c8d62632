//! What each step of the store does, row by row and field by field.

use vstd::prelude::*;

use crate::git::spelled_id;
use crate::git::Sha;
use crate::queue::ledger::entry_found_is_there;
use crate::queue::ledger::entry_is_found;
use crate::queue::ledger::CandidateRecord;
use crate::queue::ledger::EntryRecord;
use crate::queue::ledger::EntryView;
use crate::queue::ledger::Ledger;
use crate::queue::ledger::Member;
use crate::queue::ledger::Section;
use crate::queue::model::EntryId;
use crate::queue::outcome::Outcome;
use crate::queue::state::CandidateState;
use crate::queue::state::EntryState;
use crate::queue::store::abandon_gives;
use crate::queue::store::blame_gives;
use crate::queue::store::entry_views;
use crate::queue::store::land_gives;
use crate::queue::store::mark_testing_gives;
use crate::queue::store::open_gives;
use crate::queue::store::record_run_gives;
use crate::queue::store::Blame;
use crate::queue::store::Entry;
use crate::queue::store::Store;
use crate::queue::store::StoreError;
use crate::seqs;
use crate::time::written;
use crate::time::Timestamp;

verus! {

/// An entry is still in play: it waits, or a candidate has it.
pub open spec fn in_play(e: EntryRecord) -> bool {
    e.state == EntryState::Queued || e.state == EntryState::Batched
}

/// The entry is of a queue.
pub open spec fn of_queue(e: EntryRecord, repo: Seq<char>, base: Seq<char>) -> bool {
    e.repo_path == repo && e.base_branch == base
}

/// The candidate has the entry.
pub open spec fn lists(members: Seq<Member>, candidate: i64, entry: EntryId) -> bool {
    exists|k: int|
        0 <= k < members.len() && (#[trigger] members[k]).candidate_id == candidate
            && members[k].entry_id == entry
}

/// An entry whose state and time of change are all that may differ.
pub open spec fn only_moved(a: EntryRecord, b: EntryRecord) -> bool {
    &&& a.id == b.id
    &&& a.repo_path == b.repo_path
    &&& a.base_branch == b.base_branch
    &&& a.branch == b.branch
    &&& a.branch_sha == b.branch_sha
    &&& a.attempts == b.attempts
    &&& a.priority == b.priority
    &&& a.evict_reason == b.evict_reason
    &&& a.enqueued_at == b.enqueued_at
}

/// A candidate whose state, commit and time of change are all that may differ.
pub open spec fn same_candidate(a: CandidateRecord, b: CandidateRecord) -> bool {
    &&& a.id == b.id
    &&& a.repo_path == b.repo_path
    &&& a.base_branch == b.base_branch
    &&& a.base_sha == b.base_sha
    &&& a.parent_id == b.parent_id
    &&& a.created_at == b.created_at
}

/// A branch that is queued is one new row, in no other's place: it waits, has no
/// attempt behind it and no priority over others. It is refused exactly where the
/// same commit of the same branch for the same base is in play already, and then
/// nothing changes.
pub proof fn queueing_adds_one_row(
    store: &mut Store,
    repo: &str,
    base: &str,
    branch: &str,
    sha: &Sha,
    now: &Timestamp,
    r: Result<EntryId, StoreError>,
)
    requires
        call_ensures(Store::enqueue, (store, repo, base, branch, sha, now), r),
        store@.entries.len() > 0 ==> store@.entries.last().id < i64::MAX,
    ensures
        ({
            let a = old(store)@;
            let b = final(store)@;
            let n = a.entries.len() as int;
            &&& b.candidates == a.candidates
            &&& b.members == a.members
            &&& b.runs == a.runs
            &&& b.leases == a.leases
            &&& forall|i: int| 0 <= i < n ==> #[trigger] b.entries[i] == a.entries[i]
            &&& match r {
                Ok(id) => {
                    let e = b.entries[n];
                    &&& b.entries.len() == n + 1
                    &&& e.id == id
                    &&& id == (if n == 0 {
                        1
                    } else {
                        a.entries[n - 1].id + 1
                    })
                    &&& e.repo_path == repo@
                    &&& e.base_branch == base@
                    &&& e.branch == branch@
                    &&& e.branch_sha == sha@
                    &&& e.state == EntryState::Queued
                    &&& e.attempts == 0
                    &&& e.priority == 0
                    &&& e.evict_reason is None
                    &&& e.enqueued_at == written(now@)
                    &&& e.updated_at == written(now@)
                },
                Err(e) => b.entries.len() == n && e is AlreadyLive,
            }
            &&& r is Err <==> exists|i: int|
                0 <= i < n && in_play(#[trigger] a.entries[i]) && of_queue(
                    a.entries[i],
                    repo@,
                    base@,
                ) && a.entries[i].branch == branch@ && a.entries[i].branch_sha == sha@
        }),
{
    let a = old(store)@;
    let entry = a.queued_entry(repo@, base@, branch@, sha@, written(now@));
    if r is Err {
        let i = choose|i: int|
            0 <= i < a.entries.len() && (#[trigger] a.entries[i]).state.live()
                && a.entries[i].same_identity(entry);
        assert(in_play(a.entries[i]));
    } else if exists|i: int|
        0 <= i < a.entries.len() && in_play(#[trigger] a.entries[i]) && of_queue(
            a.entries[i],
            repo@,
            base@,
        ) && a.entries[i].branch == branch@ && a.entries[i].branch_sha == sha@ {
        let i = choose|i: int|
            0 <= i < a.entries.len() && in_play(#[trigger] a.entries[i]) && of_queue(
                a.entries[i],
                repo@,
                base@,
            ) && a.entries[i].branch == branch@ && a.entries[i].branch_sha == sha@;
        assert(a.entries[i].state.live() && a.entries[i].same_identity(entry));
        assert(a.has_live_twin(entry));
        assert(false);
    }
}

/// A candidate is opened over entries, in the order in which they are given.
pub open spec fn opened_as_given(
    a: Ledger,
    b: Ledger,
    repo: Seq<char>,
    base: Seq<char>,
    base_sha: Seq<char>,
    entries: Seq<EntryView>,
    parent: Option<i64>,
    at: Seq<char>,
    id: i64,
) -> bool {
    let n = a.candidates.len() as int;
    let m = a.members.len() as int;
    let c = b.candidates[n];
    &&& entries.len() > 0
    &&& b.runs == a.runs
    &&& b.leases == a.leases
    &&& b.candidates.len() == n + 1
    &&& forall|k: int| 0 <= k < n ==> #[trigger] b.candidates[k] == a.candidates[k]
    &&& c.id == id
    &&& id == (if n == 0 {
        1
    } else {
        a.candidates[n - 1].id + 1
    })
    &&& c.repo_path == repo
    &&& c.base_branch == base
    &&& c.base_sha == base_sha
    &&& c.candidate_sha is None
    &&& c.state == CandidateState::Building
    &&& c.parent_id == parent
    &&& c.created_at == at
    &&& c.updated_at == at
    &&& b.members.len() == m + entries.len()
    &&& forall|k: int| 0 <= k < m ==> #[trigger] b.members[k] == a.members[k]
    &&& forall|k: int|
        0 <= k < entries.len() ==> {
            let x = #[trigger] b.members[m + k];
            &&& x.candidate_id == id
            &&& x.entry_id == entries[k].id
            &&& x.position == k
            &&& x.outcome == Outcome::Pending
        }
    &&& b.entries.len() == a.entries.len()
    &&& forall|i: int|
        0 <= i < a.entries.len() ==> if exists|k: int|
            0 <= k < entries.len() && (#[trigger] entries[k]).id == a.entries[i].id {
            &&& only_moved(a.entries[i], #[trigger] b.entries[i])
            &&& b.entries[i].state == EntryState::Batched
            &&& b.entries[i].updated_at == at
        } else {
            b.entries[i] == a.entries[i]
        }
}

/// So it is of any rows that the step leads from and to.
pub proof fn opened_as_given_rows(
    a: Ledger,
    b: Ledger,
    repo: Seq<char>,
    base: Seq<char>,
    base_sha: Seq<char>,
    entries: Seq<EntryView>,
    parent: Option<i64>,
    at: Seq<char>,
    id: i64,
)
    requires
        entries.len() <= i64::MAX,
        open_gives(a, repo, base, base_sha, entries, parent, at, Ok(id), b),
    ensures
        opened_as_given(a, b, repo, base, base_sha, entries, parent, at, id),
{
    let m = a.members.len() as int;
    let list = crate::queue::ledger::ids(entries);
    assert forall|k: int| 0 <= k < entries.len() implies {
        let x = #[trigger] b.members[m + k];
        &&& x.candidate_id == id
        &&& x.entry_id == entries[k].id
        &&& x.position == k
        &&& x.outcome == Outcome::Pending
    } by {
        assert(list[k] == entries[k].id);
    }
    assert forall|i: int| 0 <= i < a.entries.len() implies if exists|k: int|
        0 <= k < entries.len() && (#[trigger] entries[k]).id == a.entries[i].id {
        &&& only_moved(a.entries[i], #[trigger] b.entries[i])
        &&& b.entries[i].state == EntryState::Batched
        &&& b.entries[i].updated_at == at
    } else {
        b.entries[i] == a.entries[i]
    } by {
        if exists|k: int|
            0 <= k < entries.len() && (#[trigger] entries[k]).id == a.entries[i].id {
            let k = choose|k: int|
                0 <= k < entries.len() && (#[trigger] entries[k]).id == a.entries[i].id;
            assert(list[k] == a.entries[i].id);
            assert(list.contains(a.entries[i].id));
        } else if list.contains(a.entries[i].id) {
            let k = choose|k: int| 0 <= k < list.len() && list[k] == a.entries[i].id;
            assert(entries[k].id == a.entries[i].id);
        }
    }
}

/// A candidate that is opened is one new row, of this queue and on this base, not
/// yet built and without a commit. It has the entries it was opened over, each in
/// its place and none judged yet, and those are out of line with nothing else
/// changed about them. No other row changes.
pub proof fn opening_takes_what_it_is_given(
    store: &mut Store,
    repo: &str,
    base: &str,
    base_sha: &Sha,
    entries: &Vec<Entry>,
    parent: Option<i64>,
    now: &Timestamp,
    id: i64,
)
    requires
        call_ensures(
            Store::open_candidate,
            (store, repo, base, base_sha, entries, parent, now),
            Ok::<i64, StoreError>(id),
        ),
        entries@.len() <= i64::MAX,
    ensures
        opened_as_given(
            old(store)@,
            final(store)@,
            repo@,
            base@,
            base_sha@,
            entry_views(entries@),
            parent,
            written(now@),
            id,
        ),
{
    opened_as_given_rows(
        old(store)@,
        final(store)@,
        repo@,
        base@,
        base_sha@,
        entry_views(entries@),
        parent,
        written(now@),
        id,
    );
}

/// A candidate's commit is gated.
pub open spec fn gated_as_named(
    a: Ledger,
    b: Ledger,
    candidate: i64,
    sha: Seq<char>,
    at: Seq<char>,
    r: Result<(), StoreError>,
) -> bool {
    &&& b.entries == a.entries
    &&& b.members == a.members
    &&& b.runs == a.runs
    &&& b.leases == a.leases
    &&& b.candidates.len() == a.candidates.len()
    &&& forall|k: int|
        0 <= k < a.candidates.len() ==> if a.candidates[k].id == candidate {
            &&& same_candidate(a.candidates[k], #[trigger] b.candidates[k])
            &&& b.candidates[k].state == CandidateState::Testing
            &&& b.candidates[k].candidate_sha == Some(sha)
            &&& b.candidates[k].updated_at == at
        } else {
            b.candidates[k] == a.candidates[k]
        }
    &&& r is Ok <==> exists|k: int|
        0 <= k < a.candidates.len() && (#[trigger] a.candidates[k]).id == candidate
    &&& r matches Err(e) ==> e matches StoreError::NothingToMove { id, state } && id
        == candidate && state == CandidateState::Testing
}

/// So it is of any rows that the step leads from and to.
pub proof fn gated_as_named_rows(
    a: Ledger,
    b: Ledger,
    candidate: i64,
    sha: Seq<char>,
    at: Seq<char>,
    r: Result<(), StoreError>,
)
    requires
        mark_testing_gives(a, candidate, sha, at, r, b),
    ensures
        gated_as_named(a, b, candidate, sha, at, r),
{
}

/// A candidate whose commit is gated has that commit, and no other candidate and
/// nothing else changes. A candidate that is not there cannot be gated.
pub proof fn testing_names_the_commit(
    store: &mut Store,
    candidate: i64,
    sha: &Sha,
    now: &Timestamp,
    r: Result<(), StoreError>,
)
    requires
        call_ensures(Store::mark_testing, (store, candidate, sha, now), r),
    ensures
        gated_as_named(old(store)@, final(store)@, candidate, sha@, written(now@), r),
{
    gated_as_named_rows(old(store)@, final(store)@, candidate, sha@, written(now@), r);
}

/// A candidate that is moved is in the state it was moved to, and keeps its commit
/// unless it is given one. Nothing else changes.
pub proof fn moving_a_candidate_moves_that_one(
    store: &mut Store,
    candidate: i64,
    state: CandidateState,
    sha: Option<&Sha>,
    now: &Timestamp,
    r: Result<(), StoreError>,
)
    requires
        call_ensures(Store::set_candidate, (store, candidate, state, sha, now), r),
    ensures
        ({
            let a = old(store)@;
            let b = final(store)@;
            &&& b.entries == a.entries
            &&& b.members == a.members
            &&& b.runs == a.runs
            &&& b.leases == a.leases
            &&& b.candidates.len() == a.candidates.len()
            &&& r is Ok ==> exists|k: int|
                0 <= k < a.candidates.len() && (#[trigger] a.candidates[k]).id == candidate
            &&& r is Ok ==> forall|k: int|
                0 <= k < a.candidates.len() ==> if a.candidates[k].id == candidate {
                    &&& same_candidate(a.candidates[k], #[trigger] b.candidates[k])
                    &&& b.candidates[k].state == state
                    &&& b.candidates[k].candidate_sha == (match sha {
                        Some(sha) => Some(sha@),
                        None => a.candidates[k].candidate_sha,
                    })
                    &&& b.candidates[k].updated_at == written(now@)
                } else {
                    b.candidates[k] == a.candidates[k]
                }
            &&& r is Err ==> b.candidates == a.candidates
            &&& r matches Err(e) ==> if exists|k: int|
                0 <= k < a.candidates.len() && (#[trigger] a.candidates[k]).id == candidate {
                &&& e matches StoreError::NoCommit { id } && id == candidate
                &&& sha is None
                &&& state == CandidateState::Testing || state == CandidateState::Passed
                &&& exists|k: int|
                    0 <= k < a.candidates.len() && (#[trigger] a.candidates[k]).id == candidate
                        && a.candidates[k].candidate_sha is None
            } else {
                e matches StoreError::NothingToMove { id, state: given } && id == candidate && given
                    == state
            }
        }),
{
}

/// A gate run is recorded.
pub open spec fn recorded_as_it_was(
    a: Ledger,
    b: Ledger,
    candidate: i64,
    command: Seq<char>,
    exit_code: Option<i32>,
    log_path: Seq<char>,
    at: Seq<char>,
    r: Result<(), StoreError>,
) -> bool {
    let n = a.runs.len() as int;
    &&& b.entries == a.entries
    &&& b.candidates == a.candidates
    &&& b.members == a.members
    &&& b.leases == a.leases
    &&& forall|i: int| 0 <= i < n ==> #[trigger] b.runs[i] == a.runs[i]
    &&& r is Ok <==> exists|k: int|
        0 <= k < a.candidates.len() && (#[trigger] a.candidates[k]).id == candidate
    &&& r is Err ==> b.runs.len() == n
    &&& r is Ok ==> {
        let x = b.runs[n];
        &&& b.runs.len() == n + 1
        &&& x.id == (if n == 0 {
            1
        } else {
            a.runs[n - 1].id + 1
        })
        &&& x.candidate_id == candidate
        &&& x.command == command
        &&& x.exit_code == exit_code
        &&& x.log_path == Some(log_path)
        &&& x.tail is None
        &&& x.started_at == at
        &&& x.finished_at == Some(at)
    }
}

/// So it is of any rows that the step leads from and to.
pub proof fn recorded_as_it_was_rows(
    a: Ledger,
    b: Ledger,
    candidate: i64,
    command: Seq<char>,
    exit_code: Option<i32>,
    log_path: Seq<char>,
    at: Seq<char>,
    r: Result<(), StoreError>,
)
    requires
        a.runs.len() > 0 ==> a.runs.last().id < i64::MAX,
        record_run_gives(a, candidate, command, exit_code, log_path, at, r, b),
    ensures
        recorded_as_it_was(a, b, candidate, command, exit_code, log_path, at, r),
{
}

/// A gate run that is recorded is one new row with all that was said of it, and
/// nothing else changes.
pub proof fn a_run_is_recorded_as_it_was(
    store: &mut Store,
    candidate: i64,
    command: &str,
    exit_code: Option<i32>,
    log_path: &str,
    now: &Timestamp,
    r: Result<(), StoreError>,
)
    requires
        call_ensures(
            Store::record_run,
            (store, candidate, command, exit_code, log_path, now),
            r,
        ),
        store@.runs.len() > 0 ==> store@.runs.last().id < i64::MAX,
    ensures
        recorded_as_it_was(
            old(store)@,
            final(store)@,
            candidate,
            command@,
            exit_code,
            log_path@,
            written(now@),
            r,
        ),
{
    recorded_as_it_was_rows(
        old(store)@,
        final(store)@,
        candidate,
        command@,
        exit_code,
        log_path@,
        written(now@),
        r,
    );
}

/// A candidate lands, or does not.
pub open spec fn landed_whole(
    a: Ledger,
    b: Ledger,
    candidate: i64,
    at: Seq<char>,
    r: Result<usize, StoreError>,
) -> bool {
    &&& b.runs == a.runs
    &&& b.leases == a.leases
    &&& r is Err <==> exists|k: int|
        0 <= k < a.candidates.len() && (#[trigger] a.candidates[k]).id == candidate
            && a.candidates[k].candidate_sha is None
    &&& r is Err ==> b == a && r->Err_0 is NoCommit
    &&& r matches Ok(landed) ==> {
        &&& landed == a.members.filter(|m: Member| m.candidate_id == candidate).len()
        &&& b.entries.len() == a.entries.len()
        &&& b.members.len() == a.members.len()
        &&& b.candidates.len() == a.candidates.len()
        &&& forall|i: int|
            0 <= i < a.entries.len() ==> if lists(a.members, candidate, a.entries[i].id) {
                &&& only_moved(a.entries[i], #[trigger] b.entries[i])
                &&& b.entries[i].state == EntryState::Merged
                &&& b.entries[i].updated_at == at
            } else {
                b.entries[i] == a.entries[i]
            }
        &&& forall|k: int|
            0 <= k < a.members.len() ==> {
                let x = #[trigger] b.members[k];
                &&& x.candidate_id == a.members[k].candidate_id
                &&& x.entry_id == a.members[k].entry_id
                &&& x.position == a.members[k].position
                &&& x.outcome == (if a.members[k].candidate_id == candidate {
                    Outcome::Passed
                } else {
                    a.members[k].outcome
                })
            }
        &&& forall|k: int|
            0 <= k < a.candidates.len() ==> if a.candidates[k].id == candidate {
                &&& same_candidate(a.candidates[k], #[trigger] b.candidates[k])
                &&& b.candidates[k].candidate_sha == a.candidates[k].candidate_sha
                &&& b.candidates[k].state == CandidateState::Passed
                &&& b.candidates[k].updated_at == at
            } else {
                b.candidates[k] == a.candidates[k]
            }
    }
}

/// So it is of any rows that the step leads from and to.
pub proof fn landed_whole_rows(
    a: Ledger,
    b: Ledger,
    candidate: i64,
    at: Seq<char>,
    r: Result<usize, StoreError>,
)
    requires
        land_gives(a, candidate, at, r, b),
    ensures
        landed_whole(a, b, candidate, at, r),
{
    assert forall|i: int| 0 <= i < a.entries.len() implies lists(
        a.members,
        candidate,
        #[trigger] a.entries[i].id,
    ) == a.member(candidate, a.entries[i].id) by {
        same_listing(a.members, candidate, a.entries[i].id);
    }
    if r is Ok {
        assert forall|i: int| 0 <= i < a.entries.len() implies if lists(
            a.members,
            candidate,
            a.entries[i].id,
        ) {
            &&& only_moved(a.entries[i], #[trigger] b.entries[i])
            &&& b.entries[i].state == EntryState::Merged
            &&& b.entries[i].updated_at == at
        } else {
            b.entries[i] == a.entries[i]
        } by {
            same_listing(a.members, candidate, a.entries[i].id);
        }
    }
}

/// When a candidate lands, every entry that it has is merged, every place in it
/// is passed and the candidate is; the number given is that of its places. No
/// other row changes. Without a commit it does not land, and nothing changes.
pub proof fn landing_merges_the_whole(
    store: &mut Store,
    candidate: i64,
    now: &Timestamp,
    r: Result<usize, StoreError>,
)
    requires
        call_ensures(Store::land, (store, candidate, now), r),
    ensures
        landed_whole(old(store)@, final(store)@, candidate, written(now@), r),
{
    landed_whole_rows(old(store)@, final(store)@, candidate, written(now@), r);
}

/// Two ways to say that a candidate has an entry.
pub proof fn same_listing(members: Seq<Member>, candidate: i64, entry: EntryId)
    ensures
        lists(members, candidate, entry) == crate::queue::ledger::is_member(
            members,
            candidate,
            entry,
        ),
{
    if lists(members, candidate, entry) {
        let k = choose|k: int|
            0 <= k < members.len() && (#[trigger] members[k]).candidate_id == candidate
                && members[k].entry_id == entry;
        assert(members[k].candidate_id == candidate);
    }
    if crate::queue::ledger::is_member(members, candidate, entry) {
        let k = choose|k: int|
            0 <= k < members.len() && #[trigger] members[k].candidate_id == candidate
                && members[k].entry_id == entry;
        assert(members[k].candidate_id == candidate);
    }
}

/// A candidate is pinned on one of its entries.
pub open spec fn charged_alone(
    a: Ledger,
    b: Ledger,
    candidate: i64,
    culprit: EntryId,
    max_attempts: u32,
    reason: Seq<char>,
    at: Seq<char>,
    blame: Blame,
) -> bool {
    &&& b.runs == a.runs
    &&& b.leases == a.leases
    &&& b.entries.len() == a.entries.len()
    &&& b.members.len() == a.members.len()
    &&& b.candidates.len() == a.candidates.len()
    &&& exists|i: int| 0 <= i < a.entries.len() && (#[trigger] a.entries[i]).id == culprit
    &&& forall|i: int|
        0 <= i < a.entries.len() ==> {
            let x = a.entries[i];
            let y = #[trigger] b.entries[i];
            if x.id == culprit {
                &&& only_moved(
                    EntryRecord { attempts: y.attempts, evict_reason: y.evict_reason, ..x },
                    y,
                )
                &&& y.attempts == x.attempts + 1
                &&& y.updated_at == at
                &&& (blame == Blame::Evicted <==> y.attempts >= max_attempts)
                &&& blame == Blame::Evicted ==> y.state == EntryState::Evicted
                    && y.evict_reason == Some(reason)
                &&& blame == Blame::Requeued ==> y.state == EntryState::Queued
                    && y.evict_reason == x.evict_reason
            } else if x.state == EntryState::Batched && lists(a.members, candidate, x.id) {
                &&& only_moved(x, y)
                &&& y.state == EntryState::Queued
                &&& y.updated_at == at
            } else {
                y == x
            }
        }
    &&& forall|k: int|
        0 <= k < a.members.len() ==> {
            let x = #[trigger] b.members[k];
            &&& x.candidate_id == a.members[k].candidate_id
            &&& x.entry_id == a.members[k].entry_id
            &&& x.position == a.members[k].position
            &&& x.outcome == (if a.members[k].candidate_id != candidate {
                a.members[k].outcome
            } else if a.members[k].entry_id == culprit {
                Outcome::Culprit
            } else {
                Outcome::Skipped
            })
        }
    &&& forall|k: int|
        0 <= k < a.candidates.len() ==> if a.candidates[k].id == candidate {
            &&& same_candidate(a.candidates[k], #[trigger] b.candidates[k])
            &&& b.candidates[k].candidate_sha == a.candidates[k].candidate_sha
            &&& b.candidates[k].state == CandidateState::Failed
            &&& b.candidates[k].updated_at == at
        } else {
            b.candidates[k] == a.candidates[k]
        }
}

/// So it is of any rows that the step leads from and to.
pub proof fn charged_alone_rows(
    a: Ledger,
    b: Ledger,
    candidate: i64,
    culprit: EntryId,
    max_attempts: u32,
    reason: Seq<char>,
    at: Seq<char>,
    blame: Blame,
)
    requires
        a.wf(),
        blame_gives(a, candidate, culprit, max_attempts, reason, at, Ok(blame), b),
    ensures
        charged_alone(a, b, candidate, culprit, max_attempts, reason, at, blame),
{
    entry_found_is_there(a.entries, culprit);
    assert forall|i: int| 0 <= i < a.entries.len() implies {
        let x = a.entries[i];
        let y = #[trigger] b.entries[i];
        if x.id == culprit {
            &&& only_moved(
                EntryRecord { attempts: y.attempts, evict_reason: y.evict_reason, ..x },
                y,
            )
            &&& y.attempts == x.attempts + 1
            &&& y.updated_at == at
            &&& (blame == Blame::Evicted <==> y.attempts >= max_attempts)
            &&& blame == Blame::Evicted ==> y.state == EntryState::Evicted && y.evict_reason
                == Some(reason)
            &&& blame == Blame::Requeued ==> y.state == EntryState::Queued && y.evict_reason
                == x.evict_reason
        } else if x.state == EntryState::Batched && lists(a.members, candidate, x.id) {
            &&& only_moved(x, y)
            &&& y.state == EntryState::Queued
            &&& y.updated_at == at
        } else {
            y == x
        }
    } by {
        same_listing(a.members, candidate, a.entries[i].id);
        if a.entries[i].id == culprit {
            entry_is_found(a.entries, i);
        }
    }
}

/// When a candidate is pinned on one of its entries, that entry and no other pays
/// an attempt. It is out, with the reason, exactly if that was its last, and waits
/// again if not. Whatever else the candidate held waits again as it was. The
/// culprit's place says so and the other places say that they were not judged;
/// the candidate has failed, with its commit as it was.
pub proof fn blaming_charges_the_culprit_alone(
    store: &mut Store,
    candidate: i64,
    culprit: EntryId,
    max_attempts: u32,
    reason: &str,
    now: &Timestamp,
    blame: Blame,
)
    requires
        store@.wf(),
        call_ensures(
            Store::blame,
            (store, candidate, culprit, max_attempts, reason, now),
            Ok::<Blame, StoreError>(blame),
        ),
    ensures
        charged_alone(
            old(store)@,
            final(store)@,
            candidate,
            culprit,
            max_attempts,
            reason@,
            written(now@),
            blame,
        ),
{
    charged_alone_rows(
        old(store)@,
        final(store)@,
        candidate,
        culprit,
        max_attempts,
        reason@,
        written(now@),
        blame,
    );
}

/// A candidate is thrown away, or is not.
pub open spec fn given_up_for_nothing(
    a: Ledger,
    b: Ledger,
    candidate: i64,
    state: CandidateState,
    at: Seq<char>,
    r: Result<usize, StoreError>,
) -> bool {
    &&& b.runs == a.runs
    &&& b.leases == a.leases
    &&& b.members == a.members
    &&& r is Ok <==> state == CandidateState::Superseded || state == CandidateState::Failed
    &&& r is Err ==> b == a
    &&& r matches Ok(n) ==> {
        &&& n == a.entries.filter(
            |e: EntryRecord|
                e.state == EntryState::Batched && lists(a.members, candidate, e.id),
        ).len()
        &&& b.entries.len() == a.entries.len()
        &&& b.candidates.len() == a.candidates.len()
        &&& forall|i: int|
            0 <= i < a.entries.len() ==> {
                let x = a.entries[i];
                let y = #[trigger] b.entries[i];
                if x.state == EntryState::Batched && lists(a.members, candidate, x.id) {
                    &&& only_moved(x, y)
                    &&& y.state == EntryState::Queued
                    &&& y.updated_at == at
                } else {
                    y == x
                }
            }
        &&& forall|k: int|
            0 <= k < a.candidates.len() ==> if a.candidates[k].id == candidate {
                &&& same_candidate(a.candidates[k], #[trigger] b.candidates[k])
                &&& b.candidates[k].candidate_sha == a.candidates[k].candidate_sha
                &&& b.candidates[k].state == state
                &&& b.candidates[k].updated_at == at
            } else {
                b.candidates[k] == a.candidates[k]
            }
    }
}

/// So it is of any rows that the step leads from and to.
pub proof fn given_up_for_nothing_rows(
    a: Ledger,
    b: Ledger,
    candidate: i64,
    state: CandidateState,
    at: Seq<char>,
    r: Result<usize, StoreError>,
)
    requires
        abandon_gives(a, candidate, state, at, r, b),
    ensures
        given_up_for_nothing(a, b, candidate, state, at, r),
{
    if r is Ok {
        let held = |e: EntryRecord| a.held_by(candidate, e);
        let listed = |e: EntryRecord|
            e.state == EntryState::Batched && lists(a.members, candidate, e.id);
        assert(held =~= listed) by {
            assert forall|e: EntryRecord| #[trigger] held(e) == listed(e) by {
                same_listing(a.members, candidate, e.id);
            }
        }
        assert forall|i: int| 0 <= i < a.entries.len() implies {
            let x = a.entries[i];
            let y = #[trigger] b.entries[i];
            if x.state == EntryState::Batched && lists(a.members, candidate, x.id) {
                &&& only_moved(x, y)
                &&& y.state == EntryState::Queued
                &&& y.updated_at == at
            } else {
                y == x
            }
        } by {
            same_listing(a.members, candidate, a.entries[i].id);
        }
    }
}

/// When a candidate is thrown away, what it held waits again with nothing spent,
/// and as many are counted; what it did not hold, and every place in it, is as it
/// was. Only a state in which a candidate can be left behind is accepted.
pub proof fn abandoning_costs_nothing(
    store: &mut Store,
    candidate: i64,
    state: CandidateState,
    now: &Timestamp,
    r: Result<usize, StoreError>,
)
    requires
        call_ensures(Store::abandon, (store, candidate, state, now), r),
    ensures
        given_up_for_nothing(old(store)@, final(store)@, candidate, state, written(now@), r),
{
    given_up_for_nothing_rows(old(store)@, final(store)@, candidate, state, written(now@), r);
}

/// What a worker left unfinished is cleared away: every candidate of the queue
/// that is under way is superseded, and every entry that such a candidate held
/// waits again with nothing spent. Both are counted, and nothing else changes.
pub proof fn clearing_away_costs_nothing(
    store: &mut Store,
    repo: &str,
    base: &str,
    now: &Timestamp,
    r: (usize, usize),
)
    requires
        call_ensures(Store::supersede_orphans, (store, repo, base, now), r),
    ensures
        ({
            let a = old(store)@;
            let b = final(store)@;
            &&& b.runs == a.runs
            &&& b.leases == a.leases
            &&& b.members == a.members
            &&& b.entries.len() == a.entries.len()
            &&& b.candidates.len() == a.candidates.len()
            &&& r.0 == a.candidates.filter(
                |c: CandidateRecord| under_way(c) && c.repo_path == repo@ && c.base_branch == base@,
            ).len()
            &&& forall|k: int|
                0 <= k < a.candidates.len() ==> {
                    let x = a.candidates[k];
                    let y = #[trigger] b.candidates[k];
                    if under_way(x) && x.repo_path == repo@ && x.base_branch == base@ {
                        &&& same_candidate(x, y)
                        &&& y.candidate_sha == x.candidate_sha
                        &&& y.state == CandidateState::Superseded
                        &&& y.updated_at == written(now@)
                    } else {
                        y == x
                    }
                }
            &&& r.1 == a.entries.filter(|e: EntryRecord| stranded(a, e, repo@, base@)).len()
            &&& forall|i: int|
                0 <= i < a.entries.len() ==> {
                    let x = a.entries[i];
                    let y = #[trigger] b.entries[i];
                    if stranded(a, x, repo@, base@) {
                        &&& only_moved(x, y)
                        &&& y.state == EntryState::Queued
                        &&& y.updated_at == written(now@)
                    } else {
                        y == x
                    }
                }
        }),
{
    let a = old(store)@;
    let b = final(store)@;
    let orphan = |c: CandidateRecord| a.is_orphan(c, repo@, base@);
    let left = |c: CandidateRecord| under_way(c) && c.repo_path == repo@ && c.base_branch == base@;
    assert(orphan =~= left);
    let held = |e: EntryRecord| a.is_stranded(e, repo@, base@);
    let behind = |e: EntryRecord| stranded(a, e, repo@, base@);
    assert(held =~= behind) by {
        assert forall|e: EntryRecord| #[trigger] held(e) == behind(e) by {
            same_stranding(a, e, repo@, base@);
        }
    }
    assert forall|i: int| 0 <= i < a.entries.len() implies {
        let x = a.entries[i];
        let y = #[trigger] b.entries[i];
        if stranded(a, x, repo@, base@) {
            &&& only_moved(x, y)
            &&& y.state == EntryState::Queued
            &&& y.updated_at == written(now@)
        } else {
            y == x
        }
    } by {
        same_stranding(a, a.entries[i], repo@, base@);
    }
}

/// The candidate is neither landed nor given up.
pub open spec fn under_way(c: CandidateRecord) -> bool {
    c.state == CandidateState::Building || c.state == CandidateState::Testing
}

/// The entry is out of line, in a candidate of the queue that is under way.
pub open spec fn stranded(q: Ledger, e: EntryRecord, repo: Seq<char>, base: Seq<char>) -> bool {
    e.state == EntryState::Batched && exists|k: int|
        0 <= k < q.candidates.len() && under_way(#[trigger] q.candidates[k])
            && q.candidates[k].repo_path == repo && q.candidates[k].base_branch == base && lists(
            q.members,
            q.candidates[k].id,
            e.id,
        )
}

/// Two ways to say that an entry was left in an unfinished candidate.
pub proof fn same_stranding(q: Ledger, e: EntryRecord, repo: Seq<char>, base: Seq<char>)
    ensures
        stranded(q, e, repo, base) == q.is_stranded(e, repo, base),
{
    if stranded(q, e, repo, base) {
        let k = choose|k: int|
            0 <= k < q.candidates.len() && under_way(#[trigger] q.candidates[k])
                && q.candidates[k].repo_path == repo && q.candidates[k].base_branch == base
                && lists(q.members, q.candidates[k].id, e.id);
        same_listing(q.members, q.candidates[k].id, e.id);
        assert(q.is_orphan(q.candidates[k], repo, base));
    }
    if q.is_stranded(e, repo, base) {
        let k = choose|k: int|
            0 <= k < q.candidates.len() && q.is_orphan(#[trigger] q.candidates[k], repo, base)
                && q.member(q.candidates[k].id, e.id);
        same_listing(q.members, q.candidates[k].id, e.id);
        assert(under_way(q.candidates[k]));
    }
}

/// The entry belongs in a part of a queue.
pub open spec fn belongs(part: Section, e: EntryRecord) -> bool {
    match part {
        Section::Waiting => e.state == EntryState::Queued,
        Section::Batched => e.state == EntryState::Batched,
        Section::Settled => e.state == EntryState::Merged || e.state == EntryState::Evicted,
    }
}

/// Whether one entry stands in front of another in a part of a queue. What waits
/// stands by priority, and within one the older in front; what is in a candidate,
/// the older in front; and what is settled, what changed last in front.
pub open spec fn stands_before(part: Section, a: EntryRecord, b: EntryRecord) -> bool {
    match part {
        Section::Waiting => a.priority > b.priority || (a.priority == b.priority && a.id < b.id),
        Section::Batched => a.id < b.id,
        Section::Settled => crate::text::text_before(b.updated_at, a.updated_at) || (a.updated_at
            == b.updated_at && a.id > b.id),
    }
}

/// The order of texts is total, and carries on from one to the next.
proof fn texts_are_ordered(a: Seq<char>, b: Seq<char>, c: Seq<char>)
    ensures
        crate::text::text_before(a, b) ==> !crate::text::text_before(b, a) && a != b,
        crate::text::text_before(a, b) || crate::text::text_before(b, a) || a == b,
        crate::text::text_before(a, b) && crate::text::text_before(b, c)
            ==> crate::text::text_before(a, c),
{
    first_difference(a, b);
    first_difference(b, c);
    first_difference(a, c);
    let i = shared(a, b);
    let j = shared(b, c);
    let k = if i <= j {
        i
    } else {
        j
    };
    if crate::text::text_before(a, b) && crate::text::text_before(b, c) {
        assert(a.take(k) =~= a.take(i).take(k));
        assert(c.take(k) =~= c.take(j).take(k));
        assert(b.take(k) =~= b.take(i).take(k));
        assert(b.take(k) =~= b.take(j).take(k));
        if k < i {
            assert(a.take(i)[k] == b.take(i)[k]);
        }
        if k < j {
            assert(b.take(j)[k] == c.take(j)[k]);
        }
        assert(a.take(k) == c.take(k));
    }
}

/// How much two texts begin alike.
spec fn shared(a: Seq<char>, b: Seq<char>) -> int
    decreases a.len(),
{
    if a.len() > 0 && b.len() > 0 && a[0] == b[0] {
        1 + shared(a.drop_first(), b.drop_first())
    } else {
        0
    }
}

proof fn first_difference(a: Seq<char>, b: Seq<char>)
    ensures
        ({
            let k = shared(a, b);
            &&& 0 <= k <= a.len() && k <= b.len()
            &&& a.take(k) == b.take(k)
            &&& k < a.len() && k < b.len() ==> a[k] != b[k]
            &&& crate::text::text_before(a, b) <==> k < b.len() && (k == a.len() || a[k] < b[k])
            &&& crate::text::text_before(b, a) <==> k < a.len() && (k == b.len() || b[k] < a[k])
            &&& k == a.len() && k == b.len() <==> a == b
        }),
    decreases a.len(),
{
    let k = shared(a, b);
    shared_is(a, b);
    let lead = a.take(k);
    assert(a =~= lead + a.skip(k));
    assert(b =~= lead + b.skip(k));
    crate::wording::order_is_of_the_first_difference(lead, a.skip(k), b.skip(k));
    crate::wording::order_is_of_the_first_difference(lead, b.skip(k), a.skip(k));
    if k == a.len() && k == b.len() {
        assert(a.take(k) =~= a);
        assert(b.take(k) =~= b);
    }
}

proof fn shared_is(a: Seq<char>, b: Seq<char>)
    ensures
        ({
            let k = shared(a, b);
            &&& 0 <= k <= a.len() && k <= b.len()
            &&& a.take(k) == b.take(k)
            &&& k < a.len() && k < b.len() ==> a[k] != b[k]
            &&& a == b ==> k == a.len()
        }),
    decreases a.len(),
{
    if a.len() > 0 && b.len() > 0 && a[0] == b[0] {
        let x = a.drop_first();
        let y = b.drop_first();
        shared_is(x, y);
        let k = shared(x, y);
        assert(a.take(k + 1) =~= seq![a[0]] + x.take(k));
        assert(b.take(k + 1) =~= seq![b[0]] + y.take(k));
    } else {
        assert(a.take(0) =~= b.take(0));
    }
}

proof fn each_part_is_an_order(part: Section)
    ensures
        seqs::is_order(|a: EntryRecord, b: EntryRecord| part.before(a, b)),
{
    let before = |a: EntryRecord, b: EntryRecord| part.before(a, b);
    assert forall|a: EntryRecord, b: EntryRecord| #[trigger] before(a, b) implies !before(b, a) by {
        texts_are_ordered(a.updated_at, b.updated_at, a.updated_at);
    }
    assert forall|a: EntryRecord, b: EntryRecord, c: EntryRecord|
        !(#[trigger] before(b, a)) && !(#[trigger] before(c, b)) implies !before(c, a) by {
        texts_are_ordered(a.updated_at, b.updated_at, c.updated_at);
        texts_are_ordered(b.updated_at, a.updated_at, c.updated_at);
        texts_are_ordered(a.updated_at, c.updated_at, b.updated_at);
        texts_are_ordered(c.updated_at, a.updated_at, b.updated_at);
        texts_are_ordered(b.updated_at, c.updated_at, a.updated_at);
        texts_are_ordered(c.updated_at, b.updated_at, a.updated_at);
    }
}

/// A part of a queue has exactly the entries that belong in it, each once, and
/// each stands in front of those behind it.
pub proof fn a_part_is_what_belongs_in_it(
    q: Ledger,
    repo: Seq<char>,
    base: Seq<char>,
    part: Section,
)
    requires
        q.wf(),
    ensures
        forall|e: EntryRecord| #[trigger]
            q.section(repo, base, part).contains(e) <==> q.entries.contains(e) && of_queue(
                e,
                repo,
                base,
            ) && belongs(part, e),
        forall|i: int, j: int|
            0 <= i < j < q.section(repo, base, part).len() ==> stands_before(
                part,
                #[trigger] q.section(repo, base, part)[i],
                #[trigger] q.section(repo, base, part)[j],
            ),
        q.section(repo, base, part).no_duplicates(),
        q.waiting(repo, base) == q.section(repo, base, Section::Waiting),
{
    let pred = |e: EntryRecord| e.in_queue(repo, base) && part.covers(e.state);
    let before = |a: EntryRecord, b: EntryRecord| part.before(a, b);
    let list = q.entries.filter(pred);
    let line = q.section(repo, base, part);
    each_part_is_an_order(part);
    seqs::ordered_is_ordered(list, before);
    assert forall|e: EntryRecord| #[trigger] line.contains(e) <==> q.entries.contains(e)
        && of_queue(e, repo, base) && belongs(part, e) by {
        seqs::ordered_has(list, before, e);
        assert(pred(e) == (of_queue(e, repo, base) && belongs(part, e)));
        if q.entries.contains(e) && pred(e) {
            let i = choose|i: int| 0 <= i < q.entries.len() && q.entries[i] == e;
            q.entries.lemma_filter_contains(pred, i);
        }
        if list.contains(e) {
            let i = choose|i: int| 0 <= i < list.len() && list[i] == e;
            q.entries.lemma_filter_pred(pred, i);
            q.entries.lemma_filter_contains_rev(pred, e);
        }
    }
    no_row_twice(q.entries);
    filtered_is_without_doubles(q.entries, pred);
    ordered_is_without_doubles(list, before);
    assert forall|i: int, j: int| 0 <= i < j < line.len() implies stands_before(
        part,
        #[trigger] line[i],
        #[trigger] line[j],
    ) by {
        let x = line[i];
        let y = line[j];
        assert(!before(y, x));
        assert(line.contains(x) && line.contains(y));
        let k = choose|k: int| 0 <= k < q.entries.len() && q.entries[k] == x;
        let l = choose|l: int| 0 <= l < q.entries.len() && q.entries[l] == y;
        assert(k != l);
        assert(x.id != y.id) by {
            if k < l {
                assert(q.entries[k].id < q.entries[l].id);
            } else {
                assert(q.entries[l].id < q.entries[k].id);
            }
        }
        texts_are_ordered(x.updated_at, y.updated_at, x.updated_at);
    }
}

proof fn no_row_twice(entries: Seq<EntryRecord>)
    requires
        crate::queue::ledger::entries_rise(entries),
    ensures
        entries.no_duplicates(),
{
    assert forall|i: int, j: int| 0 <= i < entries.len() && 0 <= j < entries.len() && i != j implies
        entries[i] != entries[j] by {
        if i < j {
            assert(entries[i].id < entries[j].id);
        } else {
            assert(entries[j].id < entries[i].id);
        }
    }
}

proof fn filtered_is_without_doubles<A>(s: Seq<A>, pred: spec_fn(A) -> bool)
    requires
        s.no_duplicates(),
    ensures
        s.filter(pred).no_duplicates(),
    decreases s.len(),
{
    reveal(Seq::filter);
    if s.len() > 0 {
        let rest = s.drop_last();
        filtered_is_without_doubles(rest, pred);
        let had = rest.filter(pred);
        if pred(s.last()) {
            assert(s.filter(pred) == had.push(s.last()));
            assert forall|i: int| 0 <= i < had.len() implies had[i] != s.last() by {
                rest.lemma_filter_pred(pred, i);
                rest.lemma_filter_contains_rev(pred, had[i]);
                let k = choose|k: int| 0 <= k < rest.len() && rest[k] == had[i];
                assert(s[k] == had[i]);
            }
        }
    }
}

proof fn ordered_is_without_doubles<A>(s: Seq<A>, before: spec_fn(A, A) -> bool)
    requires
        s.no_duplicates(),
    ensures
        seqs::ordered(s, before).no_duplicates(),
{
    broadcast use vstd::seq_lib::group_to_multiset_ensures;

    seqs::ordered_keeps(s, before);
    s.lemma_multiset_has_no_duplicates();
    seqs::ordered(s, before).lemma_multiset_has_no_duplicates_conv();
}

/// The batch that is tried next is the front of the line, as far as it may go: an
/// entry that was tried before goes alone, and otherwise the batch goes on until
/// the limit, the end of the line or an entry that was tried before.
pub proof fn a_batch_is_as_long_as_it_may_be(
    store: &Store,
    repo: &str,
    base: &str,
    limit: usize,
    batch: Vec<Entry>,
)
    requires
        call_ensures(
            Store::select_batch,
            (store, repo, base, limit),
            Ok::<Vec<Entry>, StoreError>(batch),
        ),
    ensures
        ({
            let line = store@.waiting(repo@, base@);
            let n = batch@.len();
            &&& n <= limit && n <= line.len()
            &&& forall|i: int|
                0 <= i < n ==> {
                    &&& (#[trigger] batch@[i]).id == line[i].id
                    &&& batch@[i].branch@ == line[i].branch
                    &&& batch@[i].branch_sha@ == spelled_id(line[i].branch_sha)
                    &&& batch@[i].attempts == line[i].attempts
                }
            &&& n == 0 <==> limit == 0 || line.len() == 0
            &&& n > 0 && line[0].attempts > 0 ==> n == 1
            &&& n > 0 && line[0].attempts == 0 ==> {
                &&& forall|i: int| 0 <= i < n ==> (#[trigger] line[i]).attempts == 0
                &&& n < limit && n < line.len() ==> line[n as int].attempts > 0
            }
        }),
{
    let line = store@.waiting(repo@, base@);
    let front = store@.front(repo@, base@, limit as nat);
    let chosen = crate::queue::ledger::batch_of(front);
    crate::queue::laws::a_batch_goes_as_far_as_it_may(store@, repo@, base@, limit as nat);
    assert(entry_views(batch@) == crate::queue::ledger::all_seen(chosen));
    assert(entry_views(batch@).len() == chosen.len());
    assert forall|i: int| 0 <= i < batch@.len() implies {
        &&& (#[trigger] batch@[i]).id == line[i].id
        &&& batch@[i].branch@ == line[i].branch
        &&& batch@[i].branch_sha@ == spelled_id(line[i].branch_sha)
        &&& batch@[i].attempts == line[i].attempts
    } by {
        assert(entry_views(batch@)[i] == batch@[i]@);
        assert(chosen[i] == line[i]);
    }
    assert forall|i: int| 0 <= i < batch@.len() && batch@.len() > 1 implies (
    #[trigger] line[i]).attempts == 0 by {
        assert(chosen[i] == line[i]);
    }
}

} // verus!
