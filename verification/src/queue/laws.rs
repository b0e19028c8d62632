//! What holds of a queue between any two steps.
//!
//! The rows are well-formed by their shape. They are tidy by how the tables fit
//! together: a queue has at most one candidate under way, and an entry is out of
//! line exactly while that candidate has it. Every step keeps that, so no entry
//! is ever stuck outside the line with nobody working on it.

use vstd::prelude::*;

use crate::queue::ledger::batch_of;
use crate::queue::ledger::commits_named;
use crate::queue::ledger::entry_is_found;
use crate::queue::ledger::fresh_run;
use crate::queue::ledger::has_candidate;
use crate::queue::ledger::has_entry;
use crate::queue::ledger::is_member;
use crate::queue::ledger::live_apart;
use crate::queue::ledger::none_revived;
use crate::queue::ledger::opened_wf;
use crate::queue::ledger::same_rows;
use crate::queue::ledger::same_rows_wf;
use crate::queue::ledger::waits_before;
use crate::queue::ledger::CandidateRecord;
use crate::queue::ledger::EntryRecord;
use crate::queue::ledger::Ledger;
use crate::queue::ledger::Section;
use crate::queue::model::EntryId;
use crate::queue::state::CandidateState;
use crate::queue::state::EntryState;
use crate::seqs;

verus! {

/// No queue has two candidates under way.
pub open spec fn one_active(candidates: Seq<CandidateRecord>) -> bool {
    forall|k: int, l: int|
        0 <= k < candidates.len() && 0 <= l < candidates.len()
            && (#[trigger] candidates[k]).state.active()
            && (#[trigger] candidates[l]).state.active() && candidates[k].in_queue(
            candidates[l].repo_path,
            candidates[l].base_branch,
        ) ==> k == l
}

/// What a candidate under way has is out of line, in the candidate's queue.
pub open spec fn held_are_batched(q: Ledger) -> bool {
    forall|k: int, j: int|
        0 <= k < q.candidates.len() && 0 <= j < q.entries.len()
            && q.candidates[k].state.active() && #[trigger] is_member(
            q.members,
            q.candidates[k].id,
            q.entries[j].id,
        ) ==> q.entries[j].state == EntryState::Batched && q.entries[j].in_queue(
            q.candidates[k].repo_path,
            q.candidates[k].base_branch,
        )
}

/// Some candidate under way has the entry.
pub open spec fn is_held(q: Ledger, id: EntryId) -> bool {
    exists|k: int|
        0 <= k < q.candidates.len() && q.candidates[k].state.active() && #[trigger] is_member(
            q.members,
            q.candidates[k].id,
            id,
        )
}

/// What is out of line is in a candidate under way.
pub open spec fn batched_are_held(q: Ledger) -> bool {
    forall|j: int|
        0 <= j < q.entries.len() && (#[trigger] q.entries[j]).state == EntryState::Batched
            ==> is_held(q, q.entries[j].id)
}

/// A queue has at most one candidate under way, and an entry is out of line
/// exactly while that candidate has it.
pub open spec fn tidy(q: Ledger) -> bool {
    &&& one_active(q.candidates)
    &&& held_are_batched(q)
    &&& batched_are_held(q)
}

/// The rows but for runs and leases.
pub open spec fn same_queue(a: Ledger, b: Ledger) -> bool {
    a.entries == b.entries && a.candidates == b.candidates && a.members == b.members
}

/// Runs and leases have no part in tidiness.
pub proof fn same_queue_tidy(a: Ledger, b: Ledger)
    requires
        tidy(a),
        same_queue(a, b),
    ensures
        tidy(b),
{
    assert forall|j: int|
        0 <= j < b.entries.len() && (#[trigger] b.entries[j]).state
            == EntryState::Batched implies is_held(b, b.entries[j].id) by {
        assert(is_held(a, a.entries[j].id));
        let k = choose|k: int|
            0 <= k < a.candidates.len() && a.candidates[k].state.active() && #[trigger] is_member(
                a.members,
                a.candidates[k].id,
                a.entries[j].id,
            );
        assert(is_member(b.members, b.candidates[k].id, b.entries[j].id));
    }
}

/// Two entries with one id are one entry.
proof fn one_entry(q: Ledger, i: int, j: int)
    requires
        q.wf(),
        0 <= i < q.entries.len(),
        0 <= j < q.entries.len(),
        q.entries[i].id == q.entries[j].id,
    ensures
        i == j,
{
}

/// Two candidates with one id are one candidate.
proof fn one_candidate(q: Ledger, k: int, l: int)
    requires
        q.wf(),
        0 <= k < q.candidates.len(),
        0 <= l < q.candidates.len(),
        q.candidates[k].id == q.candidates[l].id,
    ensures
        k == l,
{
}

/// A candidate that is finished with lets go of what it had, and of nothing
/// else.
pub open spec fn lets_go(a: Ledger, b: Ledger, k: int) -> bool {
    &&& same_rows(a, b)
    &&& b.candidates[k].state.terminal()
    &&& forall|l: int|
        0 <= l < a.candidates.len() && l != k ==> #[trigger] b.candidates[l] == a.candidates[l]
    &&& forall|j: int|
        0 <= j < a.entries.len() && is_member(a.members, a.candidates[k].id, a.entries[j].id)
            ==> (#[trigger] b.entries[j]).state != EntryState::Batched
    &&& forall|j: int|
        0 <= j < a.entries.len() && !is_member(a.members, a.candidates[k].id, a.entries[j].id)
            ==> #[trigger] b.entries[j] == a.entries[j]
}

/// Finishing with the candidate under way leaves the queue tidy.
proof fn letting_go_is_tidy(a: Ledger, b: Ledger, k: int)
    requires
        a.wf(),
        b.wf(),
        tidy(a),
        0 <= k < a.candidates.len(),
        a.candidates[k].state.active(),
        lets_go(a, b, k),
        forall|c: i64, e: EntryId| is_member(a.members, c, e) == #[trigger] is_member(
            b.members,
            c,
            e,
        ),
    ensures
        tidy(b),
{
    assert forall|l: int, j: int|
        0 <= l < b.candidates.len() && 0 <= j < b.entries.len() && b.candidates[l].state.active()
            && #[trigger] is_member(
            b.members,
            b.candidates[l].id,
            b.entries[j].id,
        ) implies b.entries[j].state == EntryState::Batched && b.entries[j].in_queue(
        b.candidates[l].repo_path,
        b.candidates[l].base_branch,
    ) by {
        assert(l != k);
        assert(b.candidates[l] == a.candidates[l]);
        assert(is_member(a.members, a.candidates[l].id, a.entries[j].id));
        if is_member(a.members, a.candidates[k].id, a.entries[j].id) {
            assert(a.candidates[k].in_queue(
                a.candidates[l].repo_path,
                a.candidates[l].base_branch,
            ));
        }
        assert(b.entries[j] == a.entries[j]);
    }
    assert forall|j: int|
        0 <= j < b.entries.len() && (#[trigger] b.entries[j]).state
            == EntryState::Batched implies is_held(b, b.entries[j].id) by {
        assert(!is_member(a.members, a.candidates[k].id, a.entries[j].id));
        assert(b.entries[j] == a.entries[j]);
        assert(is_held(a, a.entries[j].id));
        let l = choose|l: int|
            0 <= l < a.candidates.len() && a.candidates[l].state.active() && #[trigger] is_member(
                a.members,
                a.candidates[l].id,
                a.entries[j].id,
            );
        assert(l != k);
        assert(b.candidates[l] == a.candidates[l]);
        assert(is_member(b.members, b.candidates[l].id, b.entries[j].id));
    }
    assert forall|x: int, y: int|
        0 <= x < b.candidates.len() && 0 <= y < b.candidates.len()
            && (#[trigger] b.candidates[x]).state.active()
            && (#[trigger] b.candidates[y]).state.active() && b.candidates[x].in_queue(
            b.candidates[y].repo_path,
            b.candidates[y].base_branch,
        ) implies x == y by {
        assert(x != k && y != k);
        assert(b.candidates[x] == a.candidates[x] && b.candidates[y] == a.candidates[y]);
    }
}

/// Throwing a candidate under way away leaves the queue tidy.
pub proof fn abandoning_is_tidy(
    q: Ledger,
    k: int,
    state: CandidateState,
    at: Seq<char>,
)
    requires
        q.wf(),
        tidy(q),
        0 <= k < q.candidates.len(),
        q.candidates[k].state.active(),
        state == CandidateState::Superseded || state == CandidateState::Failed,
    ensures
        q.abandoned(q.candidates[k].id, state, at).wf(),
        tidy(q.abandoned(q.candidates[k].id, state, at)),
        lets_go(q, q.abandoned(q.candidates[k].id, state, at), k),
{
    let b = q.abandoned(q.candidates[k].id, state, at);
    same_rows_wf(q, b);
    assert forall|l: int| 0 <= l < q.candidates.len() && l != k implies #[trigger] b.candidates[l]
        == q.candidates[l] by {
        if q.candidates[l].id == q.candidates[k].id {
            one_candidate(q, k, l);
        }
    }
    assert forall|j: int|
        0 <= j < q.entries.len() && !is_member(
            q.members,
            q.candidates[k].id,
            q.entries[j].id,
        ) implies #[trigger] b.entries[j] == q.entries[j] by {}
    assert forall|j: int|
        0 <= j < q.entries.len() && is_member(
            q.members,
            q.candidates[k].id,
            q.entries[j].id,
        ) implies (#[trigger] b.entries[j]).state != EntryState::Batched by {}
    letting_go_is_tidy(q, b, k);
}

/// Landing a candidate under way leaves the queue tidy.
pub proof fn landing_is_tidy(q: Ledger, k: int, at: Seq<char>)
    requires
        q.wf(),
        tidy(q),
        0 <= k < q.candidates.len(),
        q.candidates[k].state.active(),
        q.candidates[k].candidate_sha is Some,
    ensures
        q.landed(q.candidates[k].id, at).wf(),
        tidy(q.landed(q.candidates[k].id, at)),
        lets_go(q, q.landed(q.candidates[k].id, at), k),
{
    let b = q.landed(q.candidates[k].id, at);
    assert forall|l: int| 0 <= l < q.candidates.len() && l != k implies #[trigger] b.candidates[l]
        == q.candidates[l] by {
        if q.candidates[l].id == q.candidates[k].id {
            one_candidate(q, k, l);
        }
    }
    assert(commits_named(b.candidates)) by {
        assert forall|l: int|
            0 <= l < b.candidates.len() && (#[trigger] b.candidates[l]).state.names_commit() implies
            b.candidates[l].candidate_sha is Some by {
            if l != k {
                assert(b.candidates[l] == q.candidates[l]);
            }
        }
    }
    same_rows_wf(q, b);
    assert forall|j: int|
        0 <= j < q.entries.len() && !is_member(
            q.members,
            q.candidates[k].id,
            q.entries[j].id,
        ) implies #[trigger] b.entries[j] == q.entries[j] by {}
    assert forall|j: int|
        0 <= j < q.entries.len() && is_member(
            q.members,
            q.candidates[k].id,
            q.entries[j].id,
        ) implies (#[trigger] b.entries[j]).state != EntryState::Batched by {}
    letting_go_is_tidy(q, b, k);
}

/// Pinning a candidate under way on one of its entries leaves the queue tidy.
pub proof fn blaming_is_tidy(
    q: Ledger,
    k: int,
    c: int,
    spent: u32,
    evicted: bool,
    reason: Seq<char>,
    at: Seq<char>,
)
    requires
        q.wf(),
        tidy(q),
        0 <= k < q.candidates.len(),
        q.candidates[k].state.active(),
        0 <= c < q.entries.len(),
        is_member(q.members, q.candidates[k].id, q.entries[c].id),
    ensures
        q.blamed(q.candidates[k].id, q.entries[c].id, spent, evicted, reason, at).wf(),
        tidy(q.blamed(q.candidates[k].id, q.entries[c].id, spent, evicted, reason, at)),
        lets_go(q, q.blamed(q.candidates[k].id, q.entries[c].id, spent, evicted, reason, at), k),
{
    let b = q.blamed(q.candidates[k].id, q.entries[c].id, spent, evicted, reason, at);
    assert(q.entries[c].state == EntryState::Batched);
    crate::queue::ledger::blamed_wf(q, q.candidates[k].id, c, spent, evicted, reason, at);
    assert forall|j: int| 0 <= j < q.entries.len() && q.entries[j].id == q.entries[c].id implies j
        == c by {
        one_entry(q, j, c);
    }
    same_rows_wf(q, b);
    assert forall|l: int| 0 <= l < q.candidates.len() && l != k implies #[trigger] b.candidates[l]
        == q.candidates[l] by {
        if q.candidates[l].id == q.candidates[k].id {
            one_candidate(q, k, l);
        }
    }
    assert forall|j: int|
        0 <= j < q.entries.len() && !is_member(
            q.members,
            q.candidates[k].id,
            q.entries[j].id,
        ) implies #[trigger] b.entries[j] == q.entries[j] by {}
    assert forall|j: int|
        0 <= j < q.entries.len() && is_member(
            q.members,
            q.candidates[k].id,
            q.entries[j].id,
        ) implies (#[trigger] b.entries[j]).state != EntryState::Batched by {}
    letting_go_is_tidy(q, b, k);
}

/// Recording the commit of a candidate under way leaves the queue tidy.
pub proof fn testing_is_tidy(q: Ledger, k: int, sha: Seq<char>, at: Seq<char>)
    requires
        q.wf(),
        tidy(q),
        0 <= k < q.candidates.len(),
        q.candidates[k].state.active(),
    ensures
        q.with_candidate(q.candidates[k].id, CandidateState::Testing, Some(sha), at).wf(),
        tidy(q.with_candidate(q.candidates[k].id, CandidateState::Testing, Some(sha), at)),
{
    let b = q.with_candidate(q.candidates[k].id, CandidateState::Testing, Some(sha), at);
    assert forall|l: int| 0 <= l < q.candidates.len() && l != k implies #[trigger] b.candidates[l]
        == q.candidates[l] by {
        if q.candidates[l].id == q.candidates[k].id {
            one_candidate(q, k, l);
        }
    }
    same_rows_wf(q, b);
    assert forall|l: int| 0 <= l < q.candidates.len() implies (
    #[trigger] b.candidates[l]).state.active() == q.candidates[l].state.active()
        && b.candidates[l].in_queue(q.candidates[l].repo_path, q.candidates[l].base_branch)
        && b.candidates[l].id == q.candidates[l].id by {
        if l != k {
            assert(b.candidates[l] == q.candidates[l]);
        }
    }
    assert forall|l: int, j: int|
        0 <= l < b.candidates.len() && 0 <= j < b.entries.len() && b.candidates[l].state.active()
            && #[trigger] is_member(
            b.members,
            b.candidates[l].id,
            b.entries[j].id,
        ) implies b.entries[j].state == EntryState::Batched && b.entries[j].in_queue(
        b.candidates[l].repo_path,
        b.candidates[l].base_branch,
    ) by {
        assert(is_member(q.members, q.candidates[l].id, q.entries[j].id));
    }
    assert forall|j: int|
        0 <= j < b.entries.len() && (#[trigger] b.entries[j]).state
            == EntryState::Batched implies is_held(b, b.entries[j].id) by {
        assert(is_held(q, q.entries[j].id));
        let l = choose|l: int|
            0 <= l < q.candidates.len() && q.candidates[l].state.active() && #[trigger] is_member(
                q.members,
                q.candidates[l].id,
                q.entries[j].id,
            );
        assert(b.candidates[l].state.active());
        assert(is_member(b.members, b.candidates[l].id, b.entries[j].id));
    }
    assert forall|x: int, y: int|
        0 <= x < b.candidates.len() && 0 <= y < b.candidates.len()
            && (#[trigger] b.candidates[x]).state.active()
            && (#[trigger] b.candidates[y]).state.active() && b.candidates[x].in_queue(
            b.candidates[y].repo_path,
            b.candidates[y].base_branch,
        ) implies x == y by {
        assert(q.candidates[x].state.active() && q.candidates[y].state.active());
    }
}

/// Opening a candidate over entries that wait in a queue with none under way
/// leaves it tidy.
pub proof fn opening_is_tidy(
    q: Ledger,
    repo: Seq<char>,
    base: Seq<char>,
    base_sha: Seq<char>,
    list: Seq<EntryId>,
    parent: Option<i64>,
    at: Seq<char>,
)
    requires
        q.wf(),
        tidy(q),
        q.next_candidate_id() <= i64::MAX,
        list.no_duplicates(),
        forall|i: int| 0 <= i < list.len() ==> q.waits(repo, base, #[trigger] list[i]),
        forall|k: int|
            0 <= k < q.candidates.len() && (#[trigger] q.candidates[k]).state.active()
                ==> !q.candidates[k].in_queue(repo, base),
    ensures
        q.opened(repo, base, base_sha, list, parent, at).wf(),
        tidy(q.opened(repo, base, base_sha, list, parent, at)),
        forall|e: EntryId| #[trigger]
            is_member(
                q.opened(repo, base, base_sha, list, parent, at).members,
                q.next_candidate_id() as i64,
                e,
            ) == list.contains(e),
{
    let b = q.opened(repo, base, base_sha, list, parent, at);
    let id = q.next_candidate_id() as i64;
    let n = q.candidates.len() as int;
    assert forall|i: int| 0 <= i < list.len() implies has_entry(q.entries, #[trigger] list[i]) by {
        assert(q.waits(repo, base, list[i]));
        crate::queue::ledger::entry_found_is_there(q.entries, list[i]);
    }
    assert forall|j: int| 0 <= j < q.entries.len() && list.contains(q.entries[j].id) implies (
    #[trigger] q.entries[j]).state == EntryState::Queued && q.entries[j].in_queue(repo, base) by {
        entry_is_found(q.entries, j);
        let i = choose|i: int| 0 <= i < list.len() && list[i] == q.entries[j].id;
        assert(q.waits(repo, base, list[i]));
    }
    assert(none_revived(q.entries, b.entries)) by {
        assert forall|i: int|
            0 <= i < q.entries.len() && (#[trigger] b.entries[i]).state.live() implies (
        #[trigger] q.entries[i]).state.live() by {}
    }
    assert(live_apart(b.entries)) by {
        same_rows_wf(q, Ledger { entries: b.entries, ..q });
    }
    opened_wf(q, repo, base, base_sha, list, parent, at);
    assert forall|c: i64| has_candidate(q.candidates, c) implies c != id by {
        let i = choose|i: int| 0 <= i < q.candidates.len() && #[trigger] q.candidates[i].id == c;
        if i < q.candidates.len() - 1 {
            assert(q.candidates[i].id < q.candidates[q.candidates.len() - 1].id);
        }
    }
    assert forall|c: i64, e: EntryId| c != id implies #[trigger] is_member(b.members, c, e)
        == is_member(q.members, c, e) by {
        if is_member(q.members, c, e) {
            let i = choose|i: int|
                0 <= i < q.members.len() && #[trigger] q.members[i].candidate_id == c
                    && q.members[i].entry_id == e;
            assert(b.members[i].candidate_id == c);
        }
        if is_member(b.members, c, e) {
            let i = choose|i: int|
                0 <= i < b.members.len() && #[trigger] b.members[i].candidate_id == c
                    && b.members[i].entry_id == e;
            assert(i < q.members.len());
            assert(q.members[i].candidate_id == c);
        }
    }
    assert forall|e: EntryId| #[trigger] is_member(b.members, id, e) == list.contains(e) by {
        if list.contains(e) {
            let i = choose|i: int| 0 <= i < list.len() && list[i] == e;
            assert(b.members[q.members.len() + i].candidate_id == id);
        }
        if is_member(b.members, id, e) {
            let i = choose|i: int|
                0 <= i < b.members.len() && #[trigger] b.members[i].candidate_id == id
                    && b.members[i].entry_id == e;
            if i < q.members.len() {
                assert(has_candidate(q.candidates, q.members[i].candidate_id));
            } else {
                assert(list[i - q.members.len()] == e);
            }
        }
    }
    assert forall|l: int, j: int|
        0 <= l < b.candidates.len() && 0 <= j < b.entries.len() && b.candidates[l].state.active()
            && #[trigger] is_member(
            b.members,
            b.candidates[l].id,
            b.entries[j].id,
        ) implies b.entries[j].state == EntryState::Batched && b.entries[j].in_queue(
        b.candidates[l].repo_path,
        b.candidates[l].base_branch,
    ) by {
        if l < n {
            assert(has_candidate(q.candidates, q.candidates[l].id));
            assert(is_member(q.members, q.candidates[l].id, q.entries[j].id));
        } else {
            assert(list.contains(q.entries[j].id));
            assert(q.entries[j].in_queue(repo, base));
        }
    }
    assert forall|j: int|
        0 <= j < b.entries.len() && (#[trigger] b.entries[j]).state
            == EntryState::Batched implies is_held(b, b.entries[j].id) by {
        if list.contains(q.entries[j].id) {
            assert(is_member(b.members, b.candidates[n].id, b.entries[j].id));
        } else {
            assert(is_held(q, q.entries[j].id));
            let l = choose|l: int|
                0 <= l < q.candidates.len() && q.candidates[l].state.active()
                    && #[trigger] is_member(q.members, q.candidates[l].id, q.entries[j].id);
            assert(has_candidate(q.candidates, q.candidates[l].id));
            assert(b.candidates[l] == q.candidates[l]);
            assert(is_member(b.members, b.candidates[l].id, b.entries[j].id));
        }
    }
    assert forall|x: int, y: int|
        0 <= x < b.candidates.len() && 0 <= y < b.candidates.len()
            && (#[trigger] b.candidates[x]).state.active()
            && (#[trigger] b.candidates[y]).state.active() && b.candidates[x].in_queue(
            b.candidates[y].repo_path,
            b.candidates[y].base_branch,
        ) implies x == y by {
        if x < n {
            assert(b.candidates[x] == q.candidates[x]);
        }
        if y < n {
            assert(b.candidates[y] == q.candidates[y]);
        }
    }
}

/// An entry is known by its repository, base branch, branch and commit. A branch
/// that was repushed is a new request, and one whose earlier requests are all
/// settled may come back.
pub proof fn a_commit_is_refused_only_while_it_is_live(q: Ledger, entry: EntryRecord)
    requires
        forall|i: int|
            0 <= i < q.entries.len() && (#[trigger] q.entries[i]).in_queue(
                entry.repo_path,
                entry.base_branch,
            ) && q.entries[i].branch == entry.branch ==> q.entries[i].branch_sha
                != entry.branch_sha || q.entries[i].state.terminal(),
    ensures
        !q.has_live_twin(entry),
{
}

/// Queueing a branch leaves the queue tidy.
pub proof fn queueing_is_tidy(q: Ledger, entry: EntryRecord)
    requires
        q.wf(),
        tidy(q),
        entry.id >= q.next_entry_id(),
        entry.state == EntryState::Queued,
    ensures
        tidy(q.with_entry(entry)),
{
    let b = q.with_entry(entry);
    let n = q.entries.len() as int;
    assert forall|l: int, j: int|
        0 <= l < b.candidates.len() && 0 <= j < b.entries.len() && b.candidates[l].state.active()
            && #[trigger] is_member(
            b.members,
            b.candidates[l].id,
            b.entries[j].id,
        ) implies b.entries[j].state == EntryState::Batched && b.entries[j].in_queue(
        b.candidates[l].repo_path,
        b.candidates[l].base_branch,
    ) by {
        if j == n {
            let i = choose|i: int|
                0 <= i < q.members.len() && #[trigger] q.members[i].candidate_id
                    == b.candidates[l].id && q.members[i].entry_id == entry.id;
            assert(has_entry(q.entries, q.members[i].entry_id));
            let m = choose|m: int|
                0 <= m < q.entries.len() && #[trigger] q.entries[m].id == q.members[i].entry_id;
            if m < n - 1 {
                assert(q.entries[m].id < q.entries[n - 1].id);
            }
        } else {
            assert(is_member(q.members, q.candidates[l].id, q.entries[j].id));
        }
    }
    assert forall|j: int|
        0 <= j < b.entries.len() && (#[trigger] b.entries[j]).state
            == EntryState::Batched implies is_held(b, b.entries[j].id) by {
        assert(is_held(q, q.entries[j].id));
        let l = choose|l: int|
            0 <= l < q.candidates.len() && q.candidates[l].state.active() && #[trigger] is_member(
                q.members,
                q.candidates[l].id,
                q.entries[j].id,
            );
        assert(is_member(b.members, b.candidates[l].id, b.entries[j].id));
    }
}

/// A change to entries that wait, which leaves them out of every candidate,
/// leaves the queue tidy.
proof fn waiting_change_is_tidy(q: Ledger, b: Ledger)
    requires
        q.wf(),
        tidy(q),
        same_rows(q, b),
        q.candidates == b.candidates,
        q.members == b.members,
        forall|j: int|
            0 <= j < q.entries.len() ==> #[trigger] b.entries[j] == q.entries[j]
                || q.entries[j].state == EntryState::Queued && b.entries[j].state
                != EntryState::Batched,
    ensures
        tidy(b),
{
    assert forall|l: int, j: int|
        0 <= l < b.candidates.len() && 0 <= j < b.entries.len() && b.candidates[l].state.active()
            && #[trigger] is_member(
            b.members,
            b.candidates[l].id,
            b.entries[j].id,
        ) implies b.entries[j].state == EntryState::Batched && b.entries[j].in_queue(
        b.candidates[l].repo_path,
        b.candidates[l].base_branch,
    ) by {
        assert(q.entries[j].id == b.entries[j].id);
        assert(is_member(q.members, q.candidates[l].id, q.entries[j].id));
    }
    assert forall|j: int|
        0 <= j < b.entries.len() && (#[trigger] b.entries[j]).state
            == EntryState::Batched implies is_held(b, b.entries[j].id) by {
        assert(b.entries[j] == q.entries[j]);
        assert(is_held(q, q.entries[j].id));
        let l = choose|l: int|
            0 <= l < q.candidates.len() && q.candidates[l].state.active() && #[trigger] is_member(
                q.members,
                q.candidates[l].id,
                q.entries[j].id,
            );
        assert(is_member(b.members, b.candidates[l].id, b.entries[j].id));
    }
}

/// Moving a waiting entry to the front leaves the queue tidy.
pub proof fn promoting_is_tidy(
    q: Ledger,
    repo: Seq<char>,
    base: Seq<char>,
    id: EntryId,
    priority: i64,
    at: Seq<char>,
)
    requires
        q.wf(),
        tidy(q),
        q.waits(repo, base, id),
    ensures
        tidy(q.reprioritised(id, priority, at)),
{
    let b = q.reprioritised(id, priority, at);
    assert forall|j: int| 0 <= j < q.entries.len() implies #[trigger] b.entries[j] == q.entries[j]
        || q.entries[j].state == EntryState::Queued && b.entries[j].state
        != EntryState::Batched by {
        if q.entries[j].id == id {
            entry_is_found(q.entries, j);
        }
    }
    waiting_change_is_tidy(q, b);
}

/// Taking a waiting entry out by hand leaves the queue tidy: no candidate is
/// left with an entry that is no longer there for it.
pub proof fn removing_is_tidy(
    q: Ledger,
    repo: Seq<char>,
    base: Seq<char>,
    id: EntryId,
    reason: Seq<char>,
    at: Seq<char>,
)
    requires
        q.wf(),
        tidy(q),
        q.waits(repo, base, id),
    ensures
        tidy(q.removed(id, reason, at)),
{
    let b = q.removed(id, reason, at);
    assert forall|j: int| 0 <= j < q.entries.len() implies #[trigger] b.entries[j] == q.entries[j]
        || q.entries[j].state == EntryState::Queued && b.entries[j].state
        != EntryState::Batched by {
        if q.entries[j].id == id {
            entry_is_found(q.entries, j);
        }
    }
    waiting_change_is_tidy(q, b);
}

/// Clearing away what a worker left unfinished leaves the queue tidy, and with
/// nothing under way and nothing out of line: it is not stuck.
pub proof fn reclaiming_frees_the_queue(q: Ledger, repo: Seq<char>, base: Seq<char>, at: Seq<char>)
    requires
        q.wf(),
        tidy(q),
    ensures
        q.superseded(repo, base, at).wf(),
        tidy(q.superseded(repo, base, at)),
        forall|k: int|
            0 <= k < q.candidates.len() ==> {
                let c = #[trigger] q.superseded(repo, base, at).candidates[k];
                c.in_queue(repo, base) ==> !c.state.active()
            },
        forall|j: int|
            0 <= j < q.entries.len() ==> {
                let e = #[trigger] q.superseded(repo, base, at).entries[j];
                e.in_queue(repo, base) ==> e.state != EntryState::Batched
            },
{
    let b = q.superseded(repo, base, at);
    assert(commits_named(b.candidates)) by {
        assert forall|l: int|
            0 <= l < b.candidates.len() && (#[trigger] b.candidates[l]).state.names_commit() implies
            b.candidates[l].candidate_sha is Some by {
            assert(q.candidates[l].state.names_commit());
        }
    }
    same_rows_wf(q, b);
    assert forall|k: int, j: int|
        0 <= k < q.candidates.len() && 0 <= j < q.entries.len()
            && q.candidates[k].state.active() && #[trigger] is_member(
            q.members,
            q.candidates[k].id,
            q.entries[j].id,
        ) implies q.is_stranded(q.entries[j], repo, base) == q.candidates[k].in_queue(
        repo,
        base,
    ) by {
        if q.is_stranded(q.entries[j], repo, base) {
            let i = choose|i: int|
                0 <= i < q.candidates.len() && q.is_orphan(
                    #[trigger] q.candidates[i],
                    repo,
                    base,
                ) && q.member(q.candidates[i].id, q.entries[j].id);
            assert(is_member(q.members, q.candidates[i].id, q.entries[j].id));
            assert(q.candidates[i].in_queue(
                q.candidates[k].repo_path,
                q.candidates[k].base_branch,
            ));
        }
        if q.candidates[k].in_queue(repo, base) {
            assert(q.is_orphan(q.candidates[k], repo, base));
            assert(q.member(q.candidates[k].id, q.entries[j].id));
        }
    }
    assert forall|l: int, j: int|
        0 <= l < b.candidates.len() && 0 <= j < b.entries.len() && b.candidates[l].state.active()
            && #[trigger] is_member(
            b.members,
            b.candidates[l].id,
            b.entries[j].id,
        ) implies b.entries[j].state == EntryState::Batched && b.entries[j].in_queue(
        b.candidates[l].repo_path,
        b.candidates[l].base_branch,
    ) by {
        assert(is_member(q.members, q.candidates[l].id, q.entries[j].id));
    }
    assert forall|j: int|
        0 <= j < b.entries.len() && (#[trigger] b.entries[j]).state
            == EntryState::Batched implies is_held(b, b.entries[j].id)
        && !b.entries[j].in_queue(repo, base) by {
        assert(b.entries[j] == q.entries[j]);
        assert(is_held(q, q.entries[j].id));
        let l = choose|l: int|
            0 <= l < q.candidates.len() && q.candidates[l].state.active() && #[trigger] is_member(
                q.members,
                q.candidates[l].id,
                q.entries[j].id,
            );
        assert(!q.candidates[l].in_queue(repo, base));
        assert(is_member(b.members, b.candidates[l].id, b.entries[j].id));
    }
    assert forall|x: int, y: int|
        0 <= x < b.candidates.len() && 0 <= y < b.candidates.len()
            && (#[trigger] b.candidates[x]).state.active()
            && (#[trigger] b.candidates[y]).state.active() && b.candidates[x].in_queue(
            b.candidates[y].repo_path,
            b.candidates[y].base_branch,
        ) implies x == y by {
        assert(q.candidates[x].state.active() && q.candidates[y].state.active());
    }
}

/// The order in which entries wait is an order.
proof fn waiting_is_an_order()
    ensures
        seqs::is_order(|a: EntryRecord, b: EntryRecord| Section::Waiting.before(a, b)),
{
}

/// Everything that waits in a queue is in its line, nothing else is, and the
/// line is by priority and oldest first within one.
pub proof fn the_line_is_in_order(q: Ledger, repo: Seq<char>, base: Seq<char>)
    ensures
        forall|e: EntryRecord| #[trigger]
            q.waiting(repo, base).contains(e) <==> q.entries.contains(e) && e.in_queue(repo, base)
                && e.state == EntryState::Queued,
        forall|i: int, j: int|
            0 <= i < j < q.waiting(repo, base).len() ==> !waits_before(
                #[trigger] q.waiting(repo, base)[j],
                #[trigger] q.waiting(repo, base)[i],
            ),
{
    let part = Section::Waiting;
    let pred = |e: EntryRecord| e.in_queue(repo, base) && part.covers(e.state);
    let before = |a: EntryRecord, b: EntryRecord| part.before(a, b);
    let list = q.entries.filter(pred);
    waiting_is_an_order();
    seqs::ordered_is_ordered(list, before);
    assert forall|e: EntryRecord| #[trigger]
        q.waiting(repo, base).contains(e) <==> q.entries.contains(e) && e.in_queue(repo, base)
            && e.state == EntryState::Queued by {
        seqs::ordered_has(list, before, e);
        if q.entries.contains(e) && pred(e) {
            let i = choose|i: int| 0 <= i < q.entries.len() && q.entries[i] == e;
            q.entries.lemma_filter_contains(pred, i);
        }
        if list.contains(e) {
            let i = choose|i: int| 0 <= i < list.len() && list[i] == e;
            q.entries.lemma_filter_pred(pred, i);
            q.entries.lemma_filter_contains_rev(pred, e);
        }
    }
    assert forall|i: int, j: int| 0 <= i < j < q.waiting(repo, base).len() implies !waits_before(
        #[trigger] q.waiting(repo, base)[j],
        #[trigger] q.waiting(repo, base)[i],
    ) by {
        assert(!before(ordered_at(list, before, j), ordered_at(list, before, i)));
    }
}

spec fn ordered_at(list: Seq<EntryRecord>, before: spec_fn(EntryRecord, EntryRecord) -> bool, i: int) -> EntryRecord {
    seqs::ordered(list, before)[i]
}

/// An entry that is moved to the front is at the front.
pub proof fn promoted_is_first(
    q: Ledger,
    repo: Seq<char>,
    base: Seq<char>,
    id: EntryId,
    at: Seq<char>,
)
    requires
        q.wf(),
        q.waits(repo, base, id),
        q.waiting(repo, base)[0].priority < i64::MAX,
    ensures
        ({
            let top = (q.waiting(repo, base)[0].priority + 1) as i64;
            let line = q.reprioritised(id, top, at).waiting(repo, base);
            line.len() > 0 && line[0].id == id
        }),
{
    let top = (q.waiting(repo, base)[0].priority + 1) as i64;
    let b = q.reprioritised(id, top, at);
    let line = b.waiting(repo, base);
    the_line_is_in_order(q, repo, base);
    the_line_is_in_order(b, repo, base);
    crate::queue::ledger::entry_found_is_there(q.entries, id);
    let e = q.entry(id)->0;
    let i = choose|i: int| 0 <= i < q.entries.len() && q.entries[i] == e;
    let promoted = EntryRecord { priority: top, updated_at: at, ..e };
    assert(b.entries[i] == promoted);
    assert(b.entries.contains(promoted));
    assert(line.contains(promoted));
    let k = choose|k: int| 0 <= k < line.len() && line[k] == promoted;
    if line[0].id != id {
        let first = line[0];
        assert(line.contains(first));
        let m = choose|m: int| 0 <= m < b.entries.len() && b.entries[m] == first;
        assert(q.entries[m] == first);
        assert(q.entries.contains(first));
        assert(q.waiting(repo, base).contains(first));
        let n = choose|n: int|
            0 <= n < q.waiting(repo, base).len() && q.waiting(repo, base)[n] == first;
        assert(first.priority <= q.waiting(repo, base)[0].priority) by {
            if n > 0 {
                assert(!waits_before(q.waiting(repo, base)[n], q.waiting(repo, base)[0]));
            }
        }
        assert(waits_before(promoted, first));
        assert(!waits_before(line[k], line[0]));
    }
}

/// A batch is the front of the line, no longer than the limit. It is not empty
/// while anything waits, and an entry being retried is never in it beside
/// another entry.
pub proof fn retries_go_alone(q: Ledger, repo: Seq<char>, base: Seq<char>, limit: nat)
    ensures
        ({
            let line = q.waiting(repo, base);
            let batch = batch_of(q.front(repo, base, limit));
            &&& batch.len() <= limit
            &&& batch.len() <= line.len()
            &&& batch == line.take(batch.len() as int)
            &&& line.len() > 0 && limit > 0 ==> batch.len() > 0
            &&& batch.len() > 1 ==> forall|i: int|
                0 <= i < batch.len() ==> (#[trigger] batch[i]).attempts == 0
        }),
{
    let line = q.waiting(repo, base);
    let front = q.front(repo, base, limit);
    let n = fresh_count(front);
    fresh_count_is(front);
    crate::queue::ledger::fresh_run_is(front, n);
    let batch = batch_of(front);
    assert(front =~= line.take(front.len() as int));
    if front.len() > 0 && front[0].attempts > 0 {
        assert(batch =~= line.take(1));
    } else {
        assert(fresh_run(front) == front.take(n));
        assert(batch =~= line.take(n));
    }
}

/// A batch goes as far as it may: where its first entry has no attempt behind it
/// and the batch ends before the limit and before the line does, the entry right
/// behind it in line has one.
pub proof fn a_batch_goes_as_far_as_it_may(
    q: Ledger,
    repo: Seq<char>,
    base: Seq<char>,
    limit: nat,
)
    ensures
        ({
            let line = q.waiting(repo, base);
            let batch = batch_of(q.front(repo, base, limit));
            let n = batch.len() as int;
            &&& n <= limit && n <= line.len()
            &&& batch == line.take(n)
            &&& n == 0 <==> limit == 0 || line.len() == 0
            &&& line.len() > 0 && line[0].attempts > 0 ==> n <= 1
            &&& line.len() > 0 && line[0].attempts == 0 ==> forall|i: int|
                0 <= i < n ==> (#[trigger] line[i]).attempts == 0
            &&& line.len() > 0 && line[0].attempts == 0 && n < limit && n < line.len()
                ==> line[n].attempts > 0
        }),
{
    let line = q.waiting(repo, base);
    let front = q.front(repo, base, limit);
    let batch = batch_of(front);
    let n = fresh_count(front);
    fresh_count_is(front);
    crate::queue::ledger::fresh_run_is(front, n);
    assert(front =~= line.take(front.len() as int));
    if front.len() > 0 && front[0].attempts > 0 {
        assert(batch =~= line.take(1));
    } else {
        assert(fresh_run(front) == front.take(n));
        assert(batch =~= line.take(n));
        assert forall|i: int| 0 <= i < n implies (#[trigger] line[i]).attempts == 0 by {
            assert(front[i] == line[i]);
        }
        if n < front.len() {
            assert(front[n] == line[n]);
        }
    }
}

spec fn fresh_count(s: Seq<EntryRecord>) -> int
    decreases s.len(),
{
    if s.len() > 0 && s[0].attempts == 0 {
        1 + fresh_count(s.drop_first())
    } else {
        0
    }
}

proof fn fresh_count_is(s: Seq<EntryRecord>)
    ensures
        0 <= fresh_count(s) <= s.len(),
        forall|i: int| 0 <= i < fresh_count(s) ==> (#[trigger] s[i]).attempts == 0,
        fresh_count(s) < s.len() ==> s[fresh_count(s)].attempts > 0,
    decreases s.len(),
{
    if s.len() > 0 && s[0].attempts == 0 {
        let rest = s.drop_first();
        fresh_count_is(rest);
        assert forall|i: int| 0 <= i < fresh_count(s) implies (#[trigger] s[i]).attempts == 0 by {
            if i > 0 {
                assert(rest[i - 1].attempts == 0);
            }
        }
    }
}

} // verus!
