//! Who has a base branch, and what taking, keeping and giving it up does to the
//! rows.

use vstd::prelude::*;

use crate::queue::lease;
use crate::queue::lease::Acquisition;
use crate::queue::lease::Held;
use crate::queue::lease::Lease;
use crate::queue::lease::LeaseError;
use crate::queue::lease::Liveness;
use crate::queue::ledger::lease_found_is_there;
use crate::queue::ledger::CandidateRecord;
use crate::queue::ledger::EntryRecord;
use crate::queue::ledger::LeaseRecord;
use crate::queue::ledger::Ledger;
use crate::queue::rows::only_moved;
use crate::queue::rows::same_candidate;
use crate::queue::rows::stranded;
use crate::queue::rows::under_way;
use crate::queue::state::CandidateState;
use crate::queue::state::EntryState;
use crate::queue::store::Store;
use crate::time::plus;
use crate::time::read_back;
use crate::time::written;
use crate::time::Instant;
use crate::time::Span;
use crate::time::Timestamp;

verus! {

/// The lease is on a base branch.
pub open spec fn is_on(l: LeaseRecord, repo: Seq<char>, base: Seq<char>) -> bool {
    l.repo_path == repo && l.base_branch == base
}

/// One instant is earlier than another.
pub open spec fn earlier(a: Instant, b: Instant) -> bool {
    a.secs < b.secs || (a.secs == b.secs && a.nanos < b.nanos)
}

/// The row is the base branch's lease.
pub open spec fn leased_by(q: Ledger, repo: Seq<char>, base: Seq<char>, l: LeaseRecord) -> bool {
    exists|k: int| 0 <= k < q.leases.len() && #[trigger] q.leases[k] == l && is_on(l, repo, base)
}

/// The lease that is found is the one that is there.
pub proof fn the_lease_is_the_row(q: Ledger, repo: Seq<char>, base: Seq<char>)
    requires
        crate::queue::ledger::leases_apart(q.leases),
    ensures
        q.lease(repo, base) matches Some(l) ==> leased_by(q, repo, base, l),
        forall|l: LeaseRecord| #[trigger] leased_by(q, repo, base, l) ==> q.lease(repo, base) == Some(l),
{
    lease_found_is_there(q.leases, repo, base);
    if let Some(l) = q.lease(repo, base) {
        let k = choose|k: int| 0 <= k < q.leases.len() && q.leases[k] == l;
        assert(q.leases[k] == l && is_on(l, repo, base));
    }
    assert forall|l: LeaseRecord| #[trigger] leased_by(q, repo, base, l) implies q.lease(repo, base)
        == Some(l) by {
        let k = choose|k: int| 0 <= k < q.leases.len() && #[trigger] q.leases[k] == l && is_on(
            l,
            repo,
            base,
        );
        assert(q.leases[k].covers(repo, base));
        let found = q.lease(repo, base)->0;
        let j = choose|j: int| 0 <= j < q.leases.len() && q.leases[j] == found;
        if j < k {
            assert(!q.leases[j].covers(q.leases[k].repo_path, q.leases[k].base_branch));
        } else if k < j {
            assert(!q.leases[k].covers(q.leases[j].repo_path, q.leases[j].base_branch));
        }
    }
}

/// A base branch is refused exactly where somebody has it: a lease on it has not
/// run out, and its holder is not known to be gone. The refusal says who and until
/// when, and changes nothing.
pub proof fn a_base_branch_is_refused_while_it_is_had(
    store: &mut Store,
    repo: &str,
    base: &str,
    ttl: Span,
    now: &Timestamp,
    pid: i32,
    holder: Liveness,
    r: Result<Acquisition, LeaseError>,
)
    requires
        store@.wf(),
        call_ensures(lease::acquire, (store, repo, base, ttl, now, pid, holder), r),
        plus(now@, ttl) is Some,
    ensures
        ({
            let a = old(store)@;
            let b = final(store)@;
            &&& (r matches Ok(Acquisition::Held { .. })) <==> exists|l: LeaseRecord|
                {
                    &&& #[trigger] leased_by(a, repo@, base@, l)
                    &&& read_back(l.expires_at) matches Some(until) && earlier(now@, until)
                    &&& holder == Liveness::Present
                }
            &&& r matches Ok(Acquisition::Held { holder_pid, expires_at }) ==> {
                &&& b == a
                &&& forall|l: LeaseRecord| #[trigger]
                    leased_by(a, repo@, base@, l) ==> l.holder_pid == holder_pid && read_back(
                        l.expires_at,
                    ) == Some(expires_at@)
            }
            &&& r is Err <==> exists|l: LeaseRecord| #[trigger]
                leased_by(a, repo@, base@, l) && read_back(l.expires_at) is None
            &&& r is Err ==> b == a && r->Err_0 is BadStamp
        }),
{
    let a = old(store)@;
    the_lease_is_the_row(a, repo@, base@);
    if let Some(l) = a.lease(repo@, base@) {
        assert(leased_by(a, repo@, base@, l));
    }
}

/// A base branch that is taken has one lease, ours: it names us, carries our
/// token and lasts as long as was asked for. Leases on other base branches stay as
/// they were and where they stood. What a previous holder left unfinished is
/// cleared away at no cost to any entry, and said; where there was none, nothing
/// else changes.
pub proof fn what_is_taken_is_ours(
    store: &mut Store,
    repo: &str,
    base: &str,
    ttl: Span,
    now: &Timestamp,
    pid: i32,
    holder: Liveness,
    lease: Lease,
    reclaimed: Option<lease::Reclaimed>,
)
    requires
        store@.wf(),
        call_ensures(
            lease::acquire,
            (store, repo, base, ttl, now, pid, holder),
            Ok::<Acquisition, LeaseError>(Acquisition::Acquired { lease, reclaimed }),
        ),
    ensures
        ({
            let a = old(store)@;
            let b = final(store)@;
            let others = a.leases.filter(|l: LeaseRecord| !is_on(l, repo@, base@));
            let ours = b.leases[b.leases.len() - 1];
            let had = exists|l: LeaseRecord| leased_by(a, repo@, base@, l);
            &&& Some(lease.expires_at@) == plus(now@, ttl)
            &&& lease.repo_path@ == repo@
            &&& lease.base_branch@ == base@
            &&& lease.holder_pid == pid
            &&& b.leases == others.push(ours)
            &&& is_on(ours, repo@, base@)
            &&& ours.holder_pid == pid
            &&& ours.token == lease.token@
            &&& ours.acquired_at == written(now@)
            &&& ours.renewed_at == written(now@)
            &&& ours.expires_at == written(lease.expires_at@)
            &&& b.runs == a.runs
            &&& b.members == a.members
            &&& (reclaimed is Some <==> had)
            &&& !had ==> b.entries == a.entries && b.candidates == a.candidates
            &&& had ==> {
                &&& forall|l: LeaseRecord| #[trigger]
                    leased_by(a, repo@, base@, l) ==> reclaimed->0.previous_holder_pid
                        == l.holder_pid
                &&& b.entries.len() == a.entries.len()
                &&& b.candidates.len() == a.candidates.len()
                &&& reclaimed->0.candidates_superseded == a.candidates.filter(
                    |c: CandidateRecord|
                        under_way(c) && c.repo_path == repo@ && c.base_branch == base@,
                ).len()
                &&& reclaimed->0.entries_requeued == a.entries.filter(
                    |e: EntryRecord| stranded(a, e, repo@, base@),
                ).len()
                &&& forall|k: int|
                    0 <= k < a.candidates.len() ==> {
                        let x = a.candidates[k];
                        let y = #[trigger] b.candidates[k];
                        if under_way(x) && x.repo_path == repo@ && x.base_branch == base@ {
                            &&& same_candidate(x, y)
                            &&& y.candidate_sha == x.candidate_sha
                            &&& y.state == CandidateState::Superseded
                        } else {
                            y == x
                        }
                    }
                &&& forall|i: int|
                    0 <= i < a.entries.len() ==> {
                        let x = a.entries[i];
                        let y = #[trigger] b.entries[i];
                        if stranded(a, x, repo@, base@) {
                            only_moved(x, y) && y.state == EntryState::Queued
                        } else {
                            y == x
                        }
                    }
            }
        }),
{
    let a = old(store)@;
    let b = final(store)@;
    the_lease_is_the_row(a, repo@, base@);
    let not_on = |l: LeaseRecord| !is_on(l, repo@, base@);
    let other = |l: LeaseRecord| !l.covers(repo@, base@);
    assert(not_on =~= other);
    let orphan = |c: CandidateRecord| a.is_orphan(c, repo@, base@);
    let left = |c: CandidateRecord| under_way(c) && c.repo_path == repo@ && c.base_branch == base@;
    assert(orphan =~= left);
    let held = |e: EntryRecord| a.is_stranded(e, repo@, base@);
    let behind = |e: EntryRecord| stranded(a, e, repo@, base@);
    assert forall|e: EntryRecord| #[trigger] held(e) == behind(e) by {
        crate::queue::rows::same_stranding(a, e, repo@, base@);
    }
    assert(held =~= behind);
    if a.lease(repo@, base@) is Some {
        assert(leased_by(a, repo@, base@, a.lease(repo@, base@)->0));
        assert forall|i: int| 0 <= i < a.entries.len() implies {
            let x = a.entries[i];
            let y = #[trigger] b.entries[i];
            if stranded(a, x, repo@, base@) {
                only_moved(x, y) && y.state == EntryState::Queued
            } else {
                y == x
            }
        } by {
            crate::queue::rows::same_stranding(a, a.entries[i], repo@, base@);
        }
    } else {
        lease_found_is_there(a.leases, repo@, base@);
        assert forall|i: int| 0 <= i < a.leases.len() implies other(#[trigger] a.leases[i]) by {}
        crate::seqs::filter_all(a.leases, other);
    }
}

/// A lease is renewed exactly while it is ours, that is while the base branch's
/// lease carries our token. Its expiry moves, to what was asked for, and nothing
/// else of it does; no other lease and no other row changes. Where it is lost,
/// nothing changes at all.
pub proof fn only_the_holder_renews(
    store: &mut Store,
    lease: &Lease,
    ttl: Span,
    now: &Timestamp,
    r: Result<Lease, LeaseError>,
)
    requires
        store@.wf(),
        call_ensures(lease::renew, (store, lease, ttl, now), r),
        plus(now@, ttl) is Some,
    ensures
        ({
            let a = old(store)@;
            let b = final(store)@;
            let ours = |l: LeaseRecord|
                is_on(l, lease.repo_path@, lease.base_branch@) && l.token == lease.token@;
            &&& r is Ok <==> exists|k: int| 0 <= k < a.leases.len() && ours(#[trigger] a.leases[k])
            &&& b.entries == a.entries
            &&& b.candidates == a.candidates
            &&& b.members == a.members
            &&& b.runs == a.runs
            &&& b.leases.len() == a.leases.len()
            &&& forall|k: int|
                0 <= k < a.leases.len() ==> {
                    let x = a.leases[k];
                    let y = #[trigger] b.leases[k];
                    if ours(x) {
                        &&& y.repo_path == x.repo_path
                        &&& y.base_branch == x.base_branch
                        &&& y.holder_pid == x.holder_pid
                        &&& y.token == x.token
                        &&& y.acquired_at == x.acquired_at
                        &&& y.renewed_at == written(now@)
                        &&& Some(y.expires_at) == Some(written(plus(now@, ttl)->0))
                    } else {
                        y == x
                    }
                }
            &&& r matches Ok(renewed) ==> {
                &&& renewed.repo_path@ == lease.repo_path@
                &&& renewed.base_branch@ == lease.base_branch@
                &&& renewed.holder_pid == lease.holder_pid
                &&& renewed.token@ == lease.token@
                &&& Some(renewed.expires_at@) == plus(now@, ttl)
            }
            &&& r matches Err(e) ==> e is Lost
        }),
{
    let a = old(store)@;
    let b = final(store)@;
    let repo = lease.repo_path@;
    let base = lease.base_branch@;
    the_lease_is_the_row(a, repo, base);
    let ours = |l: LeaseRecord| is_on(l, repo, base) && l.token == lease.token@;
    if exists|k: int| 0 <= k < a.leases.len() && ours(#[trigger] a.leases[k]) {
        let k = choose|k: int| 0 <= k < a.leases.len() && ours(#[trigger] a.leases[k]);
        assert(leased_by(a, repo, base, a.leases[k]));
    }
    if a.holds_token(repo, base, lease.token@) {
        let l = a.lease(repo, base)->0;
        assert(leased_by(a, repo, base, l));
        let k = choose|k: int| 0 <= k < a.leases.len() && #[trigger] a.leases[k] == l && is_on(
            l,
            repo,
            base,
        );
        assert(ours(a.leases[k]));
    }
}

/// A lease is given up exactly while it is ours. It goes then, and no other lease
/// and no other row changes. Where it was lost, nothing changes.
pub proof fn only_the_holder_gives_up(store: &mut Store, lease: &Lease, r: bool)
    requires
        store@.wf(),
        call_ensures(lease::release, (store, lease), r),
    ensures
        ({
            let a = old(store)@;
            let b = final(store)@;
            let ours = |l: LeaseRecord|
                is_on(l, lease.repo_path@, lease.base_branch@) && l.token == lease.token@;
            &&& r <==> exists|k: int| 0 <= k < a.leases.len() && ours(#[trigger] a.leases[k])
            &&& b.entries == a.entries
            &&& b.candidates == a.candidates
            &&& b.members == a.members
            &&& b.runs == a.runs
            &&& b.leases == a.leases.filter(|l: LeaseRecord| !ours(l))
            &&& r ==> forall|l: LeaseRecord| !#[trigger]
                leased_by(b, lease.repo_path@, lease.base_branch@, l)
        }),
{
    let a = old(store)@;
    let b = final(store)@;
    let repo = lease.repo_path@;
    let base = lease.base_branch@;
    the_lease_is_the_row(a, repo, base);
    let ours = |l: LeaseRecord| is_on(l, repo, base) && l.token == lease.token@;
    let kept = |l: LeaseRecord| !ours(l);
    let left = |l: LeaseRecord| !(l.covers(repo, base) && l.token == lease.token@);
    assert(kept =~= left);
    if exists|k: int| 0 <= k < a.leases.len() && ours(#[trigger] a.leases[k]) {
        let k = choose|k: int| 0 <= k < a.leases.len() && ours(#[trigger] a.leases[k]);
        assert(leased_by(a, repo, base, a.leases[k]));
    }
    if a.holds_token(repo, base, lease.token@) {
        let l = a.lease(repo, base)->0;
        assert(leased_by(a, repo, base, l));
        let k = choose|k: int| 0 <= k < a.leases.len() && #[trigger] a.leases[k] == l && is_on(
            l,
            repo,
            base,
        );
        assert(ours(a.leases[k]));
        lease::released_is_free(a, repo, base);
        the_lease_is_the_row(b, repo, base);
    }
}

/// Whoever holds a base branch is named as the row has it, and a lease has run out
/// exactly from its expiry on.
pub proof fn the_holder_is_named(
    store: &Store,
    repo: &str,
    base: &str,
    now: &Timestamp,
    holder: Liveness,
    probed: Option<i32>,
    r: Result<Option<Held>, LeaseError>,
)
    requires
        store@.wf(),
        call_ensures(lease::current, (store, repo, base, now, holder), r),
        call_ensures(lease::holder, (store, repo, base), probed),
    ensures
        (forall|l: LeaseRecord| !#[trigger] leased_by(store@, repo@, base@, l)) ==> probed is None
            && r == Ok::<Option<Held>, LeaseError>(None),
        forall|l: LeaseRecord| #[trigger]
            leased_by(store@, repo@, base@, l) ==> {
                &&& probed == Some(l.holder_pid)
                &&& read_back(l.expires_at) is None ==> r is Err
                &&& read_back(l.expires_at) matches Some(until) ==> r matches Ok(Some(held)) && {
                    &&& held.holder_pid == l.holder_pid
                    &&& held.expires_at@ == until
                    &&& (held.expired <==> !earlier(now@, until))
                    &&& (held.holder_present <==> holder == Liveness::Present)
                }
            },
{
    the_lease_is_the_row(store@, repo@, base@);
}

/// A holder counts as gone only where the probe did not reach it and says that
/// there is no such process. Whatever else is found, it counts as present.
pub proof fn only_an_absence_is_an_absence(
    reached: bool,
    errno: Option<i32>,
    no_such_process: i32,
    r: Liveness,
)
    requires
        call_ensures(lease::liveness, (reached, errno, no_such_process), r),
    ensures
        r == Liveness::Gone <==> !reached && errno is Some && errno->0 == no_such_process,
        r == Liveness::Gone || r == Liveness::Present,
{
}

} // verus!
