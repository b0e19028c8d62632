//! Exclusion between workers.
//!
//! Exactly one worker may integrate into a given base branch of a given repo.
//! The lease is that exclusion. It is a row rather than a lock file so it is
//! visible to anyone who can read the queue, survives a reboot with an explicit
//! expiry, and carries none of the ownership and stale-path hazards of a socket
//! or pidfile in a shared directory.
//!
//! Expiry is the authority. A holder renews well before `expires_at`, and a
//! lease past `expires_at` may be taken by anyone. Checking whether the
//! holder's pid still exists is only an optimisation that allows reclaiming
//! sooner, and it is deliberately one-directional: a missing pid permits early
//! reclaim, while a present pid never extends a lease, because pids are reused
//! and a live pid is not proof that the same holder is still running.

use vstd::prelude::*;

use crate::queue::ledger::lease_found_is_there;
use crate::queue::ledger::CandidateRecord;
use crate::queue::ledger::EntryRecord;
use crate::queue::ledger::Ledger;
use crate::queue::ledger::LeaseRecord;
use crate::queue::state::EntryState;
use crate::queue::store::LeaseRow;
use crate::queue::store::Store;
use crate::text;
use crate::time::four_digit_year;
use crate::time::plus;
use crate::time::read_back;
use crate::time::written;
use crate::time::Instant;
use crate::time::Span;
use crate::time::Timestamp;

verus! {

/// Whether a lease's recorded holder still exists.
///
/// There are only two answers worth acting on. Anything that is not a
/// confirmed absence is treated as presence, so uncertainty never shortens
/// somebody else's lease.
#[derive(Debug, Clone, Copy, PartialEq, Eq, Structural)]
pub enum Liveness {
    Gone,
    Present,
}

/// A lease this process holds.
#[derive(Debug, PartialEq, Eq)]
pub struct Lease {
    pub repo_path: String,
    pub base_branch: String,
    pub holder_pid: i32,
    /// Fencing token. Renew and release are conditional on it, so a worker
    /// whose lease was reclaimed underneath it finds out rather than carrying
    /// on and merging.
    pub token: String,
    pub expires_at: Timestamp,
}

/// What a lease is.
pub struct LeaseView {
    pub repo_path: Seq<char>,
    pub base_branch: Seq<char>,
    pub holder_pid: i32,
    pub token: Seq<char>,
    pub expires_at: Instant,
}

impl View for Lease {
    type V = LeaseView;

    open spec fn view(&self) -> LeaseView {
        LeaseView {
            repo_path: self.repo_path@,
            base_branch: self.base_branch@,
            holder_pid: self.holder_pid,
            token: self.token@,
            expires_at: self.expires_at@,
        }
    }
}

impl Clone for Lease {
    fn clone(&self) -> (r: Self)
        ensures
            r == *self,
    {
        Lease {
            repo_path: self.repo_path.clone(),
            base_branch: self.base_branch.clone(),
            holder_pid: self.holder_pid,
            token: self.token.clone(),
            expires_at: self.expires_at,
        }
    }
}

/// What a reclaim had to clean up after the previous holder.
///
/// A worker killed mid-gate leaves a candidate that will never reach a verdict
/// and entries that will never leave the batch. Reclaiming the lease without
/// clearing those would wedge the queue.
#[derive(Debug, Clone, Copy, PartialEq, Eq, Structural)]
pub struct Reclaimed {
    pub previous_holder_pid: i32,
    pub candidates_superseded: usize,
    pub entries_requeued: usize,
}

#[derive(Debug, PartialEq, Eq)]
#[allow(inconsistent_fields)]
pub enum Acquisition {
    Acquired {
        lease: Lease,
        /// `None` when the lease was simply free.
        reclaimed: Option<Reclaimed>,
    },
    Held { holder_pid: i32, expires_at: Timestamp },
}

/// Who holds a base branch, for a listing.
#[derive(Debug, Clone, Copy, PartialEq, Eq, Structural)]
pub struct Held {
    pub holder_pid: i32,
    pub holder_present: bool,
    pub expired: bool,
    pub expires_at: Timestamp,
}

/// Why a lease could not be taken, kept or read. Nothing changed.
#[derive(Debug, PartialEq, Eq)]
pub enum LeaseError {
    /// The row's expiry is not a timestamp.
    BadStamp { raw: String },
    /// The lease would last past the end of the calendar.
    TtlOutOfRange,
    /// The lease was reclaimed while we held it.
    Lost { repo_path: String, base_branch: String },
}

impl LeaseError {
    /// What the error says.
    pub open spec fn said(self) -> Seq<char> {
        match self {
            LeaseError::BadStamp { raw } => "parsing the lease timestamp "@ + text::quoted_text(
                raw@,
            ),
            LeaseError::TtlOutOfRange => "the lease would last past the end of the calendar"@,
            LeaseError::Lost { repo_path, base_branch } => "the lease on "@ + repo_path@ + " ("@
                + base_branch@
                + ") is no longer ours; it was reclaimed while we held it"@,
            }
    }

    pub fn message(&self) -> (r: String)
        ensures
            r@ == self.said(),
    {
        match self {
            LeaseError::BadStamp { raw } => {
                let mut r = "parsing the lease timestamp ".to_string();
                r.append(&text::quoted(raw));
                r
            },
            LeaseError::TtlOutOfRange => {
                "the lease would last past the end of the calendar".to_string()
            },
            LeaseError::Lost { repo_path, base_branch } => {
                let mut r = "the lease on ".to_string();
                r.append(repo_path);
                r.append(" (");
                r.append(base_branch);
                r.append(") is no longer ours; it was reclaimed while we held it");
                r
            },
        }
    }
}

/// What probing a process says of it: signal 0 runs the existence and
/// permission checks without delivering anything. Only the error for no such
/// process is an absence; a process that is there and is not ours, and anything
/// that cannot be interpreted, leave the lease to expire on its own.
pub fn liveness(reached: bool, errno: Option<i32>, no_such_process: i32) -> (r: Liveness)
    ensures
        r == (if !reached && errno == Some(no_such_process) {
            Liveness::Gone
        } else {
            Liveness::Present
        }),
{
    if reached {
        return Liveness::Present;
    }
    match errno {
        Some(e) => if e == no_such_process {
            Liveness::Gone
        } else {
            Liveness::Present
        },
        None => Liveness::Present,
    }
}

/// The fencing token of an acquisition.
pub open spec fn token_of(pid: i32, now: Instant) -> Seq<char> {
    text::integer(pid as int) + "-"@ + text::integer(
        match now.unix_nanos() {
            Some(n) => n,
            None => 0,
        },
    )
}

/// Unique per acquisition.
///
/// It does not need to be unguessable, only distinct: the pid separates
/// concurrent processes, and the timestamp separates one process's successive
/// acquisitions.
pub fn mint_token(pid: i32, now: &Timestamp) -> (r: String)
    ensures
        r@ == token_of(pid, now@),
{
    let nanos: i64 = match now.unix_nanos() {
        Some(n) => n,
        None => 0,
    };
    let mut r = text::integer_text(pid as i64);
    r.append("-");
    r.append(&text::integer_text(nanos));
    r
}

/// The base branch is taken: its lease has not expired, and its holder is not
/// known to be gone.
pub open spec fn is_held(
    q: Ledger,
    repo: Seq<char>,
    base: Seq<char>,
    now: Instant,
    holder: Liveness,
) -> bool {
    &&& q.lease(repo, base) matches Some(l)
    &&& read_back(l.expires_at) matches Some(until) && now.before(until)
    &&& holder == Liveness::Present
}

/// The lease row that taking a base branch writes.
pub open spec fn lease_row(
    repo: Seq<char>,
    base: Seq<char>,
    pid: i32,
    now: Instant,
    expires: Instant,
) -> LeaseRecord {
    LeaseRecord {
        repo_path: repo,
        base_branch: base,
        holder_pid: pid,
        token: token_of(pid, now),
        acquired_at: written(now),
        renewed_at: written(now),
        expires_at: written(expires),
    }
}

/// The rows once a base branch has been taken: what a previous holder left is
/// cleared, and its lease is replaced.
pub open spec fn taken(q: Ledger, row: LeaseRecord, now: Instant) -> Ledger {
    if q.lease(row.repo_path, row.base_branch) is Some {
        q.superseded(row.repo_path, row.base_branch, written(now)).without_lease(
            row.repo_path,
            row.base_branch,
        ).with_lease(row)
    } else {
        q.with_lease(row)
    }
}

/// What trying to take a base branch comes to.
pub open spec fn acquire_gives(
    q: Ledger,
    repo: Seq<char>,
    base: Seq<char>,
    ttl: Span,
    now: Instant,
    pid: i32,
    holder: Liveness,
    r: Result<Acquisition, LeaseError>,
    q2: Ledger,
) -> bool {
    let expires = plus(now, ttl);
    match r {
        Ok(Acquisition::Held { holder_pid, expires_at }) => {
            &&& expires is Some
            &&& is_held(q, repo, base, now, holder)
            &&& holder_pid == q.lease(repo, base)->0.holder_pid
            &&& Some(expires_at@) == read_back(q.lease(repo, base)->0.expires_at)
            &&& q2 == q
        },
        Ok(Acquisition::Acquired { lease, reclaimed }) => {
            &&& expires == Some(lease@.expires_at)
            &&& !is_held(q, repo, base, now, holder)
            &&& (q.lease(repo, base) matches Some(l) ==> read_back(l.expires_at) is Some)
            &&& lease@ == (LeaseView {
                repo_path: repo,
                base_branch: base,
                holder_pid: pid,
                token: token_of(pid, now),
                expires_at: expires->0,
            })
            &&& four_digit_year(expires->0.secs) ==> read_back(written(expires->0)) == Some(
                (expires->0).in_micros(),
            )
            &&& match reclaimed {
                None => q.lease(repo, base) is None,
                Some(found) => {
                    &&& q.lease(repo, base) matches Some(l) && l.holder_pid
                        == found.previous_holder_pid
                    &&& found.candidates_superseded == q.candidates.filter(
                        |c: CandidateRecord| q.is_orphan(c, repo, base),
                    ).len()
                    &&& found.entries_requeued == q.entries.filter(
                        |e: EntryRecord| q.is_stranded(e, repo, base),
                    ).len()
                },
            }
            &&& q2 == taken(
                q,
                lease_row(repo, base, pid, now, expires->0),
                now,
            )
        },
        Err(LeaseError::TtlOutOfRange) => {
            &&& expires is None
            &&& q2 == q
        },
        Err(LeaseError::BadStamp { raw }) => {
            &&& expires is Some
            &&& q.lease(repo, base) matches Some(l) && l.expires_at == raw@ && read_back(
                raw@,
            ) is None
            &&& q2 == q
        },
        Err(_) => false,
    }
}

/// Take the lease, or report who holds it.
///
/// Losing is not an error. A caller that loses attaches to the existing worker
/// rather than failing: race to acquire, and fall through on loss.
///
/// `holder` is what probing the process that [`holder`] names says.
pub fn acquire(
    store: &mut Store,
    repo: &str,
    base: &str,
    ttl: Span,
    now: &Timestamp,
    pid: i32,
    holder: Liveness,
) -> (r: Result<Acquisition, LeaseError>)
    requires
        old(store)@.wf(),
    ensures
        final(store)@.wf(),
        acquire_gives(old(store)@, repo@, base@, ttl, now@, pid, holder, r, final(store)@),
{
    let ghost q = store@;
    let expires_at: Timestamp = match now.plus(ttl) {
        Some(at) => at,
        None => {
            return Err(LeaseError::TtlOutOfRange);
        },
    };
    let mut reclaimed: Option<Reclaimed> = None;
    let existing: Option<(i32, String)> = match store.lease_on(repo, base) {
        Some(row) => Some((row.holder_pid, row.expires_at.clone())),
        None => None,
    };
    match existing {
        Some((holder_pid, raw)) => {
            let held_until: Timestamp = match Timestamp::from_rfc3339(&raw) {
                Some(at) => at,
                None => {
                    return Err(LeaseError::BadStamp { raw });
                },
            };
            if now.is_before(&held_until) && holder == Liveness::Present {
                return Ok(Acquisition::Held { holder_pid, expires_at: held_until });
            }
            let (candidates_superseded, entries_requeued) = store.supersede_orphans(
                repo,
                base,
                now,
            );
            reclaimed = Some(
                Reclaimed { previous_holder_pid: holder_pid, candidates_superseded, entries_requeued },
            );
            store.remove_lease(repo, base);
        },
        None => {},
    }
    let token = mint_token(pid, now);
    let acquired_at = now.to_rfc3339();
    let row = LeaseRow {
        repo_path: repo.to_string(),
        base_branch: base.to_string(),
        holder_pid: pid,
        token: token.clone(),
        acquired_at: acquired_at.clone(),
        renewed_at: acquired_at,
        expires_at: expires_at.to_rfc3339(),
    };
    assert(row@ == lease_row(repo@, base@, pid, now@, expires_at@));
    let inserted = store.insert_lease(row);
    assert(inserted is Ok);
    Ok(
        Acquisition::Acquired {
            lease: Lease {
                repo_path: repo.to_string(),
                base_branch: base.to_string(),
                holder_pid: pid,
                token,
                expires_at,
            },
            reclaimed,
        },
    )
}

/// The process to probe before taking a base branch: the one that its lease
/// names, if it has one.
pub fn holder(store: &Store, repo: &str, base: &str) -> (r: Option<i32>)
    ensures
        r == (match store@.lease(repo@, base@) {
            Some(l) => Some(l.holder_pid),
            None => None,
        }),
{
    match store.lease_on(repo, base) {
        Some(row) => Some(row.holder_pid),
        None => None,
    }
}

/// Push the expiry out. Fails if the lease is no longer ours.
///
/// A worker must treat that failure as fatal to its current work: another
/// worker now owns the base branch, so anything this one is midway through
/// merging must not be completed.
pub fn renew(store: &mut Store, lease: &Lease, ttl: Span, now: &Timestamp) -> (r: Result<
    Lease,
    LeaseError,
>)
    requires
        old(store)@.wf(),
    ensures
        final(store)@.wf(),
        ({
            let q = old(store)@;
            let expires = plus(now@, ttl);
            let ours = q.holds_token(lease@.repo_path, lease@.base_branch, lease@.token);
            match r {
                Ok(renewed) => {
                    &&& ours
                    &&& expires is Some
                    &&& renewed@ == (LeaseView { expires_at: expires->0, ..lease@ })
                    &&& final(store)@ == q.renewed(
                        lease@.repo_path,
                        lease@.base_branch,
                        lease@.token,
                        written(now@),
                        written(expires->0),
                    )
                },
                Err(LeaseError::Lost { repo_path, base_branch }) => {
                    &&& !ours
                    &&& expires is Some
                    &&& repo_path@ == lease@.repo_path && base_branch@ == lease@.base_branch
                    &&& final(store)@ == q
                },
                Err(LeaseError::TtlOutOfRange) => {
                    &&& expires is None
                    &&& final(store)@ == q
                },
                Err(_) => false,
            }
        }),
{
    let expires_at: Timestamp = match now.plus(ttl) {
        Some(at) => at,
        None => {
            return Err(LeaseError::TtlOutOfRange);
        },
    };
    let ours = store.renew_lease(
        &lease.repo_path,
        &lease.base_branch,
        &lease.token,
        &now.to_rfc3339(),
        &expires_at.to_rfc3339(),
    );
    if !ours {
        return Err(
            LeaseError::Lost {
                repo_path: lease.repo_path.clone(),
                base_branch: lease.base_branch.clone(),
            },
        );
    }
    Ok(
        Lease {
            repo_path: lease.repo_path.clone(),
            base_branch: lease.base_branch.clone(),
            holder_pid: lease.holder_pid,
            token: lease.token.clone(),
            expires_at,
        },
    )
}

/// Give up the lease. Returns false if it was not ours to give up.
pub fn release(store: &mut Store, lease: &Lease) -> (r: bool)
    requires
        old(store)@.wf(),
    ensures
        final(store)@.wf(),
        r == old(store)@.holds_token(lease@.repo_path, lease@.base_branch, lease@.token),
        final(store)@ == (if r {
            old(store)@.without_lease(lease@.repo_path, lease@.base_branch)
        } else {
            old(store)@
        }),
        final(store)@ == old(store)@.released(lease@.repo_path, lease@.base_branch, lease@.token),
{
    store.release_lease(&lease.repo_path, &lease.base_branch, &lease.token)
}

/// Who holds a base branch, if anyone does.
pub fn current(store: &Store, repo: &str, base: &str, now: &Timestamp, holder: Liveness) -> (r:
    Result<Option<Held>, LeaseError>)
    ensures
        match r {
            Ok(None) => store@.lease(repo@, base@) is None,
            Ok(Some(held)) => {
                &&& store@.lease(repo@, base@) matches Some(l)
                &&& held.holder_pid == l.holder_pid
                &&& held.holder_present == (holder == Liveness::Present)
                &&& Some(held.expires_at@) == read_back(l.expires_at)
                &&& held.expired == !now@.before(held.expires_at@)
            },
            Err(LeaseError::BadStamp { raw }) => {
                store@.lease(repo@, base@) matches Some(l) && l.expires_at == raw@ && read_back(
                    raw@,
                ) is None
            },
            Err(_) => false,
        },
{
    match store.lease_on(repo, base) {
        None => Ok(None),
        Some(row) => {
            match Timestamp::from_rfc3339(&row.expires_at) {
                None => Err(LeaseError::BadStamp { raw: row.expires_at.clone() }),
                Some(expires_at) => Ok(
                    Some(
                        Held {
                            holder_pid: row.holder_pid,
                            holder_present: holder == Liveness::Present,
                            expired: !now.is_before(&expires_at),
                            expires_at,
                        },
                    ),
                ),
            }
        },
    }
}

/// Tokens tell acquisitions apart: two tokens are the same only if they were
/// minted by the same pid at the same nanosecond, as far as 64 bits count them.
pub proof fn tokens_differ(p: i32, at: Instant, q: i32, then_at: Instant)
    requires
        at.unix_nanos() is Some,
        then_at.unix_nanos() is Some,
    ensures
        token_of(p, at) == token_of(q, then_at) <==> p == q && at.unix_nanos()
            == then_at.unix_nanos(),
{
    let a = text::integer(p as int);
    let b = text::integer(q as int);
    let c = text::integer(at.unix_nanos()->0);
    let d = text::integer(then_at.unix_nanos()->0);
    text::integers_differ(p as int, q as int);
    text::integers_differ(q as int, p as int);
    text::integers_differ(at.unix_nanos()->0, then_at.unix_nanos()->0);
    reveal_strlit("-");
    let s = token_of(p, at);
    let t = token_of(q, then_at);
    if s == t {
        if a.len() < b.len() {
            assert(s[a.len() as int] == '-');
            assert(t[a.len() as int] == b[a.len() as int]);
            assert(text::is_digit(b[a.len() as int]));
            assert(false);
        } else if b.len() < a.len() {
            assert(t[b.len() as int] == '-');
            assert(s[b.len() as int] == a[b.len() as int]);
            assert(text::is_digit(a[b.len() as int]));
            assert(false);
        }
        assert(s.take(a.len() as int) =~= a);
        assert(t.take(b.len() as int) =~= b);
        assert(s.skip((a.len() + 1) as int) =~= c);
        assert(t.skip((b.len() + 1) as int) =~= d);
    }
}

/// A lease that is there is found, and only on its own base branch.
proof fn lease_is_found(q: Ledger, row: LeaseRecord, repo: Seq<char>, base: Seq<char>)
    ensures
        q.with_lease(row).lease(repo, base) == (if row.covers(repo, base) {
            Some(row)
        } else {
            q.lease(repo, base)
        }),
{
    assert(q.with_lease(row).leases.drop_last() =~= q.leases);
}

/// Once a worker has taken a base branch, nobody else can until the lease runs
/// out or the worker's process is gone: a second attempt before the expiry is
/// turned away, whatever was there before the first.
pub proof fn taken_is_held(
    q: Ledger,
    repo: Seq<char>,
    base: Seq<char>,
    pid: i32,
    now: Instant,
    expires: Instant,
    later: Instant,
)
    requires
        read_back(written(expires)) == Some(expires.in_micros()),
        later.before(expires.in_micros()),
    ensures
        is_held(
            taken(q, lease_row(repo, base, pid, now, expires), now),
            repo,
            base,
            later,
            Liveness::Present,
        ),
{
    let row = lease_row(repo, base, pid, now, expires);
    lease_is_found(q, row, repo, base);
    lease_is_found(
        q.superseded(repo, base, written(now)).without_lease(repo, base),
        row,
        repo,
        base,
    );
}

/// Expiry is the authority: past it, a base branch is not held, whoever is
/// alive. Before it, only a confirmed absence frees the branch.
pub proof fn expiry_decides(
    q: Ledger,
    repo: Seq<char>,
    base: Seq<char>,
    now: Instant,
    until: Instant,
    holder: Liveness,
)
    requires
        q.lease(repo, base) is Some,
        read_back(q.lease(repo, base)->0.expires_at) == Some(until),
    ensures
        is_held(q, repo, base, now, holder) <==> now.before(until) && holder == Liveness::Present,
{
}

/// Leases on different base branches do not exclude each other: taking one
/// leaves the others as they were.
pub proof fn leases_are_independent(
    q: Ledger,
    row: LeaseRecord,
    now: Instant,
    repo: Seq<char>,
    base: Seq<char>,
)
    requires
        q.wf(),
        !row.covers(repo, base),
    ensures
        taken(q, row, now).lease(repo, base) == q.lease(repo, base),
{
    lease_is_found(q, row, repo, base);
    let cleared = q.superseded(row.repo_path, row.base_branch, written(now));
    let without = cleared.without_lease(row.repo_path, row.base_branch);
    lease_is_found(without, row, repo, base);
    removing_keeps_others(q.leases, row.repo_path, row.base_branch, repo, base);
}

proof fn removing_keeps_others(
    leases: Seq<LeaseRecord>,
    repo: Seq<char>,
    base: Seq<char>,
    other_repo: Seq<char>,
    other_base: Seq<char>,
)
    requires
        !(repo == other_repo && base == other_base),
    ensures
        crate::queue::ledger::find_lease(
            leases.filter(|l: LeaseRecord| !l.covers(repo, base)),
            other_repo,
            other_base,
        ) == crate::queue::ledger::find_lease(leases, other_repo, other_base),
    decreases leases.len(),
{
    reveal(Seq::filter);
    let pred = |l: LeaseRecord| !l.covers(repo, base);
    if leases.len() > 0 {
        let rest = leases.drop_last();
        removing_keeps_others(rest, repo, base, other_repo, other_base);
        if pred(leases.last()) {
            assert(leases.filter(pred).drop_last() =~= rest.filter(pred));
        }
    }
}

/// A worker whose lease was taken by another finds out: its own token no longer
/// opens anything, so it can neither renew nor release the lease.
pub proof fn reclaimed_lease_is_lost(
    q: Ledger,
    row: LeaseRecord,
    now: Instant,
    lost: LeaseView,
)
    requires
        row.covers(lost.repo_path, lost.base_branch),
        row.token != lost.token,
    ensures
        !taken(q, row, now).holds_token(lost.repo_path, lost.base_branch, lost.token),
{
    lease_is_found(q, row, lost.repo_path, lost.base_branch);
    lease_is_found(
        q.superseded(row.repo_path, row.base_branch, written(now)).without_lease(
            row.repo_path,
            row.base_branch,
        ),
        row,
        lost.repo_path,
        lost.base_branch,
    );
}

/// Releasing a lease of ours frees the base branch.
pub proof fn released_is_free(q: Ledger, repo: Seq<char>, base: Seq<char>)
    ensures
        q.without_lease(repo, base).lease(repo, base) is None,
{
    let pred = |l: LeaseRecord| !l.covers(repo, base);
    let left = q.leases.filter(pred);
    assert forall|i: int| 0 <= i < left.len() implies !(#[trigger] left[i]).covers(repo, base) by {
        q.leases.lemma_filter_pred(pred, i);
        assert(pred(left[i]));
    }
    lease_found_is_there(left, repo, base);
}

/// Reclaiming costs nobody anything: no attempt is spent, no verdict is
/// recorded and no entry settles. What was stranded waits again.
pub proof fn reclaiming_costs_nothing(q: Ledger, row: LeaseRecord, now: Instant)
    ensures
        taken(q, row, now).members == q.members,
        taken(q, row, now).entries.len() == q.entries.len(),
        forall|i: int|
            0 <= i < q.entries.len() ==> {
                let before = #[trigger] q.entries[i];
                let after = taken(q, row, now).entries[i];
                &&& after.id == before.id
                &&& after.attempts == before.attempts
                &&& after.evict_reason == before.evict_reason
                &&& after.state == before.state || (before.state == EntryState::Batched
                    && after.state == EntryState::Queued)
            },
{
}

} // verus!
