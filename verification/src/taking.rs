//! What a tick begins with, and which candidate it works on.

use vstd::prelude::*;

use crate::config::ConfigView;
use crate::git::spelled_id;
use crate::passage::over_refused;
use crate::passage::over_with;
use crate::passage::same_but_leases;
use crate::queue::lease::Liveness;
use crate::queue::ledger::all_seen;
use crate::queue::ledger::batch_of;
use crate::queue::ledger::entry_found_is_there;
use crate::queue::ledger::has_entry;
use crate::queue::ledger::CandidateRecord;
use crate::queue::ledger::CandidateView;
use crate::queue::ledger::EntryView;
use crate::queue::ledger::LeaseRecord;
use crate::queue::ledger::Ledger;
use crate::queue::listing::members_stand_by_position;
use crate::queue::rows::gated_as_named;
use crate::queue::rows::gated_as_named_rows;
use crate::queue::rows::given_up_for_nothing;
use crate::queue::rows::given_up_for_nothing_rows;
use crate::queue::rows::opened_as_given;
use crate::queue::rows::opened_as_given_rows;
use crate::queue::rows::under_way;
use crate::queue::state::CandidateState;
use crate::queue::store::abandon_gives;
use crate::queue::store::active_gives;
use crate::queue::store::batch_gives;
use crate::queue::store::entry_views;
use crate::queue::store::mark_testing_gives;
use crate::queue::store::open_gives;
use crate::queue::store::Candidate;
use crate::queue::store::Entry;
use crate::queue::store::StoreError;
use crate::queue::tenure::earlier;
use crate::queue::tenure::leased_by;
use crate::retention::PruneEvent;
use crate::retention::PruneStage;
use crate::retention::PruneView;
use crate::seqs;
use crate::tick::begins;
use crate::tick::quiet;
use crate::tick::Event;
use crate::tick::PhaseView;
use crate::tick::PostView;
use crate::tick::TickError;
use crate::time::plus;
use crate::time::read_back;
use crate::time::written;
use crate::time::Instant;
use crate::time::Span;
use crate::worker::Abandoned;
use crate::worker::OutcomeView;

verus! {

/// A candidate of the queue is under way.
pub open spec fn is_busy(q: Ledger, repo: Seq<char>, base: Seq<char>) -> bool {
    exists|k: int|
        0 <= k < q.candidates.len() && under_way(#[trigger] q.candidates[k])
            && q.candidates[k].repo_path == repo && q.candidates[k].base_branch == base
}

/// The entries are those of a candidate, in the order of their places.
pub open spec fn are_its_entries(q: Ledger, candidate: CandidateView) -> bool {
    let places = q.members_of(candidate.id);
    &&& candidate.entries.len() == places.len()
    &&& forall|i: int|
        0 <= i < places.len() ==> (#[trigger] candidate.entries[i]).id == places[i].entry_id
}

/// The unfinished candidate is taken up as it is, where it was built on the base as
/// it stands, and thrown away at no cost to anything in it where it was not.
pub open spec fn resumes(
    post: PostView,
    base: Seq<char>,
    config: ConfigView,
    q: Ledger,
    now: Instant,
    p2: PhaseView,
    q2: Ledger,
) -> bool {
    ||| over_refused(p2) && same_but_leases(q, q2)
    ||| exists|k: int|
        0 <= k < q.candidates.len() && under_way(#[trigger] q.candidates[k])
            && q.candidates[k].repo_path == post.repo && q.candidates[k].base_branch == post.base
            && if spelled_id(q.candidates[k].base_sha) == base {
            &&& q2 == q
            &&& p2 matches PhaseView::CheckingOut { config: c, candidate } && {
                &&& c == config
                &&& candidate.id == q.candidates[k].id
                &&& candidate.base_sha == base
                &&& are_its_entries(q, candidate)
            }
        } else {
            exists|requeued: usize, q1: Ledger|
                {
                    &&& #[trigger] given_up_for_nothing(
                        q,
                        q1,
                        q.candidates[k].id,
                        CandidateState::Superseded,
                        written(now),
                        Ok(requeued),
                    )
                    &&& same_but_leases(q1, q2)
                    &&& over_with(
                        p2,
                        OutcomeView::Abandoned {
                            candidate: q.candidates[k].id,
                            requeued,
                            reason: Abandoned::BaseMoved,
                        },
                    )
                }
        }
}

/// The entries are the front of the line, as far as a batch may go.
pub open spec fn are_next_in_line(
    q: Ledger,
    repo: Seq<char>,
    base: Seq<char>,
    limit: usize,
    entries: Seq<EntryView>,
) -> bool {
    let line = q.waiting(repo, base);
    let n = entries.len() as int;
    &&& 0 < n <= limit
    &&& n <= line.len()
    &&& forall|i: int|
        0 <= i < n ==> {
            &&& (#[trigger] entries[i]).id == line[i].id
            &&& entries[i].branch == line[i].branch
            &&& entries[i].branch_sha == spelled_id(line[i].branch_sha)
            &&& entries[i].attempts == line[i].attempts
        }
    &&& line[0].attempts > 0 ==> n == 1
    &&& line[0].attempts == 0 ==> forall|i: int| 0 <= i < n ==> (#[trigger] line[i]).attempts == 0
    &&& line[0].attempts == 0 && n < limit && n < line.len() ==> line[n].attempts > 0
}

/// A new candidate is opened on the base, over the front of the line; where nothing
/// waits there is nothing to do.
pub open spec fn starts_anew(
    post: PostView,
    base: Seq<char>,
    config: ConfigView,
    q: Ledger,
    now: Instant,
    p2: PhaseView,
    q2: Ledger,
) -> bool {
    if q.waiting(post.repo, post.base).len() == 0 || config.max_batch == 0 {
        over_with(p2, OutcomeView::Idle) && same_but_leases(q, q2)
    } else {
        ||| over_refused(p2) && same_but_leases(q, q2)
        ||| p2 matches PhaseView::CheckingOut { config: c, candidate } && {
            &&& c == config
            &&& candidate.base_sha == base
            &&& are_next_in_line(q, post.repo, post.base, config.max_batch, candidate.entries)
            &&& opened_as_given(
                q,
                q2,
                post.repo,
                post.base,
                base,
                candidate.entries,
                None,
                written(now),
                candidate.id,
            )
        }
    }
}

/// Once the logs are seen to, a tick works on what is due: the candidate that is
/// under way if there is one, and the front of the line if there is none. It has
/// nothing to do exactly where neither is there.
pub proof fn a_tick_works_on_what_is_due(
    post: PostView,
    base: Seq<char>,
    config: ConfigView,
    prune: PruneView,
    event: PruneEvent,
    q: Ledger,
    now: Instant,
    p2: PhaseView,
    q2: Ledger,
)
    requires
        q.wf(),
        config.max_batch <= i64::MAX,
        post.steps(
            PhaseView::Pruning { base, config, prune },
            q,
            Event::Pruned(event),
            now,
            p2,
            q2,
        ),
        prune.after(event).stage == PruneStage::Over,
        prune.after(event).failure is None,
    ensures
        ({
            let q1 = prune.rows_after(q, event);
            &&& q1.entries == q.entries
            &&& q1.candidates == q.candidates
            &&& q1.members == q.members
            &&& q1.leases == q.leases
            &&& is_busy(q, post.repo, post.base) ==> resumes(post, base, config, q1, now, p2, q2)
            &&& !is_busy(q, post.repo, post.base) ==> starts_anew(
                post,
                base,
                config,
                q1,
                now,
                p2,
                q2,
            )
        }),
{
    let q1 = prune.rows_after(q, event);
    assert(q1.entries == q.entries && q1.candidates == q.candidates && q1.members == q.members);
    picking(post, base, config, q1, now, p2, q2);
}

/// What is picked is what is due.
proof fn picking(
    post: PostView,
    base: Seq<char>,
    config: ConfigView,
    q: Ledger,
    now: Instant,
    p2: PhaseView,
    q2: Ledger,
)
    requires
        post.picks(q, base, config, now, p2, q2),
        config.max_batch <= i64::MAX,
        crate::queue::ledger::members_lead(q.members, q.candidates, q.entries),
    ensures
        is_busy(q, post.repo, post.base) ==> resumes(post, base, config, q, now, p2, q2),
        !is_busy(q, post.repo, post.base) ==> starts_anew(post, base, config, q, now, p2, q2),
{
    let active = choose|active: Result<Option<Candidate>, StoreError>|
        {
            &&& #[trigger] active_gives(q, post.repo, post.base, active)
            &&& match active {
                Err(e) => post.ends(q, Err(TickError::Store(e)), p2, q2),
                Ok(Some(candidate)) => post.takes_up(q, base, config, candidate@, now, p2, q2),
                Ok(None) => post.opens(q, base, config, now, p2, q2),
            }
        };
    let pred = |c: CandidateRecord| c.in_queue(post.repo, post.base) && c.state.active();
    let list = q.active(post.repo, post.base);
    seqs::filter_nonempty(q.candidates, pred);
    if is_busy(q, post.repo, post.base) {
        let k = choose|k: int|
            0 <= k < q.candidates.len() && under_way(#[trigger] q.candidates[k])
                && q.candidates[k].repo_path == post.repo && q.candidates[k].base_branch
                == post.base;
        assert(pred(q.candidates[k]));
    }
    if list.len() > 0 {
        q.candidates.lemma_filter_pred(pred, 0);
        q.candidates.lemma_filter_contains_rev(pred, list[0]);
        let k = choose|k: int| 0 <= k < q.candidates.len() && q.candidates[k] == list[0];
        assert(under_way(q.candidates[k]));
        assert(is_busy(q, post.repo, post.base));
        if let Ok(Some(candidate)) = active {
            entries_in_place(q, candidate@);
            if candidate@.base_sha != base {
                throwing_away(post, q, candidate@.id, now, p2, q2);
            }
        }
    } else {
        assert(!is_busy(q, post.repo, post.base));
        opening(post, base, config, q, now, p2, q2);
    }
}

proof fn entries_in_place(q: Ledger, candidate: CandidateView)
    requires
        crate::queue::ledger::members_lead(q.members, q.candidates, q.entries),
        candidate.entries == all_seen(q.merge_order(candidate.id)),
    ensures
        are_its_entries(q, candidate),
{
    let places = q.members_of(candidate.id);
    members_stand_by_position(q, candidate.id);
    assert forall|i: int| 0 <= i < places.len() implies (#[trigger] candidate.entries[i]).id
        == places[i].entry_id by {
        assert(places.contains(places[i]));
        let k = choose|k: int| 0 <= k < q.members.len() && q.members[k] == places[i];
        assert(has_entry(q.entries, q.members[k].entry_id));
        entry_found_is_there(q.entries, places[i].entry_id);
    }
}

proof fn throwing_away(
    post: PostView,
    q: Ledger,
    candidate: i64,
    now: Instant,
    p2: PhaseView,
    q2: Ledger,
)
    requires
        post.abandons(q, candidate, Abandoned::BaseMoved, now, p2, q2),
    ensures
        exists|requeued: usize, q1: Ledger|
            {
                &&& #[trigger] given_up_for_nothing(
                    q,
                    q1,
                    candidate,
                    CandidateState::Superseded,
                    written(now),
                    Ok(requeued),
                )
                &&& same_but_leases(q1, q2)
                &&& over_with(
                    p2,
                    OutcomeView::Abandoned { candidate, requeued, reason: Abandoned::BaseMoved },
                )
            },
{
    let reason = Abandoned::BaseMoved;
    let (r, q1) = choose|r: Result<usize, StoreError>, q1: Ledger|
        {
            &&& #[trigger] abandon_gives(
                q,
                candidate,
                CandidateState::Superseded,
                written(now),
                r,
                q1,
            )
            &&& match r {
                Ok(requeued) => post.ends(
                    q1,
                    Ok(quiet(OutcomeView::Abandoned { candidate, requeued, reason })),
                    p2,
                    q2,
                ),
                Err(e) => post.ends(q1, Err(TickError::Store(e)), p2, q2),
            }
        };
    given_up_for_nothing_rows(q, q1, candidate, CandidateState::Superseded, written(now), r);
    assert(given_up_for_nothing(
        q,
        q1,
        candidate,
        CandidateState::Superseded,
        written(now),
        Ok(r->Ok_0),
    ));
}

proof fn opening(
    post: PostView,
    base: Seq<char>,
    config: ConfigView,
    q: Ledger,
    now: Instant,
    p2: PhaseView,
    q2: Ledger,
)
    requires
        post.opens(q, base, config, now, p2, q2),
        config.max_batch <= i64::MAX,
    ensures
        starts_anew(post, base, config, q, now, p2, q2),
{
    let batch = choose|batch: Result<Vec<Entry>, StoreError>|
        {
            &&& #[trigger] batch_gives(q, post.repo, post.base, config.max_batch, batch)
            &&& match batch {
                Err(e) => post.ends(q, Err(TickError::Store(e)), p2, q2),
                Ok(entries) => if entries@.len() == 0 {
                    post.ends(q, Ok(quiet(OutcomeView::Idle)), p2, q2)
                } else {
                    post.opens_over(q, base, config, entry_views(entries@), now, p2, q2)
                },
            }
        };
    let limit = config.max_batch;
    let line = q.waiting(post.repo, post.base);
    let front = q.front(post.repo, post.base, limit as nat);
    let chosen = batch_of(front);
    crate::queue::laws::a_batch_goes_as_far_as_it_may(q, post.repo, post.base, limit as nat);
    match batch {
        Err(e) => {
            assert(crate::queue::store::misreads(front, e));
            assert(front.len() > 0);
        },
        Ok(found) => {
            let entries = entry_views(found@);
            assert(entries == all_seen(chosen));
            assert(entries.len() == chosen.len());
            if found@.len() > 0 {
                assert forall|i: int| 0 <= i < entries.len() implies {
                    &&& (#[trigger] entries[i]).id == line[i].id
                    &&& entries[i].branch == line[i].branch
                    &&& entries[i].branch_sha == spelled_id(line[i].branch_sha)
                    &&& entries[i].attempts == line[i].attempts
                } by {
                    assert(chosen[i] == line[i]);
                }
                assert(are_next_in_line(q, post.repo, post.base, limit, entries));
                let (r, q1) = choose|r: Result<i64, StoreError>, q1: Ledger|
                    {
                        &&& #[trigger] open_gives(
                            q,
                            post.repo,
                            post.base,
                            base,
                            entries,
                            None,
                            written(now),
                            r,
                            q1,
                        )
                        &&& match r {
                            Err(e) => post.ends(q1, Err(TickError::Store(e)), p2, q2),
                            Ok(id) => {
                                &&& p2 == PhaseView::CheckingOut {
                                        config,
                                        candidate: CandidateView { id, base_sha: base, entries },
                                    }
                                &&& q2 == q1
                            },
                        }
                    };
                if let Ok(id) = r {
                    opened_as_given_rows(
                        q,
                        q1,
                        post.repo,
                        post.base,
                        base,
                        entries,
                        None,
                        written(now),
                        id,
                    );
                }
            }
        },
    }
}

/// When the last entry of a candidate is merged, the commit that came of it is what
/// the candidate is recorded as before it is gated.
pub proof fn what_is_gated_is_recorded(
    post: PostView,
    config: ConfigView,
    candidate: CandidateView,
    next: int,
    tip: Seq<char>,
    sha: crate::git::Sha,
    q: Ledger,
    now: Instant,
    p2: PhaseView,
    q2: Ledger,
)
    requires
        next + 1 == candidate.entries.len(),
        post.steps(
            PhaseView::Merging { config, candidate, next, tip },
            q,
            Event::Merged(Ok(crate::git::MergeOutcome::Merged(sha))),
            now,
            p2,
            q2,
        ),
    ensures
        over_refused(p2) && same_but_leases(q, q2) || gated_as_named(
            q,
            q2,
            candidate.id,
            sha@,
            written(now),
            Ok(()),
        ) && p2 == (PhaseView::Gating { config, candidate, tip: sha@ }),
{
    let (r, q1) = choose|r: Result<(), StoreError>, q1: Ledger|
        {
            &&& #[trigger] mark_testing_gives(q, candidate.id, sha@, written(now), r, q1)
            &&& match r {
                Err(e) => post.ends(q1, Err(TickError::Store(e)), p2, q2),
                Ok(_) => {
                    &&& p2 == PhaseView::Gating { config, candidate, tip: sha@ }
                    &&& q2 == q1
                },
            }
        };
    gated_as_named_rows(q, q1, candidate.id, sha@, written(now), r);
}

/// A tick goes to work exactly where it has the base branch to itself; where
/// somebody has it, the tick is over at once and says who, and nothing changes.
pub proof fn a_tick_has_the_branch_to_itself(
    q: Ledger,
    post: PostView,
    ttl: Span,
    now: Instant,
    pid: i32,
    holder: Liveness,
    phase: PhaseView,
    q2: Ledger,
)
    requires
        q.wf(),
        begins(q, post, ttl, now, pid, holder, phase, q2),
        plus(now, ttl) is Some,
    ensures
        ({
            let taken = exists|l: LeaseRecord|
                {
                    &&& #[trigger] leased_by(q, post.repo, post.base, l)
                    &&& read_back(l.expires_at) matches Some(until) && earlier(now, until)
                    &&& holder == Liveness::Present
                };
            let broken = exists|l: LeaseRecord| #[trigger]
                leased_by(q, post.repo, post.base, l) && read_back(l.expires_at) is None;
            &&& taken ==> {
                &&& q2 == q
                &&& post.lease is None
                &&& phase matches PhaseView::Over { result: Ok(report) }
                &&& report.outcome matches OutcomeView::AnotherWorkerHolds { holder_pid }
                &&& forall|l: LeaseRecord| #[trigger]
                    leased_by(q, post.repo, post.base, l) ==> l.holder_pid == holder_pid
            }
            &&& broken ==> {
                &&& q2 == q
                &&& post.lease is None
                &&& phase matches PhaseView::Over { result: Err(TickError::Lease(_)) }
            }
            &&& !taken && !broken ==> {
                &&& phase == PhaseView::Listing
                &&& post.lease matches Some(lease)
                &&& lease.repo_path == post.repo
                &&& lease.base_branch == post.base
                &&& lease.holder_pid == pid
                &&& Some(lease.expires_at) == plus(now, ttl)
                &&& q2.leases.last().token == lease.token
                &&& q2.leases.last().holder_pid == pid
                &&& q2.leases.last().repo_path == post.repo
                &&& q2.leases.last().base_branch == post.base
            }
        }),
{
    crate::queue::tenure::the_lease_is_the_row(q, post.repo, post.base);
    if let Some(l) = q.lease(post.repo, post.base) {
        assert(leased_by(q, post.repo, post.base, l));
    }
}

/// An answer to what a tick asked is a step of that tick: it works on the same
/// queue by the same right, goes where the step leads, and asks what is asked
/// there.
pub proof fn an_answer_is_a_step(
    tick: &mut crate::tick::Tick,
    store: &mut crate::queue::store::Store,
    event: Event,
    now: &crate::time::Timestamp,
    r: crate::tick::Action,
)
    requires
        tick.phase().wf(),
        tick.phase().takes(event),
        call_ensures(crate::tick::Tick::next, (tick, store, event, now), r),
    ensures
        final(tick).post() == old(tick).post(),
        final(tick).phase().wf(),
        old(tick).post().steps(
            old(tick).phase(),
            old(store)@,
            event,
            now@,
            final(tick).phase(),
            final(store)@,
        ),
        r@ == old(tick).post().asks(final(tick).phase()),
{
}

/// A worker's tick is on the worker's queue, with the worker's logs, and has a
/// lease for as long as the worker takes one.
pub proof fn a_tick_is_on_the_workers_queue(
    worker: &crate::tick::Worker,
    store: &mut crate::queue::store::Store,
    now: &crate::time::Timestamp,
    pid: i32,
    holder: Liveness,
    r: (crate::tick::Tick, crate::tick::Action),
)
    requires
        call_ensures(crate::tick::Worker::tick, (worker, store, now, pid, holder), r),
    ensures
        r.0.post().repo == worker.repo(),
        r.0.post().base == worker.base(),
        r.0.post().log_dir == worker.log_dir(),
        begins(
            old(store)@,
            r.0.post(),
            worker.lease_ttl(),
            now@,
            pid,
            holder,
            r.0.phase(),
            final(store)@,
        ),
        r.0.phase() == PhaseView::Listing ==> r.1 is ListWorktrees,
        r.0.phase() is Over ==> r.1 is Finish,
{
}

/// What a tick goes by is the configuration that was read at the base, unless that
/// cannot be used: then the tick is over and says so. Nothing changes but for the
/// lease.
pub proof fn a_tick_goes_by_what_was_read(
    post: PostView,
    base: Seq<char>,
    source: String,
    q: Ledger,
    now: Instant,
    p2: PhaseView,
    q2: Ledger,
)
    requires
        post.steps(
            PhaseView::Configuring { base },
            q,
            Event::File(Ok(Some(source))),
            now,
            p2,
            q2,
        ),
    ensures
        same_but_leases(q, q2),
        p2 matches PhaseView::Over { result: Err(TickError::Config(_)) } || (
        p2 matches PhaseView::Measuring { base: b, config, runs } && {
            &&& b == base
            &&& q2 == q
            &&& runs == q.logged(post.repo, post.base)
            &&& exists|read: crate::config::Config|
                #[trigger] crate::tick::config_gives(source@, Ok(read)) && read@ == config
        }),
{
}

} // verus!
