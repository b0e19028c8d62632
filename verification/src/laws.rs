//! What holds of every tick.
//!
//! A tick is a chain of steps, each from a phase, the rows and an answer to a
//! phase and rows. What is stated here of one step, of every phase that fits the
//! rows, therefore holds along every tick, whatever git, the merge gate and the hook
//! answer.

use vstd::prelude::*;

use crate::config::ConfigView;
use crate::gate::Verdict;
use crate::git::spelled_id;
use crate::git::MergeOutcome;
use crate::git::RefUpdate;
use crate::queue::laws::abandoning_is_tidy;
use crate::queue::laws::blaming_is_tidy;
use crate::queue::laws::landing_is_tidy;
use crate::queue::laws::opening_is_tidy;
use crate::queue::laws::retries_go_alone;
use crate::queue::laws::same_queue;
use crate::queue::laws::same_queue_tidy;
use crate::queue::laws::testing_is_tidy;
use crate::queue::laws::the_line_is_in_order;
use crate::queue::laws::tidy;
use crate::queue::ledger::all_seen;
use crate::queue::ledger::batch_of;
use crate::queue::ledger::entry_found_is_there;
use crate::queue::ledger::entry_is_found;
use crate::queue::ledger::has_entry;
use crate::queue::ledger::ids;
use crate::queue::ledger::is_member;
use crate::queue::ledger::same_rows_wf;
use crate::queue::ledger::CandidateRecord;
use crate::queue::ledger::CandidateView;
use crate::queue::ledger::EntryRecord;
use crate::queue::ledger::EntryView;
use crate::queue::ledger::Ledger;
use crate::queue::ledger::Member;
use crate::queue::ledger::RunRecord;
use crate::queue::model::first_half;
use crate::queue::model::EntryId;
use crate::queue::state::CandidateState;
use crate::queue::state::EntryState;
use crate::queue::store::abandon_gives;
use crate::queue::store::active_gives;
use crate::queue::store::batch_gives;
use crate::queue::store::blame_gives;
use crate::queue::store::entry_views;
use crate::queue::store::land_gives;
use crate::queue::store::open_gives;
use crate::queue::store::Blame;
use crate::queue::store::Candidate;
use crate::queue::store::Entry;
use crate::queue::store::StoreError;
use crate::pruning::a_prune_spares_the_rest;
use crate::pruning::a_survey_spares_the_rest;
use crate::pruning::finished_id;
use crate::pruning::finished_stays;
use crate::pruning::is_finished;
use crate::pruning::planned_is_finished;
use crate::pruning::removes_finished;
use crate::pruning::spares;
use crate::pruning::sparing_twice;
use crate::pruning::turning_spares;
use crate::retention::begun;
use crate::retention::found;
use crate::retention::measured_views;
use crate::retention::prune_ends;
use crate::retention::prune_measure;
use crate::retention::reconciled;
use crate::retention::standing;
use crate::retention::MeasuredView;
use crate::retention::PruneEvent;
use crate::retention::PruneStage;
use crate::retention::PruneView;
use crate::seqs;
use crate::tick::retried;
use crate::tick::settlements;
use crate::tick::Ask;
use crate::tick::Event;
use crate::tick::PhaseView;
use crate::tick::PostView;
use crate::time::written;
use crate::time::Instant;

verus! {

/// A candidate that is under way in the tick's queue.
pub open spec fn in_hand(post: PostView, q: Ledger, k: int) -> bool {
    &&& 0 <= k < q.candidates.len()
    &&& q.candidates[k].state.active()
    &&& q.candidates[k].in_queue(post.repo, post.base)
}

/// The tick works on what the rows say of the candidate.
pub open spec fn works_on(post: PostView, q: Ledger, k: int, candidate: CandidateView) -> bool {
    &&& in_hand(post, q, k)
    &&& q.candidates[k].id == candidate.id
    &&& spelled_id(q.candidates[k].base_sha) == spelled_id(candidate.base_sha)
    &&& forall|e: EntryId| #[trigger]
        is_member(q.members, candidate.id, e) == ids(candidate.entries).contains(e)
}

/// The candidate is gated, as this commit.
pub open spec fn gated_as(q: Ledger, k: int, tip: Seq<char>) -> bool {
    q.candidates[k].state == CandidateState::Testing && q.candidates[k].candidate_sha == Some(tip)
}

/// The tick works on a candidate that is under way.
pub open spec fn is_under_way(post: PostView, q: Ledger, candidate: CandidateView) -> bool {
    exists|k: int| #[trigger] works_on(post, q, k, candidate)
}

/// The tick works on a candidate that is gated.
pub open spec fn is_tested(post: PostView, q: Ledger, candidate: CandidateView) -> bool {
    exists|k: int| #[trigger]
        works_on(post, q, k, candidate) && q.candidates[k].state == CandidateState::Testing
}

/// The tick works on a candidate that is gated as this commit.
pub open spec fn is_tested_as(
    post: PostView,
    q: Ledger,
    candidate: CandidateView,
    tip: Seq<char>,
) -> bool {
    exists|k: int| #[trigger] works_on(post, q, k, candidate) && gated_as(q, k, tip)
}

/// A phase fits the rows: the candidate it works on is under way, its base and
/// its entries are those on record, the commit it gates or merges is the one on
/// record, and the logs it removes are of finished candidates of the queue.
pub open spec fn fits(post: PostView, phase: PhaseView, q: Ledger) -> bool {
    match phase {
        PhaseView::CheckingOut { candidate, .. } => is_under_way(post, q, candidate),
        PhaseView::Merging { candidate, .. } => is_under_way(post, q, candidate),
        PhaseView::Gating { candidate, tip, .. } => is_tested_as(post, q, candidate, tip),
        PhaseView::Asking { candidate, .. } => is_tested(post, q, candidate),
        PhaseView::Forwarding { candidate, tip, .. } => is_tested_as(post, q, candidate, tip),
        PhaseView::Pruning { prune, .. } => removes_finished(q, post.repo, post.base, prune),
        _ => true,
    }
}

/// The runs are those there were, and at most one more.
pub open spec fn adds_a_run(a: Ledger, b: Ledger) -> bool {
    b.runs == a.runs || (b.runs.len() == a.runs.len() + 1 && b.runs.drop_last() == a.runs)
}

/// The entry that an answer pins the candidate on, if it does.
pub open spec fn culprit(phase: PhaseView, event: Event) -> Option<EntryId> {
    match (phase, event) {
        (PhaseView::Merging { candidate, next, .. }, Event::Merged(Ok(MergeOutcome::Conflicted))) => {
            Some(candidate.entries[next].id)
        },
        (PhaseView::Asking { candidate, .. }, Event::Interrupted(false)) => if candidate.entries.len()
            == 1 {
            Some(candidate.entries[0].id)
        } else {
            None
        },
        _ => None,
    }
}

/// The attempts that an entry has, by the configuration that the phase goes by.
pub open spec fn budget(phase: PhaseView) -> u32 {
    match phase {
        PhaseView::Merging { config, .. } => config.max_attempts,
        PhaseView::Asking { config, .. } => config.max_attempts,
        _ => 0,
    }
}

/// The answer says that the base was moved to the commit that passed the merge gate.
pub open spec fn landing(phase: PhaseView, event: Event) -> bool {
    phase is Forwarding && event == Event::Forwarded(Ok(RefUpdate::Updated))
}

/// What a step does to the entries, the candidates and the members.
pub enum Deed {
    Nothing,
    Test { k: int, sha: Seq<char> },
    Abandon { k: int, state: CandidateState },
    Land { k: int },
    Blame { k: int, c: int, spent: u32, evicted: bool, reason: Seq<char> },
    Open { base_sha: Seq<char>, list: Seq<EntryId> },
    Split { k: int, base_sha: Seq<char>, list: Seq<EntryId> },
}

impl Deed {
    /// The rows once it is done.
    pub open spec fn done(self, post: PostView, q: Ledger, at: Seq<char>) -> Ledger {
        match self {
            Deed::Nothing => q,
            Deed::Test { k, sha } => q.with_candidate(
                q.candidates[k].id,
                CandidateState::Testing,
                Some(sha),
                at,
            ),
            Deed::Abandon { k, state } => q.abandoned(q.candidates[k].id, state, at),
            Deed::Land { k } => q.landed(q.candidates[k].id, at),
            Deed::Blame { k, c, spent, evicted, reason } => q.blamed(
                q.candidates[k].id,
                q.entries[c].id,
                spent,
                evicted,
                reason,
                at,
            ),
            Deed::Open { base_sha, list } => q.opened(
                post.repo,
                post.base,
                base_sha,
                list,
                None,
                at,
            ),
            Deed::Split { k, base_sha, list } => q.abandoned(
                q.candidates[k].id,
                CandidateState::Failed,
                at,
            ).opened(post.repo, post.base, base_sha, list, Some(q.candidates[k].id), at),
        }
    }

    /// What makes it in order.
    pub open spec fn is_due(self, post: PostView, phase: PhaseView, event: Event, q: Ledger) -> bool {
        match self {
            Deed::Nothing => true,
            Deed::Test { k, .. } => in_hand(post, q, k),
            Deed::Abandon { k, state } => {
                &&& in_hand(post, q, k)
                &&& state == CandidateState::Superseded || (state == CandidateState::Failed
                    && q.candidates[k].state == CandidateState::Testing)
            },
            Deed::Land { k } => {
                &&& in_hand(post, q, k)
                &&& landing(phase, event)
                &&& gated_as(q, k, phase->Forwarding_tip)
            },
            Deed::Blame { k, c, spent, evicted, .. } => {
                &&& in_hand(post, q, k)
                &&& 0 <= c < q.entries.len()
                &&& is_member(q.members, q.candidates[k].id, q.entries[c].id)
                &&& culprit(phase, event) == Some(q.entries[c].id)
                &&& spent == q.entries[c].attempts + 1
                &&& evicted <==> spent >= budget(phase)
            },
            Deed::Open { list, .. } => {
                &&& q.next_candidate_id() <= i64::MAX
                &&& list.no_duplicates()
                &&& forall|i: int|
                    0 <= i < list.len() ==> q.waits(post.repo, post.base, #[trigger] list[i])
                &&& forall|k: int|
                    0 <= k < q.candidates.len() && (#[trigger] q.candidates[k]).state.active()
                        ==> !q.candidates[k].in_queue(post.repo, post.base)
            },
            Deed::Split { k, list, .. } => {
                &&& in_hand(post, q, k)
                &&& q.candidates[k].state == CandidateState::Testing
                &&& q.next_candidate_id() <= i64::MAX
                &&& list.no_duplicates()
                &&& forall|i: int|
                    0 <= i < list.len() ==> is_member(
                        q.members,
                        q.candidates[k].id,
                        #[trigger] list[i],
                    )
            },
        }
    }
}

/// Forgetting a log leaves the rows well-formed, and everything but runs as it
/// was.
proof fn forgotten_wf(q: Ledger, run: i64, tail: Option<Seq<char>>)
    requires
        q.wf(),
    ensures
        q.log_forgotten(run, tail).wf(),
        same_queue(q, q.log_forgotten(run, tail)),
        q.log_forgotten(run, tail).leases == q.leases,
{
    same_rows_wf(q, q.log_forgotten(run, tail));
}

/// Putting rows right leaves them well-formed, and everything but runs as it
/// was.
proof fn reconciled_wf(q: Ledger, list: Seq<MeasuredView>)
    requires
        q.wf(),
    ensures
        reconciled(q, list).wf(),
        same_queue(q, reconciled(q, list)),
        reconciled(q, list).leases == q.leases,
    decreases list.len(),
{
    if list.len() > 0 {
        reconciled_wf(q, list.drop_last());
        forgotten_wf(reconciled(q, list.drop_last()), list.last().run.run_id, None);
    }
}

/// Whether a candidate is the one under way, by the unfinished candidates.
proof fn active_is_in_hand(post: PostView, q: Ledger) -> (k: int)
    ensures
        q.active(post.repo, post.base).len() > 0 ==> in_hand(post, q, k) && q.candidates[k]
            == q.active(post.repo, post.base)[0],
        q.active(post.repo, post.base).len() == 0 ==> forall|l: int|
            0 <= l < q.candidates.len() && (#[trigger] q.candidates[l]).state.active()
                ==> !q.candidates[l].in_queue(post.repo, post.base),
{
    let pred = |c: CandidateRecord| c.in_queue(post.repo, post.base) && c.state.active();
    seqs::filter_nonempty(q.candidates, pred);
    if q.active(post.repo, post.base).len() > 0 {
        choose|k: int|
            0 <= k < q.candidates.len() && q.candidates[k] == q.active(post.repo, post.base)[0]
    } else {
        assert forall|l: int|
            0 <= l < q.candidates.len() && (
            #[trigger] q.candidates[l]).state.active() implies !q.candidates[l].in_queue(
            post.repo,
            post.base,
        ) by {
            if q.candidates[l].in_queue(post.repo, post.base) {
                assert(pred(q.candidates[l]));
            }
        }
        0
    }
}

/// Spelling a spelled id leaves it as it is.
proof fn spelling_twice(raw: Seq<char>)
    requires
        crate::git::is_object_id(spelled_id(raw)),
    ensures
        spelled_id(spelled_id(raw)) == spelled_id(raw),
{
    crate::git::object_id_spells_itself(spelled_id(raw));
}

/// The entries of a candidate, as the worker sees them, are its members.
proof fn merge_order_has_the_members(q: Ledger, candidate: i64)
    requires
        q.wf(),
    ensures
        forall|e: EntryId| #[trigger]
            is_member(q.members, candidate, e) == ids(all_seen(q.merge_order(candidate))).contains(e),
{
    let pred = |m: Member| m.candidate_id == candidate;
    let before = |a: Member, b: Member| a.position < b.position;
    let list = q.members.filter(pred);
    let members = q.members_of(candidate);
    let entries = q.merge_order(candidate);
    let seen = ids(all_seen(entries));
    assert forall|m: Member| #[trigger]
        members.contains(m) <==> q.members.contains(m) && m.candidate_id == candidate by {
        seqs::ordered_has(list, before, m);
        if q.members.contains(m) && pred(m) {
            let i = choose|i: int| 0 <= i < q.members.len() && q.members[i] == m;
            q.members.lemma_filter_contains(pred, i);
        }
        if list.contains(m) {
            let i = choose|i: int| 0 <= i < list.len() && list[i] == m;
            q.members.lemma_filter_pred(pred, i);
            q.members.lemma_filter_contains_rev(pred, m);
        }
    }
    assert forall|i: int| 0 <= i < members.len() implies #[trigger] seen[i]
        == members[i].entry_id by {
        assert(members.contains(members[i]));
        let j = choose|j: int| 0 <= j < q.members.len() && q.members[j] == members[i];
        assert(has_entry(q.entries, q.members[j].entry_id));
        entry_found_is_there(q.entries, members[i].entry_id);
    }
    assert forall|e: EntryId| #[trigger] is_member(q.members, candidate, e) == seen.contains(e) by {
        if is_member(q.members, candidate, e) {
            let i = choose|i: int|
                0 <= i < q.members.len() && #[trigger] q.members[i].candidate_id == candidate
                    && q.members[i].entry_id == e;
            assert(q.members.contains(q.members[i]));
            assert(members.contains(q.members[i]));
            let k = choose|k: int| 0 <= k < members.len() && members[k] == q.members[i];
            assert(seen[k] == e);
        }
        if seen.contains(e) {
            let k = choose|k: int| 0 <= k < seen.len() && seen[k] == e;
            assert(members.contains(members[k]));
            let i = choose|i: int| 0 <= i < q.members.len() && q.members[i] == members[k];
            assert(q.members[i].candidate_id == candidate);
        }
    }
}

/// Every entry of a batch waits in the queue.
proof fn a_batch_waits(q: Ledger, repo: Seq<char>, base: Seq<char>, limit: nat)
    requires
        q.wf(),
    ensures
        forall|i: int|
            0 <= i < ids(all_seen(batch_of(q.front(repo, base, limit)))).len() ==> q.waits(
                repo,
                base,
                #[trigger] ids(all_seen(batch_of(q.front(repo, base, limit))))[i],
            ),
{
    let line = q.waiting(repo, base);
    let batch = batch_of(q.front(repo, base, limit));
    retries_go_alone(q, repo, base, limit);
    the_line_is_in_order(q, repo, base);
    assert forall|i: int| 0 <= i < ids(all_seen(batch)).len() implies q.waits(
        repo,
        base,
        #[trigger] ids(all_seen(batch))[i],
    ) by {
        assert(batch[i] == line[i]);
        assert(line.contains(line[i]));
        let j = choose|j: int| 0 <= j < q.entries.len() && q.entries[j] == line[i];
        entry_is_found(q.entries, j);
    }
}

/// What choosing what to work on does.
proof fn picking_does(
    post: PostView,
    phase: PhaseView,
    event: Event,
    q: Ledger,
    base: Seq<char>,
    config: ConfigView,
    now: Instant,
    p2: PhaseView,
    q2: Ledger,
) -> (deed: Deed)
    requires
        q.wf(),
        tidy(q),
        post.picks(q, base, config, now, p2, q2),
        !landing(phase, event),
    ensures
        fits(post, p2, q2),
        deed.is_due(post, phase, event, q),
        same_queue(deed.done(post, q, written(now)), q2),
        q2.runs == q.runs,
        p2 is Over || p2 is CheckingOut,
        p2 is Over ==> q2.leases == post.given_back(q).leases,
        !(p2 is Over) ==> q2.leases == q.leases,
{
    let k = active_is_in_hand(post, q);
    let active = choose|active: Result<Option<Candidate>, StoreError>|
        {
            &&& #[trigger] active_gives(q, post.repo, post.base, active)
            &&& match active {
                Err(e) => post.ends(q, Err(crate::tick::TickError::Store(e)), p2, q2),
                Ok(Some(candidate)) => post.takes_up(q, base, config, candidate@, now, p2, q2),
                Ok(None) => post.opens(q, base, config, now, p2, q2),
            }
        };
    match active {
        Err(_) => Deed::Nothing,
        Ok(Some(candidate)) => {
            if candidate@.base_sha != base {
                assert(q.candidates[k].id == candidate@.id);
                Deed::Abandon { k, state: CandidateState::Superseded }
            } else {
                merge_order_has_the_members(q, candidate@.id);
                spelling_twice(q.candidates[k].base_sha);
                assert(works_on(post, q2, k, candidate@));
                Deed::Nothing
            }
        },
        Ok(None) => {
            let batch = choose|batch: Result<Vec<Entry>, StoreError>|
                {
                    &&& #[trigger] batch_gives(q, post.repo, post.base, config.max_batch, batch)
                    &&& match batch {
                        Err(e) => post.ends(q, Err(crate::tick::TickError::Store(e)), p2, q2),
                        Ok(entries) => if entries@.len() == 0 {
                            post.ends(
                                q,
                                Ok(crate::tick::quiet(crate::worker::OutcomeView::Idle)),
                                p2,
                                q2,
                            )
                        } else {
                            post.opens_over(
                                q,
                                base,
                                config,
                                entry_views(entries@),
                                now,
                                p2,
                                q2,
                            )
                        },
                    }
                };
            match batch {
                Err(_) => Deed::Nothing,
                Ok(entries) => {
                    if entries@.len() == 0 {
                        Deed::Nothing
                    } else {
                        a_batch_waits(q, post.repo, post.base, config.max_batch as nat);
                        if p2 is Over {
                            Deed::Nothing
                        } else {
                            let list = ids(entry_views(entries@));
                            opening_is_tidy(
                                q,
                                post.repo,
                                post.base,
                                base,
                                list,
                                None,
                                written(now),
                            );
                            assert(works_on(
                                post,
                                q2,
                                q.candidates.len() as int,
                                p2->CheckingOut_candidate,
                            ));
                            Deed::Open { base_sha: base, list }
                        }
                    }
                },
            }
        },
    }
}

/// What pinning a candidate on one of its entries does.
proof fn blaming_does(
    post: PostView,
    phase: PhaseView,
    event: Event,
    q: Ledger,
    config: ConfigView,
    k: int,
    candidate: CandidateView,
    n: int,
    fault: crate::worker::Fault,
    now: Instant,
    p2: PhaseView,
    q2: Ledger,
) -> (deed: Deed)
    requires
        q.wf(),
        works_on(post, q, k, candidate),
        0 <= n < candidate.entries.len(),
        post.blames(q, config, candidate.id, candidate.entries[n], fault, now, p2, q2),
        culprit(phase, event) == Some(candidate.entries[n].id),
        budget(phase) == config.max_attempts,
    ensures
        deed.is_due(post, phase, event, q),
        same_queue(deed.done(post, q, written(now)), q2),
        q2.runs == q.runs,
        p2 is Over || p2 is Announcing,
        p2 is Over ==> q2.leases == post.given_back(q).leases,
        !(p2 is Over) ==> q2.leases == q.leases,
{
    let id = candidate.entries[n].id;
    let (r, q1) = choose|r: Result<Blame, StoreError>, q1: Ledger|
        {
            &&& #[trigger] blame_gives(
                q,
                candidate.id,
                id,
                config.max_attempts,
                fault.described(),
                written(now),
                r,
                q1,
            )
            &&& match r {
                Ok(blame) => post.reaches(
                    q1,
                    crate::worker::OutcomeView::Blamed {
                        candidate: candidate.id,
                        entry: id,
                        branch: candidate.entries[n].branch,
                        blame,
                        reason: fault,
                    },
                    config.on_settle,
                    settlements(q1, seq![id]),
                    p2,
                    q2,
                ),
                Err(e) => post.ends(q1, Err(crate::tick::TickError::Store(e)), p2, q2),
            }
        };
    match r {
        Err(_) => Deed::Nothing,
        Ok(blame) => {
            entry_found_is_there(q.entries, id);
            let entry = q.entry(id)->0;
            let c = choose|c: int| 0 <= c < q.entries.len() && q.entries[c] == entry;
            assert(ids(candidate.entries)[n] == id);
            assert(ids(candidate.entries).contains(id));
            assert(is_member(q.members, candidate.id, id));
            Deed::Blame {
                k,
                c,
                spent: (entry.attempts + 1) as u32,
                evicted: blame == Blame::Evicted,
                reason: fault.described(),
            }
        },
    }
}

/// What a gate that failed on its merits does.
proof fn failing_does(
    post: PostView,
    phase: PhaseView,
    event: Event,
    q: Ledger,
    config: ConfigView,
    k: int,
    candidate: CandidateView,
    now: Instant,
    p2: PhaseView,
    q2: Ledger,
) -> (deed: Deed)
    requires
        q.wf(),
        tidy(q),
        phase == (PhaseView::Asking { config, candidate }),
        event == Event::Interrupted(false),
        works_on(post, q, k, candidate),
        q.candidates[k].state == CandidateState::Testing,
        post.fails_gate(q, config, candidate, now, p2, q2),
    ensures
        deed.is_due(post, phase, event, q),
        same_queue(deed.done(post, q, written(now)), q2),
        q2.runs == q.runs,
        p2 is Over || p2 is Announcing,
        p2 is Over ==> q2.leases == post.given_back(q).leases,
        !(p2 is Over) ==> q2.leases == q.leases,
{
    if candidate.entries.len() == 0 {
        Deed::Nothing
    } else if candidate.entries.len() == 1 {
        blaming_does(
            post,
            phase,
            event,
            q,
            config,
            k,
            candidate,
            0,
            crate::worker::Fault::GateFailed,
            now,
            p2,
            q2,
        )
    } else {
        let retry = retried(candidate.entries);
        let list = ids(retry);
        let at = written(now);
        let (requeued, q1, r, q3) = choose|
            requeued: Result<usize, StoreError>,
            q1: Ledger,
            r: Result<i64, StoreError>,
            q3: Ledger,
        |
            {
                &&& #[trigger] abandon_gives(
                    q,
                    candidate.id,
                    CandidateState::Failed,
                    at,
                    requeued,
                    q1,
                )
                &&& requeued is Ok
                &&& #[trigger] open_gives(
                    q1,
                    post.repo,
                    post.base,
                    candidate.base_sha,
                    retry,
                    Some(candidate.id),
                    at,
                    r,
                    q3,
                )
                &&& match r {
                    Err(e) => post.ends(q3, Err(crate::tick::TickError::Store(e)), p2, q2),
                    Ok(next) => post.ends(
                        q3,
                        Ok(
                            crate::tick::quiet(
                                crate::worker::OutcomeView::Split {
                                    failed: candidate.id,
                                    next,
                                    retrying: retry.len() as usize,
                                },
                            ),
                        ),
                        p2,
                        q2,
                    ),
                }
            };
        assert forall|i: int| 0 <= i < list.len() implies is_member(
            q.members,
            q.candidates[k].id,
            #[trigger] list[i],
        ) by {
            let pred = |e: EntryView| first_half(ids(candidate.entries)).contains(e.id);
            candidate.entries.lemma_filter_pred(pred, i);
            assert(retry.contains(retry[i]));
            candidate.entries.lemma_filter_contains_rev(pred, retry[i]);
            let m = choose|m: int|
                0 <= m < candidate.entries.len() && candidate.entries[m] == retry[i];
            assert(ids(candidate.entries)[m] == list[i]);
        }
        match r {
            Err(_) => Deed::Abandon { k, state: CandidateState::Failed },
            Ok(_) => Deed::Split { k, base_sha: candidate.base_sha, list },
        }
    }
}

/// What a step does, to rows that differ from those before it in their runs at
/// most.
proof fn a_step_does(
    post: PostView,
    phase: PhaseView,
    q: Ledger,
    event: Event,
    now: Instant,
    p2: PhaseView,
    q2: Ledger,
) -> (r: (Deed, Ledger))
    requires
        q.wf(),
        tidy(q),
        fits(post, phase, q),
        phase.wf(),
        phase.takes(event),
        post.steps(phase, q, event, now, p2, q2),
    ensures
        r.1.wf(),
        same_queue(q, r.1),
        r.1.leases == q.leases,
        spares(post.repo, post.base, q, r.1),
        adds_a_run(r.1, q2),
        r.0.is_due(post, phase, event, r.1),
        same_queue(r.0.done(post, r.1, written(now)), q2),
        fits(post, p2, q2),
        p2 is Over ==> q2.leases == post.given_back(q).leases,
        !(p2 is Over) ==> q2.leases == q.leases,
{
    let at = written(now);
    match (phase, event) {
        (PhaseView::Measuring { base, config, .. }, Event::Measured(measured)) => {
            let list = standing(q, post.repo, post.base, measured_views(measured@));
            let logs = found(list);
            let q1 = reconciled(q, list);
            reconciled_wf(q, list);
            a_survey_spares_the_rest(q, post.repo, post.base, measured_views(measured@));
            if crate::logs::total(logs) > u64::MAX {
                (Deed::Nothing, q1)
            } else {
                let prune = begun(crate::logs::removals(logs, config.log_budget));
                forgotten_wf(q1, prune.log().run_id, None);
                let q3 = prune.turned_rows(q1);
                same_queue_tidy(q, q3);
                planned_is_finished(
                    q,
                    post.repo,
                    post.base,
                    measured_views(measured@),
                    config.log_budget,
                );
                assert(removes_finished(q1, post.repo, post.base, prune)) by {
                    assert forall|k: int| 0 <= k < prune.removals.len() implies finished_id(
                        q1,
                        post.repo,
                        post.base,
                        (#[trigger] prune.removals[k]).log.run_id,
                    ) by {
                        finished_stays(
                            post.repo,
                            post.base,
                            q,
                            q1,
                            prune.removals[k].log.run_id,
                        );
                    }
                }
                turning_spares(post.repo, post.base, q1, prune);
                sparing_twice(post.repo, post.base, q, q1, q3);
                assert(prune.turned() == prune);
                if prune.stage != PruneStage::Over {
                    (Deed::Nothing, q3)
                } else {
                    (picking_does(post, phase, event, q3, base, config, now, p2, q2), q3)
                }
            }
        },
        (PhaseView::Pruning { base, config, prune }, Event::Pruned(e)) => {
            let q3 = prune.rows_after(q, e);
            a_prune_spares_the_rest(q, post.repo, post.base, prune, e);
            match e {
                PruneEvent::Tail(tail) => {
                    forgotten_wf(q, prune.log().run_id, crate::text::optional(tail));
                },
                PruneEvent::Removed(_) => {
                    forgotten_wf(q, (PruneView { at: prune.at + 1, ..prune }).log().run_id, None);
                },
            }
            same_queue_tidy(q, q3);
            if prune.after(e).stage != PruneStage::Over || prune.after(e).failure is Some {
                (Deed::Nothing, q3)
            } else {
                (picking_does(post, phase, event, q3, base, config, now, p2, q2), q3)
            }
        },
        (PhaseView::CheckingOut { candidate, .. }, Event::CheckedOut(Ok(_))) => {
            let k = choose|k: int| #[trigger] works_on(post, q, k, candidate);
            assert(!(p2 is Over) ==> works_on(post, q2, k, candidate));
            (testing_does(q, k, candidate, 0, candidate.base_sha, p2), q)
        },
        (
            PhaseView::Merging { candidate, next, .. },
            Event::Merged(Ok(MergeOutcome::Merged(sha))),
        ) => {
            let k = choose|k: int| #[trigger] works_on(post, q, k, candidate);
            assert(!(p2 is Over) ==> works_on(post, q2, k, candidate));
            (testing_does(q, k, candidate, next + 1, sha@, p2), q)
        },
        (PhaseView::Gating { candidate, tip, .. }, Event::Gated(Ok(_))) => {
            let k = choose|k: int| #[trigger]
                works_on(post, q, k, candidate) && gated_as(q, k, tip);
            assert(!(p2 is Over) ==> works_on(post, q2, k, candidate) && gated_as(q2, k, tip));
            assert(q2.runs == q.runs || q2.runs.drop_last() =~= q.runs);
            (Deed::Nothing, q)
        },
        (
            PhaseView::Merging { config, candidate, next, .. },
            Event::Merged(Ok(MergeOutcome::Conflicted)),
        ) => {
            let k = choose|k: int| #[trigger] works_on(post, q, k, candidate);
            (
                blaming_does(
                    post,
                    phase,
                    event,
                    q,
                    config,
                    k,
                    candidate,
                    next,
                    crate::worker::Fault::Conflict,
                    now,
                    p2,
                    q2,
                ),
                q,
            )
        },
        (PhaseView::Asking { config, candidate }, Event::Interrupted(interrupted)) => {
            let k = choose|k: int| #[trigger]
                works_on(post, q, k, candidate) && q.candidates[k].state
                    == CandidateState::Testing;
            if interrupted {
                (Deed::Abandon { k, state: CandidateState::Superseded }, q)
            } else {
                (failing_does(post, phase, event, q, config, k, candidate, now, p2, q2), q)
            }
        },
        (
            PhaseView::Forwarding { candidate, tip, .. },
            Event::Forwarded(Ok(RefUpdate::Updated)),
        ) => {
            let k = choose|k: int| #[trigger]
                works_on(post, q, k, candidate) && gated_as(q, k, tip);
            assert(!q.lacks_commit(candidate.id)) by {
                if q.lacks_commit(candidate.id) {
                    let l = choose|l: int|
                        0 <= l < q.candidates.len() && (#[trigger] q.candidates[l]).id
                            == candidate.id && q.candidates[l].candidate_sha is None;
                    assert(l == k);
                }
            }
            (Deed::Land { k }, q)
        },
        (PhaseView::Forwarding { candidate, tip, .. }, Event::Forwarded(Ok(RefUpdate::Stale))) => {
            let k = choose|k: int| #[trigger]
                works_on(post, q, k, candidate) && gated_as(q, k, tip);
            (Deed::Abandon { k, state: CandidateState::Superseded }, q)
        },
        _ => (Deed::Nothing, q),
    }
}

/// What merging on does: the commit is recorded once nothing is left to merge.
spec fn testing_does(
    q: Ledger,
    k: int,
    candidate: CandidateView,
    next: int,
    tip: Seq<char>,
    p2: PhaseView,
) -> Deed {
    if next < candidate.entries.len() || p2 is Over {
        Deed::Nothing
    } else {
        Deed::Test { k, sha: tip }
    }
}

/// A queue that is tidy stays tidy, and a phase that fits the rows is followed by
/// one that does: at most one candidate is ever under way in a queue, an entry is
/// out of line exactly while that candidate has it, and the commit that is gated
/// or merged is the one on record.
pub proof fn every_step_keeps_the_queue_tidy(
    post: PostView,
    phase: PhaseView,
    q: Ledger,
    event: Event,
    now: Instant,
    p2: PhaseView,
    q2: Ledger,
)
    requires
        q.wf(),
        tidy(q),
        fits(post, phase, q),
        phase.wf(),
        phase.takes(event),
        post.steps(phase, q, event, now, p2, q2),
    ensures
        tidy(q2),
        fits(post, p2, q2),
{
    let at = written(now);
    let (deed, q1) = a_step_does(post, phase, q, event, now, p2, q2);
    same_queue_tidy(q, q1);
    deed_is_tidy(post, phase, event, q1, deed, at);
    same_queue_tidy(deed.done(post, q1, at), q2);
}

proof fn deed_is_tidy(
    post: PostView,
    phase: PhaseView,
    event: Event,
    q: Ledger,
    deed: Deed,
    at: Seq<char>,
)
    requires
        q.wf(),
        tidy(q),
        deed.is_due(post, phase, event, q),
    ensures
        tidy(deed.done(post, q, at)),
{
    match deed {
        Deed::Nothing => {},
        Deed::Test { k, sha } => testing_is_tidy(q, k, sha, at),
        Deed::Abandon { k, state } => abandoning_is_tidy(q, k, state, at),
        Deed::Land { k } => landing_is_tidy(q, k, at),
        Deed::Blame { k, c, spent, evicted, reason } => blaming_is_tidy(
            q,
            k,
            c,
            spent,
            evicted,
            reason,
            at,
        ),
        Deed::Open { base_sha, list } => opening_is_tidy(
            q,
            post.repo,
            post.base,
            base_sha,
            list,
            None,
            at,
        ),
        Deed::Split { k, base_sha, list } => {
            let id = q.candidates[k].id;
            let mid = q.abandoned(id, CandidateState::Failed, at);
            splitting_leaves_them_waiting(post, phase, event, q, k, base_sha, list, at);
            opening_is_tidy(mid, post.repo, post.base, base_sha, list, Some(id), at);
        },
    }
}

/// Once a failed candidate lets go of its entries, they wait, and nothing is
/// under way in its queue.
proof fn splitting_leaves_them_waiting(
    post: PostView,
    phase: PhaseView,
    event: Event,
    q: Ledger,
    k: int,
    base_sha: Seq<char>,
    list: Seq<EntryId>,
    at: Seq<char>,
)
    requires
        q.wf(),
        tidy(q),
        (Deed::Split { k, base_sha, list }).is_due(post, phase, event, q),
    ensures
        ({
            let mid = q.abandoned(q.candidates[k].id, CandidateState::Failed, at);
            &&& mid.wf()
            &&& tidy(mid)
            &&& mid.next_candidate_id() == q.next_candidate_id()
            &&& forall|i: int|
                0 <= i < list.len() ==> mid.waits(post.repo, post.base, #[trigger] list[i])
            &&& forall|l: int|
                0 <= l < mid.candidates.len() && (#[trigger] mid.candidates[l]).state.active()
                    ==> !mid.candidates[l].in_queue(post.repo, post.base)
        }),
{
    let id = q.candidates[k].id;
    let mid = q.abandoned(id, CandidateState::Failed, at);
    abandoning_is_tidy(q, k, CandidateState::Failed, at);
    assert forall|i: int| 0 <= i < list.len() implies mid.waits(
        post.repo,
        post.base,
        #[trigger] list[i],
    ) by {
        assert(is_member(q.members, id, list[i]));
        let m = choose|m: int|
            0 <= m < q.members.len() && #[trigger] q.members[m].candidate_id == id
                && q.members[m].entry_id == list[i];
        assert(has_entry(q.entries, q.members[m].entry_id));
        let j = choose|j: int| 0 <= j < q.entries.len() && #[trigger] q.entries[j].id == list[i];
        assert(is_member(q.members, q.candidates[k].id, q.entries[j].id));
        assert(q.held_by(id, q.entries[j]));
        assert(mid.entries[j] == q.entries[j].moved(EntryState::Queued, at));
        entry_is_found(mid.entries, j);
    }
    assert forall|l: int|
        0 <= l < mid.candidates.len() && (
        #[trigger] mid.candidates[l]).state.active() implies !mid.candidates[l].in_queue(
        post.repo,
        post.base,
    ) by {
        assert(l != k);
        assert(mid.candidates[l] == q.candidates[l]);
    }
}

/// How an entry fares in a step: it keeps its identity, it moves along its
/// lifecycle if it moves, it pays an attempt only as the culprit and one at a
/// time, it is merged only when the base was moved to the commit that passed, and
/// it is evicted only as the culprit, with nothing left of its budget.
pub open spec fn fares(phase: PhaseView, event: Event, e: EntryRecord, e2: EntryRecord) -> bool {
    let paid = culprit(phase, event) == Some(e.id) && e2.attempts == e.attempts + 1;
    &&& e2.id == e.id
    &&& e2.same_identity(e)
    &&& e2.state == e.state || e.state.leads_to(e2.state)
    &&& e2.attempts == e.attempts || paid
    &&& e2.state == EntryState::Merged && e.state != EntryState::Merged ==> landing(phase, event)
    &&& e2.state == EntryState::Evicted && e.state != EntryState::Evicted ==> paid && e2.attempts
        >= budget(phase)
    &&& e2.attempts != e.attempts && e2.attempts < budget(phase) ==> e2.state == EntryState::Queued
    &&& e2.attempts != e.attempts && e2.attempts >= budget(phase) ==> e2.state
        == EntryState::Evicted
}

/// Every entry fares so in every step.
pub proof fn entries_fare_as_promised(
    post: PostView,
    phase: PhaseView,
    q: Ledger,
    event: Event,
    now: Instant,
    p2: PhaseView,
    q2: Ledger,
    j: int,
)
    requires
        q.wf(),
        tidy(q),
        fits(post, phase, q),
        phase.wf(),
        phase.takes(event),
        post.steps(phase, q, event, now, p2, q2),
        0 <= j < q.entries.len(),
    ensures
        q2.entries.len() == q.entries.len(),
        fares(phase, event, q.entries[j], q2.entries[j]),
{
    let at = written(now);
    let (deed, q1) = a_step_does(post, phase, q, event, now, p2, q2);
    same_queue_tidy(q, q1);
    match deed {
        Deed::Land { k } => {
            if is_member(q1.members, q1.candidates[k].id, q1.entries[j].id) {
                assert(q1.entries[j].state == EntryState::Batched);
            }
        },
        Deed::Blame { k, c, spent, evicted, reason } => {
            assert(q1.entries[c].state == EntryState::Batched);
            if q1.entries[j].id == q1.entries[c].id {
                assert(j == c);
            }
        },
        Deed::Open { base_sha, list } => {
            if list.contains(q1.entries[j].id) {
                let i = choose|i: int| 0 <= i < list.len() && list[i] == q1.entries[j].id;
                assert(q1.waits(post.repo, post.base, list[i]));
                entry_is_found(q1.entries, j);
            }
        },
        Deed::Split { k, base_sha, list } => {
            let mid = q1.abandoned(q1.candidates[k].id, CandidateState::Failed, at);
            if list.contains(mid.entries[j].id) {
                let i = choose|i: int| 0 <= i < list.len() && list[i] == q1.entries[j].id;
                assert(is_member(q1.members, q1.candidates[k].id, list[i]));
                assert(is_member(q1.members, q1.candidates[k].id, q1.entries[j].id));
            }
        },
        _ => {},
    }
}

/// Nobody is charged for what was not their own doing. Unless a step pins the
/// candidate on an entry, no entry pays: not for a base that moved, not for a gate
/// that was interrupted, not for a batch-mate that failed.
pub proof fn only_a_culprit_pays(
    post: PostView,
    phase: PhaseView,
    q: Ledger,
    event: Event,
    now: Instant,
    p2: PhaseView,
    q2: Ledger,
    j: int,
)
    requires
        q.wf(),
        tidy(q),
        fits(post, phase, q),
        phase.wf(),
        phase.takes(event),
        post.steps(phase, q, event, now, p2, q2),
        0 <= j < q.entries.len(),
        culprit(phase, event) != Some(q.entries[j].id),
    ensures
        q2.entries[j].attempts == q.entries[j].attempts,
        q2.entries[j].state != EntryState::Evicted || q.entries[j].state == EntryState::Evicted,
{
    entries_fare_as_promised(post, phase, q, event, now, p2, q2, j);
}

/// An entry that is out of the queue for good stays as it is.
pub proof fn settled_is_settled(
    post: PostView,
    phase: PhaseView,
    q: Ledger,
    event: Event,
    now: Instant,
    p2: PhaseView,
    q2: Ledger,
    j: int,
)
    requires
        q.wf(),
        tidy(q),
        fits(post, phase, q),
        phase.wf(),
        phase.takes(event),
        post.steps(phase, q, event, now, p2, q2),
        0 <= j < q.entries.len(),
        q.entries[j].state.terminal(),
    ensures
        q2.entries[j].state == q.entries[j].state,
{
    entries_fare_as_promised(post, phase, q, event, now, p2, q2, j);
}

/// Exactly what was gated is merged. A branch is only ever asked to be moved right
/// after the merge gate passed, to the commit that it passed on, which is the one on
/// record, and from the base that the candidate was put together on.
pub proof fn only_what_was_gated_is_merged(
    post: PostView,
    phase: PhaseView,
    q: Ledger,
    event: Event,
    now: Instant,
    p2: PhaseView,
    q2: Ledger,
    refname: Seq<char>,
    from: Seq<char>,
    to: Seq<char>,
)
    requires
        q.wf(),
        tidy(q),
        fits(post, phase, q),
        phase.wf(),
        phase.takes(event),
        post.steps(phase, q, event, now, p2, q2),
        post.asks(p2) == (Ask::FastForward { refname, from, to }),
    ensures
        refname == post.base,
        event == Event::Gated(Ok(Verdict::Passed)),
        post.asks(phase) matches Ask::RunGate { candidate, .. } && candidate == to,
        exists|k: int|
            0 <= k < q2.candidates.len() && #[trigger] gated_as(q2, k, to) && spelled_id(
                q2.candidates[k].base_sha,
            ) == spelled_id(from) && q2.candidates[k].in_queue(post.repo, post.base),
{
    every_step_keeps_the_queue_tidy(post, phase, q, event, now, p2, q2);
    assert(p2 is Forwarding);
    let candidate = p2->Forwarding_candidate;
    let k = choose|k: int| #[trigger] works_on(post, q2, k, candidate) && gated_as(q2, k, to);
    assert(gated_as(q2, k, to));
}

/// A candidate that landed landed as the commit that was gated, and a base that
/// moved meanwhile lets nothing land.
pub proof fn a_moved_base_lets_nothing_land(
    post: PostView,
    phase: PhaseView,
    q: Ledger,
    event: Event,
    now: Instant,
    p2: PhaseView,
    q2: Ledger,
    j: int,
)
    requires
        q.wf(),
        tidy(q),
        fits(post, phase, q),
        phase.wf(),
        phase is Forwarding,
        event is Forwarded,
        event != Event::Forwarded(Ok(RefUpdate::Updated)),
        post.steps(phase, q, event, now, p2, q2),
        0 <= j < q.entries.len(),
        q.entries[j].state != EntryState::Merged,
    ensures
        q2.entries[j].state != EntryState::Merged,
        q2.entries[j].attempts == q.entries[j].attempts,
{
    entries_fare_as_promised(post, phase, q, event, now, p2, q2, j);
}

/// Everything in a candidate that passed lands, once the base was moved to it.
pub proof fn a_passing_candidate_lands_whole(
    post: PostView,
    phase: PhaseView,
    q: Ledger,
    event: Event,
    now: Instant,
    p2: PhaseView,
    q2: Ledger,
    j: int,
)
    requires
        q.wf(),
        tidy(q),
        fits(post, phase, q),
        landing(phase, event),
        post.steps(phase, q, event, now, p2, q2),
        0 <= j < q.entries.len(),
        ids(phase->Forwarding_candidate.entries).contains(q.entries[j].id),
    ensures
        q2.entries[j].state == EntryState::Merged,
        q2.entries[j].attempts == q.entries[j].attempts,
        !(p2 matches PhaseView::Over { result: Err(_) }),
{
    let candidate = phase->Forwarding_candidate;
    let tip = phase->Forwarding_tip;
    let k = choose|k: int| #[trigger] works_on(post, q, k, candidate) && gated_as(q, k, tip);
    assert(!q.lacks_commit(candidate.id)) by {
        if q.lacks_commit(candidate.id) {
            let l = choose|l: int|
                0 <= l < q.candidates.len() && (#[trigger] q.candidates[l]).id == candidate.id
                    && q.candidates[l].candidate_sha is None;
            assert(l == k);
        }
    }
    assert(is_member(q.members, candidate.id, q.entries[j].id));
    let (r, q1) = choose|r: Result<usize, StoreError>, q1: Ledger|
        {
            &&& #[trigger] land_gives(q, candidate.id, written(now), r, q1)
            &&& match r {
                Err(e) => post.ends(q1, Err(crate::tick::TickError::Store(e)), p2, q2),
                Ok(entries) => post.reaches(
                    q1,
                    crate::worker::OutcomeView::Landed {
                        candidate: candidate.id,
                        entries,
                        at: tip,
                    },
                    phase->Forwarding_config.on_settle,
                    settlements(q1, ids(candidate.entries)),
                    p2,
                    q2,
                ),
            }
        };
    assert(r is Ok);
    assert(q1.entries[j] == q.entries[j].moved(EntryState::Merged, written(now)));
}

/// A gate that was interrupted says nothing: everything in the candidate goes back
/// in line, with nothing spent and no verdict on record.
pub proof fn an_interruption_is_nobodys_fault(
    post: PostView,
    phase: PhaseView,
    q: Ledger,
    now: Instant,
    p2: PhaseView,
    q2: Ledger,
    j: int,
)
    requires
        q.wf(),
        tidy(q),
        fits(post, phase, q),
        phase is Asking,
        post.steps(phase, q, Event::Interrupted(true), now, p2, q2),
        0 <= j < q.entries.len(),
        ids(phase->Asking_candidate.entries).contains(q.entries[j].id),
    ensures
        q2.entries[j].state == EntryState::Queued,
        q2.entries[j].attempts == q.entries[j].attempts,
        q2.members == q.members,
{
    let candidate = phase->Asking_candidate;
    let k = choose|k: int| #[trigger]
        works_on(post, q, k, candidate) && q.candidates[k].state == CandidateState::Testing;
    assert(is_member(q.members, candidate.id, q.entries[j].id));
    assert(is_member(q.members, q.candidates[k].id, q.entries[j].id));
    assert(q.held_by(candidate.id, q.entries[j]));
}

/// A candidate moves along its lifecycle if it moves, but for one that is still
/// being put together when an entry turns out to conflict: it has failed without
/// ever having been gated.
pub proof fn candidates_keep_to_their_lifecycle(
    post: PostView,
    phase: PhaseView,
    q: Ledger,
    event: Event,
    now: Instant,
    p2: PhaseView,
    q2: Ledger,
    l: int,
)
    requires
        q.wf(),
        tidy(q),
        fits(post, phase, q),
        phase.wf(),
        phase.takes(event),
        post.steps(phase, q, event, now, p2, q2),
        0 <= l < q.candidates.len(),
    ensures
        q2.candidates.len() >= q.candidates.len(),
        q2.candidates[l].id == q.candidates[l].id,
        spelled_id(q2.candidates[l].base_sha) == spelled_id(q.candidates[l].base_sha),
        q2.candidates[l].state == q.candidates[l].state || q.candidates[l].state.leads_to(
            q2.candidates[l].state,
        ) || (event == Event::Merged(Ok(MergeOutcome::Conflicted)) && q.candidates[l].state
            == CandidateState::Building && q2.candidates[l].state == CandidateState::Failed),
{
    let (deed, q1) = a_step_does(post, phase, q, event, now, p2, q2);
    match deed {
        Deed::Test { k, .. } => {
            if q1.candidates[l].id == q1.candidates[k].id {
                assert(l == k);
            }
        },
        Deed::Abandon { k, .. } => {
            if q1.candidates[l].id == q1.candidates[k].id {
                assert(l == k);
            }
        },
        Deed::Land { k } => {
            if q1.candidates[l].id == q1.candidates[k].id {
                assert(l == k);
            }
        },
        Deed::Blame { k, .. } => {
            if q1.candidates[l].id == q1.candidates[k].id {
                assert(l == k);
            }
        },
        Deed::Split { k, .. } => {
            if q1.candidates[l].id == q1.candidates[k].id {
                assert(l == k);
            }
        },
        _ => {},
    }
}

/// A candidate keeps its logs for as long as it is being assembled or gated:
/// whatever a step does, every run is still there, only what it says of its log
/// may have changed, and that only once its candidate, of this queue, is finished
/// with.
pub proof fn logs_go_only_once_finished(
    post: PostView,
    phase: PhaseView,
    q: Ledger,
    event: Event,
    now: Instant,
    p2: PhaseView,
    q2: Ledger,
    i: int,
)
    requires
        q.wf(),
        tidy(q),
        fits(post, phase, q),
        phase.wf(),
        phase.takes(event),
        post.steps(phase, q, event, now, p2, q2),
        0 <= i < q.runs.len(),
    ensures
        i < q2.runs.len(),
        q2.runs[i] == (RunRecord {
            log_path: q2.runs[i].log_path,
            tail: q2.runs[i].tail,
            ..q.runs[i]
        }),
        !is_finished(q, post.repo, post.base, q.runs[i]) ==> q2.runs[i] == q.runs[i],
{
    let (deed, q1) = a_step_does(post, phase, q, event, now, p2, q2);
    assert(q2.runs[i] == q1.runs[i]) by {
        if q2.runs != q1.runs {
            assert(q2.runs.drop_last()[i] == q1.runs[i]);
        }
    }
}

/// Queues on different base branches are independent: a tick on one touches no
/// entry, no candidate and no run of another.
pub proof fn other_queues_are_untouched(
    post: PostView,
    phase: PhaseView,
    q: Ledger,
    event: Event,
    now: Instant,
    p2: PhaseView,
    q2: Ledger,
)
    requires
        q.wf(),
        tidy(q),
        fits(post, phase, q),
        phase.wf(),
        phase.takes(event),
        post.steps(phase, q, event, now, p2, q2),
    ensures
        forall|j: int|
            0 <= j < q.entries.len() && !q.entries[j].in_queue(post.repo, post.base)
                ==> #[trigger] q2.entries[j] == q.entries[j],
        forall|l: int|
            0 <= l < q.candidates.len() && !q.candidates[l].in_queue(post.repo, post.base)
                ==> #[trigger] q2.candidates[l] == q.candidates[l],
        forall|i: int|
            0 <= i < q.runs.len() && (q.candidate(q.runs[i].candidate_id) matches Some(c)
                ==> !c.in_queue(post.repo, post.base)) ==> #[trigger] q2.runs[i] == q.runs[i],
{
    let at = written(now);
    let (deed, q1) = a_step_does(post, phase, q, event, now, p2, q2);
    same_queue_tidy(q, q1);
    assert forall|j: int|
        0 <= j < q.entries.len() && !q.entries[j].in_queue(
            post.repo,
            post.base,
        ) implies #[trigger] q2.entries[j] == q.entries[j] by {
        untouched_entry(post, phase, event, q1, deed, at, j);
    }
    assert forall|l: int|
        0 <= l < q.candidates.len() && !q.candidates[l].in_queue(
            post.repo,
            post.base,
        ) implies #[trigger] q2.candidates[l] == q.candidates[l] by {
        untouched_candidate(post, phase, event, q1, deed, at, l);
    }
    assert forall|i: int|
        0 <= i < q.runs.len() && (q.candidate(q.runs[i].candidate_id) matches Some(c)
            ==> !c.in_queue(post.repo, post.base)) implies #[trigger] q2.runs[i] == q.runs[i] by {
        logs_go_only_once_finished(post, phase, q, event, now, p2, q2, i);
    }
}

proof fn untouched_entry(
    post: PostView,
    phase: PhaseView,
    event: Event,
    q: Ledger,
    deed: Deed,
    at: Seq<char>,
    j: int,
)
    requires
        q.wf(),
        tidy(q),
        deed.is_due(post, phase, event, q),
        0 <= j < q.entries.len(),
        !q.entries[j].in_queue(post.repo, post.base),
    ensures
        deed.done(post, q, at).entries[j] == q.entries[j],
{
    match deed {
        Deed::Abandon { k, .. } => {
            assert(!is_member(q.members, q.candidates[k].id, q.entries[j].id));
        },
        Deed::Land { k } => {
            assert(!is_member(q.members, q.candidates[k].id, q.entries[j].id));
        },
        Deed::Blame { k, c, .. } => {
            assert(!is_member(q.members, q.candidates[k].id, q.entries[j].id));
        },
        Deed::Open { list, .. } => {
            if list.contains(q.entries[j].id) {
                let i = choose|i: int| 0 <= i < list.len() && list[i] == q.entries[j].id;
                assert(q.waits(post.repo, post.base, list[i]));
                entry_is_found(q.entries, j);
            }
        },
        Deed::Split { k, list, .. } => {
            assert(!is_member(q.members, q.candidates[k].id, q.entries[j].id));
            if list.contains(q.entries[j].id) {
                let i = choose|i: int| 0 <= i < list.len() && list[i] == q.entries[j].id;
                assert(is_member(q.members, q.candidates[k].id, list[i]));
            }
        },
        _ => {},
    }
}

proof fn untouched_candidate(
    post: PostView,
    phase: PhaseView,
    event: Event,
    q: Ledger,
    deed: Deed,
    at: Seq<char>,
    l: int,
)
    requires
        q.wf(),
        deed.is_due(post, phase, event, q),
        0 <= l < q.candidates.len(),
        !q.candidates[l].in_queue(post.repo, post.base),
    ensures
        deed.done(post, q, at).candidates[l] == q.candidates[l],
{
    match deed {
        Deed::Test { k, .. } => {
            assert(q.candidates[l].id != q.candidates[k].id || l == k);
        },
        Deed::Abandon { k, .. } => {
            assert(q.candidates[l].id != q.candidates[k].id || l == k);
        },
        Deed::Land { k } => {
            assert(q.candidates[l].id != q.candidates[k].id || l == k);
        },
        Deed::Blame { k, .. } => {
            assert(q.candidates[l].id != q.candidates[k].id || l == k);
        },
        Deed::Split { k, .. } => {
            assert(q.candidates[l].id != q.candidates[k].id || l == k);
        },
        _ => {},
    }
}

/// A tick that is over holds no lease, whatever it came to, and until it is over
/// it leaves the leases alone.
pub proof fn the_lease_is_given_back(
    post: PostView,
    phase: PhaseView,
    q: Ledger,
    event: Event,
    now: Instant,
    p2: PhaseView,
    q2: Ledger,
)
    requires
        q.wf(),
        tidy(q),
        fits(post, phase, q),
        phase.wf(),
        phase.takes(event),
        post.steps(phase, q, event, now, p2, q2),
    ensures
        p2 is Over ==> (post.lease matches Some(l) ==> !q2.holds_token(
            l.repo_path,
            l.base_branch,
            l.token,
        )),
        !(p2 is Over) ==> q2.leases == q.leases,
{
    let (deed, q1) = a_step_does(post, phase, q, event, now, p2, q2);
    if p2 is Over {
        if let Some(l) = post.lease {
            let pred = |x: crate::queue::ledger::LeaseRecord|
                !(x.covers(l.repo_path, l.base_branch) && x.token == l.token);
            assert(q2.leases == q.leases.filter(pred));
            crate::queue::ledger::lease_found_is_there(q2.leases, l.repo_path, l.base_branch);
            if let Some(x) = q2.lease(l.repo_path, l.base_branch) {
                let i = choose|i: int| 0 <= i < q2.leases.len() && q2.leases[i] == x;
                q.leases.lemma_filter_pred(pred, i);
            }
        }
    }
}

/// The configuration that a phase goes by, if it has read one.
pub open spec fn goes_by(phase: PhaseView) -> Option<ConfigView> {
    match phase {
        PhaseView::Measuring { config, .. } => Some(config),
        PhaseView::Pruning { config, .. } => Some(config),
        PhaseView::CheckingOut { config, .. } => Some(config),
        PhaseView::Merging { config, .. } => Some(config),
        PhaseView::Gating { config, .. } => Some(config),
        PhaseView::Asking { config, .. } => Some(config),
        PhaseView::Forwarding { config, .. } => Some(config),
        _ => None,
    }
}

/// The base commit that a phase goes by, if it has resolved one.
pub open spec fn stands_on(phase: PhaseView) -> Option<Seq<char>> {
    match phase {
        PhaseView::Configuring { base } => Some(base),
        PhaseView::Measuring { base, .. } => Some(base),
        PhaseView::Pruning { base, .. } => Some(base),
        PhaseView::CheckingOut { candidate, .. } => Some(candidate.base_sha),
        PhaseView::Merging { candidate, .. } => Some(candidate.base_sha),
        PhaseView::Gating { candidate, .. } => Some(candidate.base_sha),
        PhaseView::Asking { candidate, .. } => Some(candidate.base_sha),
        PhaseView::Forwarding { candidate, .. } => Some(candidate.base_sha),
        _ => None,
    }
}

/// A queued branch cannot choose the command that runs. The configuration comes
/// out of the file at the base commit, once, and the candidate is put together on
/// that same commit; neither changes for the rest of the tick.
pub proof fn the_gate_comes_from_the_base(
    post: PostView,
    phase: PhaseView,
    q: Ledger,
    event: Event,
    now: Instant,
    p2: PhaseView,
    q2: Ledger,
)
    requires
        post.steps(phase, q, event, now, p2, q2),
    ensures
        goes_by(phase) is Some && goes_by(p2) is Some ==> goes_by(p2) == goes_by(phase),
        stands_on(phase) is Some && stands_on(p2) is Some ==> stands_on(p2) == stands_on(phase),
        goes_by(phase) is None && goes_by(p2) is Some ==> {
            &&& post.asks(phase) == Ask::ReadFile {
                at: stands_on(p2)->0,
                path: crate::config::CONFIG_PATH@,
            }
            &&& exists|source: String, r: Result<crate::config::Config, crate::config::ConfigError>|
                {
                    &&& event == Event::File(Ok(Some(source)))
                    &&& #[trigger] crate::tick::config_gives(source@, r)
                    &&& r matches Ok(config) && goes_by(p2) == Some(config@)
                }
        },
        post.asks(p2) matches Ask::RunGate { command, .. } ==> goes_by(p2) matches Some(config)
            && command == config.gate,
        post.asks(p2) matches Ask::CheckOut { at } ==> stands_on(p2) == Some(at),
{
    match (phase, event) {
        (PhaseView::Measuring { base, config, .. }, Event::Measured(measured)) => {
            let list = standing(q, post.repo, post.base, measured_views(measured@));
            if crate::logs::total(found(list)) <= u64::MAX {
                let prune = begun(crate::logs::removals(found(list), config.log_budget));
                if prune.stage == PruneStage::Over {
                    picks_on_the_base(
                        post,
                        prune.turned_rows(reconciled(q, list)),
                        base,
                        config,
                        now,
                        p2,
                        q2,
                    );
                }
            }
        },
        (PhaseView::Pruning { base, config, prune }, Event::Pruned(e)) => {
            if prune.after(e).stage == PruneStage::Over && prune.after(e).failure is None {
                picks_on_the_base(post, prune.rows_after(q, e), base, config, now, p2, q2);
            }
        },
        (PhaseView::Configuring { base }, Event::File(Ok(Some(source)))) => {
            let r = choose|r: Result<crate::config::Config, crate::config::ConfigError>|
                {
                    &&& #[trigger] crate::tick::config_gives(source@, r)
                    &&& match r {
                        Ok(config) => p2 == PhaseView::Measuring {
                            base,
                            config: config@,
                            runs: q.logged(post.repo, post.base),
                        } && q2 == q,
                        Err(e) => post.ends(q, Err(crate::tick::TickError::Config(e)), p2, q2),
                    }
                };
            assert(crate::tick::config_gives(source@, r));
        },
        _ => {},
    }
}

proof fn picks_on_the_base(
    post: PostView,
    q: Ledger,
    base: Seq<char>,
    config: ConfigView,
    now: Instant,
    p2: PhaseView,
    q2: Ledger,
)
    requires
        post.picks(q, base, config, now, p2, q2),
    ensures
        p2 is Over || (p2 matches PhaseView::CheckingOut { config: c, candidate } && c == config
            && candidate.base_sha == base),
{
}

/// How far a tick has yet to go.
pub open spec fn distance(phase: PhaseView) -> (nat, nat) {
    match phase {
        PhaseView::Listing => (11, 0),
        PhaseView::Resolving => (10, 0),
        PhaseView::Configuring { .. } => (9, 0),
        PhaseView::Measuring { .. } => (8, 0),
        PhaseView::Pruning { prune, .. } => (7, prune_measure(prune)),
        PhaseView::CheckingOut { .. } => (6, 0),
        PhaseView::Merging { candidate, next, .. } => (5, (candidate.entries.len() - next) as nat),
        PhaseView::Gating { .. } => (4, 0),
        PhaseView::Asking { .. } => (3, 0),
        PhaseView::Forwarding { .. } => (2, 0),
        PhaseView::Announcing { list, announcements, .. } => (
            1,
            (list.len() - announcements.len()) as nat,
        ),
        PhaseView::Over { .. } => (0, 0),
    }
}

/// Every tick ends: each answer brings it closer.
pub proof fn every_tick_ends(
    post: PostView,
    phase: PhaseView,
    q: Ledger,
    event: Event,
    now: Instant,
    p2: PhaseView,
    q2: Ledger,
)
    requires
        phase.wf(),
        phase.takes(event),
        post.steps(phase, q, event, now, p2, q2),
    ensures
        distance(p2).0 < distance(phase).0 || (distance(p2).0 == distance(phase).0 && distance(
            p2,
        ).1 < distance(phase).1),
{
    match (phase, event) {
        (PhaseView::Measuring { base, config, .. }, Event::Measured(measured)) => {
            let list = standing(q, post.repo, post.base, measured_views(measured@));
            if crate::logs::total(found(list)) <= u64::MAX {
                let prune = begun(crate::logs::removals(found(list), config.log_budget));
                if prune.stage == PruneStage::Over {
                    picks_on_the_base(
                        post,
                        prune.turned_rows(reconciled(q, list)),
                        base,
                        config,
                        now,
                        p2,
                        q2,
                    );
                }
            }
        },
        (PhaseView::Pruning { base, config, prune }, Event::Pruned(e)) => {
            prune_ends(prune, e);
            if prune.after(e).stage == PruneStage::Over && prune.after(e).failure is None {
                picks_on_the_base(post, prune.rows_after(q, e), base, config, now, p2, q2);
            }
        },
        _ => {},
    }
}

/// The announcements made so far are of the entries that settled, in order.
pub open spec fn told_in_order(phase: PhaseView) -> bool {
    match phase {
        PhaseView::Announcing { list, announcements, .. } => forall|i: int|
            0 <= i < announcements.len() ==> (#[trigger] announcements[i]).settled == list[i],
        _ => true,
    }
}

/// Each entry that settled is announced once, in order, and the report has what
/// came of each. A hook that fails changes nothing of the outcome.
pub proof fn each_is_told_once(
    post: PostView,
    phase: PhaseView,
    q: Ledger,
    event: Event,
    now: Instant,
    p2: PhaseView,
    q2: Ledger,
)
    requires
        phase.wf(),
        phase.takes(event),
        told_in_order(phase),
        post.steps(phase, q, event, now, p2, q2),
    ensures
        told_in_order(p2),
        phase matches PhaseView::Announcing { outcome, list, .. } ==> match p2 {
            PhaseView::Announcing { outcome: same, list: all, .. } => same == outcome && all == list,
            PhaseView::Over { result } => {
                &&& result matches Ok(report)
                &&& report.outcome == outcome
                &&& report.announcements.len() == list.len()
                &&& forall|i: int|
                    0 <= i < list.len() ==> (#[trigger] report.announcements[i]).settled == list[i]
            },
            _ => false,
        },
{
    match (phase, event) {
        (PhaseView::Measuring { base, config, .. }, Event::Measured(measured)) => {
            let list = standing(q, post.repo, post.base, measured_views(measured@));
            if crate::logs::total(found(list)) <= u64::MAX {
                let prune = begun(crate::logs::removals(found(list), config.log_budget));
                if prune.stage == PruneStage::Over {
                    picks_on_the_base(
                        post,
                        prune.turned_rows(reconciled(q, list)),
                        base,
                        config,
                        now,
                        p2,
                        q2,
                    );
                }
            }
        },
        (PhaseView::Pruning { base, config, prune }, Event::Pruned(e)) => {
            if prune.after(e).stage == PruneStage::Over && prune.after(e).failure is None {
                picks_on_the_base(post, prune.rows_after(q, e), base, config, now, p2, q2);
            }
        },
        _ => {},
    }
}

/// Everything in a candidate that landed is announced as merged, in merge order.
pub proof fn every_landing_is_announced(q: Ledger, candidate: i64, at: Seq<char>, list: Seq<EntryId>)
    requires
        q.wf(),
        forall|i: int|
            0 <= i < list.len() ==> is_member(q.members, candidate, #[trigger] list[i]),
    ensures
        settlements(q.landed(candidate, at), list).len() == list.len(),
        forall|i: int|
            0 <= i < list.len() ==> {
                let told = #[trigger] settlements(q.landed(candidate, at), list)[i];
                told.entry == list[i] && told.state == EntryState::Merged
            },
    decreases list.len(),
{
    if list.len() > 0 {
        let b = q.landed(candidate, at);
        let rest = list.drop_last();
        assert forall|i: int| 0 <= i < rest.len() implies is_member(
            q.members,
            candidate,
            #[trigger] rest[i],
        ) by {
            assert(rest[i] == list[i]);
        }
        every_landing_is_announced(q, candidate, at, rest);
        let id = list.last();
        assert(id == list[list.len() - 1]);
        let m = choose|m: int|
            0 <= m < q.members.len() && #[trigger] q.members[m].candidate_id == candidate
                && q.members[m].entry_id == id;
        assert(has_entry(q.entries, q.members[m].entry_id));
        let j = choose|j: int| 0 <= j < q.entries.len() && #[trigger] q.entries[j].id == id;
        assert(q.member(candidate, q.entries[j].id));
        assert(b.entries[j] == q.entries[j].moved(EntryState::Merged, at));
        assert forall|x: int, y: int| 0 <= x < y < b.entries.len() implies #[trigger] b.entries[x].id
            < #[trigger] b.entries[y].id by {
            assert(q.entries[x].id < q.entries[y].id);
        }
        entry_is_found(b.entries, j);
    }
}

/// A culprit is announced exactly when it is evicted: a requeue announces nothing,
/// being work that has not finished happening.
pub proof fn only_an_eviction_is_announced(
    q: Ledger,
    candidate: i64,
    c: int,
    spent: u32,
    evicted: bool,
    reason: Seq<char>,
    at: Seq<char>,
)
    requires
        q.wf(),
        0 <= c < q.entries.len(),
    ensures
        ({
            let id = q.entries[c].id;
            let told = settlements(
                q.blamed(candidate, id, spent, evicted, reason, at),
                seq![id],
            );
            if evicted {
                &&& told.len() == 1
                &&& told[0].entry == id
                &&& told[0].state == EntryState::Evicted
                &&& told[0].attempts == spent
                &&& told[0].reason == Some(reason)
            } else {
                told.len() == 0
            }
        }),
{
    let id = q.entries[c].id;
    let b = q.blamed(candidate, id, spent, evicted, reason, at);
    assert forall|x: int, y: int| 0 <= x < y < b.entries.len() implies #[trigger] b.entries[x].id
        < #[trigger] b.entries[y].id by {
        assert(q.entries[x].id < q.entries[y].id);
    }
    entry_is_found(b.entries, c);
    assert(seq![id].drop_last() =~= Seq::<EntryId>::empty());
    reveal_with_fuel(settlements, 3);
}

/// The first half of a failed candidate, and nothing else of it, is tried next.
pub proof fn the_first_half_is_retried(entries: Seq<EntryView>)
    requires
        ids(entries).no_duplicates(),
    ensures
        retried(entries) == entries.take(entries.len() as int / 2),
        ids(retried(entries)) == first_half(ids(entries)),
{
    let all = ids(entries);
    let half = first_half(all);
    let n = entries.len() as int / 2;
    let pred = |e: EntryView| half.contains(e.id);
    assert(half =~= all.take(n));
    assert forall|i: int| 0 <= i < entries.len() implies pred(#[trigger] entries[i]) == (i < n) by {
        assert(all[i] == entries[i].id);
        if i < n {
            assert(half[i] == entries[i].id);
        } else if half.contains(entries[i].id) {
            let m = choose|m: int| 0 <= m < half.len() && half[m] == entries[i].id;
            assert(all[m] == all[i]);
        }
    }
    front_is_kept(entries, pred, n);
    assert(ids(entries.take(n)) =~= all.take(n));
}

/// Keeping exactly the front of a list leaves the front.
proof fn front_is_kept(s: Seq<EntryView>, pred: spec_fn(EntryView) -> bool, n: int)
    requires
        0 <= n <= s.len(),
        forall|i: int| 0 <= i < s.len() ==> pred(#[trigger] s[i]) == (i < n),
    ensures
        s.filter(pred) == s.take(n),
    decreases s.len(),
{
    reveal(Seq::filter);
    if s.len() > 0 {
        let rest = s.drop_last();
        assert forall|i: int| 0 <= i < rest.len() implies pred(#[trigger] rest[i]) == (i
            < if n <= rest.len() { n } else { rest.len() as int }) by {
            assert(rest[i] == s[i]);
        }
        front_is_kept(rest, pred, if n <= rest.len() { n } else { rest.len() as int });
        assert(pred(s[s.len() - 1]) == (s.len() - 1 < n));
        if n == s.len() {
            assert(s.take(n) =~= rest.take(rest.len() as int).push(s.last()));
        } else {
            assert(s.take(n) =~= rest.take(n));
        }
    } else {
        assert(s.filter(pred) =~= s.take(n));
    }
}

/// A tick begins on a queue that is tidy, in a phase that fits it. If another
/// worker holds the branch it is over before it began, and nothing was touched.
pub proof fn a_tick_begins_tidily(
    q: Ledger,
    post: PostView,
    ttl: crate::time::Span,
    now: Instant,
    pid: i32,
    holder: crate::queue::lease::Liveness,
    phase: PhaseView,
    q2: Ledger,
)
    requires
        q.wf(),
        tidy(q),
        crate::tick::begins(q, post, ttl, now, pid, holder, phase, q2),
    ensures
        tidy(q2),
        fits(post, phase, q2),
        told_in_order(phase),
        phase is Over ==> q2 == q && post.lease is None,
        phase is Listing ==> (post.lease matches Some(l) && q2.holds_token(
            l.repo_path,
            l.base_branch,
            l.token,
        )),
{
    let r = choose|r: Result<crate::queue::lease::Acquisition, crate::queue::lease::LeaseError>|
        {
            &&& #[trigger] crate::queue::lease::acquire_gives(
                q,
                post.repo,
                post.base,
                ttl,
                now,
                pid,
                holder,
                r,
                q2,
            )
            &&& match r {
                Ok(crate::queue::lease::Acquisition::Acquired { lease, .. }) => {
                    &&& post.lease == Some(lease@)
                    &&& phase == PhaseView::Listing
                },
                Ok(crate::queue::lease::Acquisition::Held { holder_pid, .. }) => {
                    &&& post.lease is None
                    &&& phase is Over
                },
                Err(_) => {
                    &&& post.lease is None
                    &&& phase is Over
                },
            }
        };
    if let Ok(crate::queue::lease::Acquisition::Acquired { lease, .. }) = r {
        crate::queue::laws::reclaiming_frees_the_queue(q, post.repo, post.base, written(now));
        let cleared = q.superseded(post.repo, post.base, written(now));
        same_queue_tidy(q, Ledger { leases: q2.leases, ..q });
        same_queue_tidy(cleared, Ledger { leases: q2.leases, ..cleared });
        let row = crate::queue::lease::lease_row(post.repo, post.base, pid, now, lease@.expires_at);
        assert(q2.leases.last() == row);
    }
}

} // verus!
