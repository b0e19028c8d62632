//! What a tick is for.
//!
//! What is stated here speaks of what a tick asks for, what it is answered and
//! what the rows say before and after: everything in a candidate is merged before
//! it is gated, a verdict decides what happens to the base, and whoever is at
//! fault pays for it and nobody else does.

use vstd::prelude::*;

use crate::git::MergeOutcome;
use crate::queue::ledger::CandidateView;
use crate::queue::ledger::Ledger;
use crate::tick::Ask;
use crate::tick::Event;
use crate::tick::PhaseView;
use crate::tick::PostView;
use crate::time::Instant;

verus! {

/// One step of a tick: where it was, what it was answered, where it went.
pub struct Stride {
    pub phase: PhaseView,
    pub q: Ledger,
    pub event: Event,
    pub now: Instant,
    pub p2: PhaseView,
    pub q2: Ledger,
}

/// The steps of one tick, from its first on. Between two of them the rows may be
/// changed by others.
pub open spec fn is_trail(post: PostView, trail: Seq<Stride>) -> bool {
    &&& trail.len() > 0 ==> trail[0].phase == PhaseView::Listing
    &&& forall|i: int|
        0 <= i < trail.len() ==> {
            let s = #[trigger] trail[i];
            &&& s.phase.wf()
            &&& s.phase.takes(s.event)
            &&& post.steps(s.phase, s.q, s.event, s.now, s.p2, s.q2)
        }
    &&& forall|i: int, j: int|
        0 <= i && j == i + 1 && j < trail.len() ==> (#[trigger] trail[i]).p2 == (
        #[trigger] trail[j]).phase
}

/// A merge that worked, of this commit.
pub open spec fn is_merge_of(post: PostView, s: Stride, commit: Seq<char>) -> bool {
    &&& post.asks(s.phase) matches Ask::Merge { commit: asked, .. } && asked == commit
    &&& s.event matches Event::Merged(Ok(MergeOutcome::Merged(_)))
}

/// The commit that a merge that worked left behind.
pub open spec fn merged_as(s: Stride) -> Seq<char> {
    match s.event {
        Event::Merged(Ok(MergeOutcome::Merged(sha))) => sha@,
        _ => Seq::empty(),
    }
}

/// The last so many steps of a trail put so many entries of a candidate together:
/// the step before them put the checkout on the candidate's base, and each of
/// them merged the next entry's commit.
pub open spec fn puts_together(
    post: PostView,
    trail: Seq<Stride>,
    candidate: CandidateView,
    n: int,
    tip: Seq<char>,
) -> bool {
    let first = trail.len() - n;
    &&& 0 <= n <= candidate.entries.len()
    &&& 1 <= first
    &&& post.asks(trail[first - 1].phase) == (Ask::CheckOut { at: candidate.base_sha })
    &&& trail[first - 1].event matches Event::CheckedOut(Ok(_))
    &&& forall|j: int|
        0 <= j < n ==> is_merge_of(
            post,
            #[trigger] trail[first + j],
            candidate.entries[j].branch_sha,
        )
    &&& tip == if n == 0 {
        candidate.base_sha
    } else {
        merged_as(trail[trail.len() - 1])
    }
}

/// A step leads to a run of the merge gate only from the merge of the last entry
/// of the candidate, or from the base where the candidate has none. Short of that,
/// an entry that was merged is followed by the merge of the next, and the first
/// comes right after the checkout of the base.
pub proof fn every_entry_has_its_turn(
    post: PostView,
    phase: PhaseView,
    q: Ledger,
    event: Event,
    now: Instant,
    p2: PhaseView,
    q2: Ledger,
)
    requires
        phase.wf(),
        phase.takes(event),
        post.steps(phase, q, event, now, p2, q2),
    ensures
        post.asks(p2) matches Ask::RunGate { candidate: gated, .. } ==> match phase {
            PhaseView::Merging { candidate, next, .. } => {
                &&& next + 1 == candidate.entries.len()
                &&& event matches Event::Merged(Ok(MergeOutcome::Merged(sha))) && gated == sha@
            },
            PhaseView::CheckingOut { candidate, .. } => {
                &&& candidate.entries.len() == 0
                &&& gated == candidate.base_sha
            },
            _ => false,
        },
        phase matches PhaseView::Merging { candidate, next, .. } ==> {
            &&& post.asks(phase) matches Ask::Merge { commit, .. } && commit
                == candidate.entries[next].branch_sha
            &&& (event matches Event::Merged(Ok(MergeOutcome::Merged(_)))) && (next + 1)
                < candidate.entries.len() ==> (post.asks(p2) matches Ask::Merge { commit, .. }
                && commit == candidate.entries[next + 1].branch_sha)
        },
        phase matches PhaseView::CheckingOut { candidate, .. } ==> {
            &&& post.asks(phase) == (Ask::CheckOut { at: candidate.base_sha })
            &&& (event matches Event::CheckedOut(Ok(_))) && candidate.entries.len() > 0 ==> (
            post.asks(p2) matches Ask::Merge { commit, .. } && commit
                == candidate.entries[0].branch_sha)
        },
{
}

proof fn shorter_is_a_trail(post: PostView, trail: Seq<Stride>)
    requires
        trail.len() > 0,
        is_trail(post, trail),
    ensures
        is_trail(post, trail.drop_last()),
{
    let less = trail.drop_last();
    assert forall|i: int| 0 <= i < less.len() implies {
        let s = #[trigger] less[i];
        &&& s.phase.wf()
        &&& s.phase.takes(s.event)
        &&& post.steps(s.phase, s.q, s.event, s.now, s.p2, s.q2)
    } by {
        assert(trail[i] == less[i]);
    }
    assert forall|i: int, j: int| 0 <= i && j == i + 1 && j < less.len() implies (
    #[trigger] less[i]).p2 == (#[trigger] less[j]).phase by {
        assert(trail[i].p2 == trail[j].phase);
    }
}

/// One more merge that worked puts one more entry together.
proof fn one_more_is_put_together(
    post: PostView,
    trail: Seq<Stride>,
    candidate: CandidateView,
    n: int,
    tip: Seq<char>,
)
    requires
        trail.len() > 0,
        puts_together(post, trail.drop_last(), candidate, n, tip),
        n < candidate.entries.len(),
        is_merge_of(post, trail.last(), candidate.entries[n].branch_sha),
    ensures
        puts_together(post, trail, candidate, n + 1, merged_as(trail.last())),
{
    let less = trail.drop_last();
    let first = trail.len() - n - 1;
    assert(less[first - 1] == trail[first - 1]);
    assert forall|j: int| 0 <= j < n + 1 implies is_merge_of(
        post,
        #[trigger] trail[first + j],
        candidate.entries[j].branch_sha,
    ) by {
        if j < n {
            assert(less[first + j] == trail[first + j]);
        }
    }
}

/// While a tick merges, what it has merged so far is what comes first in the
/// candidate.
proof fn merging_so_far(post: PostView, trail: Seq<Stride>)
    requires
        trail.len() > 0,
        is_trail(post, trail),
        trail.last().p2 is Merging,
    ensures
        trail.last().p2 matches PhaseView::Merging { candidate, next, tip, .. } && puts_together(
            post,
            trail,
            candidate,
            next,
            tip,
        ),
    decreases trail.len(),
{
    let s = trail[trail.len() - 1];
    match s.phase {
        PhaseView::CheckingOut { candidate, .. } => {
            assert(puts_together(post, trail, candidate, 0, candidate.base_sha));
        },
        PhaseView::Merging { candidate, next, tip, .. } => {
            assert(trail.len() > 1);
            let less = trail.drop_last();
            shorter_is_a_trail(post, trail);
            assert(trail[trail.len() - 2].p2 == trail[trail.len() - 1].phase);
            merging_so_far(post, less);
            one_more_is_put_together(post, trail, candidate, next, tip);
        },
        _ => {
            assert(false);
        },
    }
}

/// Whenever a tick asks for the merge gate to be run on a candidate, what it asked
/// to be merged since it put the checkout on the base, and was told was merged, is
/// exactly the commits of all of the candidate's entries, in order; and the commit
/// that is gated is what the last of those merges left.
pub proof fn everything_is_merged_before_it_is_gated(post: PostView, trail: Seq<Stride>)
    requires
        trail.len() > 0,
        is_trail(post, trail),
        post.asks(trail.last().p2) is RunGate,
    ensures
        trail.last().p2 matches PhaseView::Gating { candidate, tip, .. } && {
            &&& post.asks(trail.last().p2) matches Ask::RunGate { candidate: gated, .. } && gated
                == tip
            &&& puts_together(post, trail, candidate, candidate.entries.len() as int, tip)
        },
{
    let s = trail[trail.len() - 1];
    every_entry_has_its_turn(post, s.phase, s.q, s.event, s.now, s.p2, s.q2);
    match s.phase {
        PhaseView::CheckingOut { candidate, .. } => {
            assert(puts_together(post, trail, candidate, 0, candidate.base_sha));
        },
        PhaseView::Merging { candidate, next, tip, .. } => {
            assert(trail.len() > 1);
            shorter_is_a_trail(post, trail);
            assert(trail[trail.len() - 2].p2 == trail[trail.len() - 1].phase);
            merging_so_far(post, trail.drop_last());
            one_more_is_put_together(post, trail, candidate, next, tip);
        },
        _ => {
            assert(false);
        },
    }
}

} // verus!
