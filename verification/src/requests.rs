//! What a tick asks for where it stands, and how it goes from log to log.

use vstd::prelude::*;

use crate::config::ConfigView;
use crate::gate::ends_in;
use crate::passage::same_but_leases;
use crate::queue::ledger::Ledger;
use crate::queue::ledger::RunRecord;
use crate::queue::store::logged_views;
use crate::queue::store::Store;
use crate::retention::PruneAction;
use crate::retention::PruneEvent;
use crate::retention::PruneStage;
use crate::retention::PruneView;
use crate::text::integer;
use crate::tick::Action;
use crate::tick::Event;
use crate::tick::PhaseView;
use crate::tick::PostView;
use crate::tick::Tick;
use crate::tick::TickError;
use crate::time::Instant;
use crate::time::Timestamp;

verus! {

/// The path of a log of a candidate stands in a directory: behind it, with one
/// stroke between the two, or bare where there is no directory.
pub open spec fn is_log_in(path: Seq<char>, dir: Seq<char>, candidate: i64) -> bool {
    let name = "candidate-"@ + integer(candidate as int) + ".log"@;
    ||| path == name && dir.len() == 0
    ||| path == dir + name && dir.len() > 0 && dir.last() == '/'
    ||| path == dir + "/"@ + name && dir.len() > 0 && dir.last() != '/'
}

/// What a tick asks for is what its stage is about: the base branch to be resolved,
/// the configuration at the base, the logs that may go, the log whose turn it is,
/// the base to be checked out, the entry whose turn it is to be merged under its
/// own name, the candidate to be gated by what is configured, the base to be moved
/// from where the candidate started to what was gated, and the entry whose turn it
/// is to be told of.
pub proof fn a_tick_asks_for_what_its_stage_is_about(
    tick: &mut Tick,
    store: &mut Store,
    event: Event,
    now: &Timestamp,
    r: Action,
)
    requires
        tick.phase().wf(),
        tick.phase().takes(event),
        call_ensures(Tick::next, (tick, store, event, now), r),
    ensures
        match final(tick).phase() {
            PhaseView::Listing => r is ListWorktrees,
            PhaseView::Resolving => r matches Action::Resolve { refname } && refname@ == old(
                tick,
            ).post().base,
            PhaseView::Configuring { base } => r matches Action::ReadFile { at, path } && at@
                == base && path@ == "sasse.toml"@,
            PhaseView::Measuring { runs, .. } => r matches Action::MeasureLogs { runs: asked }
                && logged_views(asked@) == runs,
            PhaseView::Pruning { prune, .. } => r matches Action::Prune(step) && match prune.stage {
                PruneStage::Reading => step matches PruneAction::ReadTail { path, lines } && path@
                    == prune.removals[prune.at].log.path && lines == 40,
                PruneStage::Removing => step matches PruneAction::RemoveLog { path } && path@
                    == prune.removals[prune.at].log.path,
                PruneStage::Over => step is Finish,
            },
            PhaseView::CheckingOut { candidate, .. } => r matches Action::CheckOut { at } && at@
                == candidate.base_sha,
            PhaseView::Merging { candidate, next, .. } => r matches Action::Merge {
                commit,
                message,
            } && commit@ == candidate.entries[next].branch_sha && message@ == "sasse candidate "@
                + integer(candidate.id as int) + ": "@ + candidate.entries[next].branch,
            PhaseView::Gating { config, candidate, tip } => r matches Action::RunGate {
                command,
                candidate: gated,
                log_path,
                max_log_size,
            } && command@ == config.gate && gated@ == tip && is_log_in(
                log_path@,
                old(tick).post().log_dir,
                candidate.id,
            ) && max_log_size@ == config.max_log_size,
            PhaseView::Asking { .. } => r is AskInterrupted,
            PhaseView::Forwarding { candidate, tip, .. } => r matches Action::FastForward {
                refname,
                from,
                to,
            } && refname@ == old(tick).post().base && from@ == candidate.base_sha && to@ == tip,
            PhaseView::Announcing { command, list, announcements, .. } => r matches Action::Announce {
                command: run,
                settled,
                repo_path,
                base_branch,
            } && run@ == command && settled@ == list[announcements.len() as int] && repo_path@
                == old(tick).post().repo && base_branch@ == old(tick).post().base,
            PhaseView::Over { .. } => r is Finish,
        },
{
}

/// Only the run's log has gone: the row of that run keeps what is given of it,
/// and all else is as it was.
pub open spec fn log_gone(q: Ledger, q2: Ledger, run: i64, tail: Option<Seq<char>>) -> bool {
    &&& q2.entries == q.entries
    &&& q2.candidates == q.candidates
    &&& q2.members == q.members
    &&& q2.leases == q.leases
    &&& q2.runs.len() == q.runs.len()
    &&& forall|i: int|
        0 <= i < q.runs.len() ==> (#[trigger] q2.runs[i]) == if q.runs[i].id == run {
            RunRecord { log_path: None, tail, ..q.runs[i] }
        } else {
            q.runs[i]
        }
}

/// A tick goes through the logs that have to go one by one. What is left of a log
/// is written to its run before the log is removed; a log that cannot be removed
/// ends the tick, which says why; and after a log is removed the next has its turn,
/// until there is none.
pub proof fn a_tick_goes_from_log_to_log(
    post: PostView,
    base: Seq<char>,
    config: ConfigView,
    prune: PruneView,
    event: PruneEvent,
    q: Ledger,
    now: Instant,
    p2: PhaseView,
    q2: Ledger,
)
    requires
        prune.wf(),
        prune.takes(event),
        post.steps(
            PhaseView::Pruning { base, config, prune },
            q,
            Event::Pruned(event),
            now,
            p2,
            q2,
        ),
    ensures
        match event {
            PruneEvent::Tail(tail) => {
                &&& p2 matches PhaseView::Pruning { base: b, config: c, prune: p } && b == base && c
                    == config && p.removals == prune.removals && p.at == prune.at && p.stage
                    == PruneStage::Removing && p.tails_kept == prune.tails_kept + (if tail is Some {
                    1int
                } else {
                    0int
                })
                &&& log_gone(
                    q,
                    q2,
                    prune.removals[prune.at].log.run_id,
                    match tail {
                        Some(text) => Some(text@),
                        None => None,
                    },
                )
            },
            PruneEvent::Removed(Err(why)) => {
                &&& p2 matches PhaseView::Over { result: Err(TickError::Outside(failure)) }
                    && ends_in(failure@, why@)
                &&& same_but_leases(q, q2)
            },
            PruneEvent::Removed(Ok(_)) => if prune.at + 1 < prune.removals.len() {
                let next = prune.removals[prune.at + 1];
                &&& p2 matches PhaseView::Pruning { base: b, config: c, prune: p } && b == base && c
                    == config && p.removals == prune.removals && p.at == prune.at + 1
                    && p.tails_kept == prune.tails_kept && (p.stage == PruneStage::Reading <==>
                    next.because == crate::logs::Because::OverBudget) && (p.stage
                    == PruneStage::Removing <==> next.because
                    == crate::logs::Because::NothingToExplain)
                &&& next.because == crate::logs::Because::OverBudget ==> q2 == q
                &&& next.because == crate::logs::Because::NothingToExplain ==> log_gone(
                    q,
                    q2,
                    next.log.run_id,
                    None,
                )
            } else {
                !(p2 is Pruning)
            },
        },
{
    match event {
        PruneEvent::Removed(Err(why)) => {
            if let PhaseView::Over { result: Err(TickError::Outside(failure)) } = p2 {
                let n = failure@.len() - why@.len();
                assert(failure@ =~= failure@.take(n) + why@);
            }
        },
        _ => {},
    }
}

} // verus!
