//! What a tick makes of each answer: which way it goes, and what becomes of every
//! row.

use vstd::prelude::*;

use crate::config::ConfigView;
use crate::gate::Verdict;
use crate::git::MergeOutcome;
use crate::git::RefUpdate;
use crate::queue::ledger::ids;
use crate::queue::ledger::CandidateView;
use crate::queue::ledger::EntryView;
use crate::queue::ledger::Ledger;
use crate::queue::ledger::SettledView;
use crate::queue::model::EntryId;
use crate::queue::rows::charged_alone;
use crate::queue::rows::charged_alone_rows;
use crate::queue::rows::given_up_for_nothing;
use crate::queue::rows::given_up_for_nothing_rows;
use crate::queue::rows::landed_whole;
use crate::queue::rows::landed_whole_rows;
use crate::queue::rows::opened_as_given;
use crate::queue::rows::opened_as_given_rows;
use crate::queue::rows::recorded_as_it_was;
use crate::queue::rows::recorded_as_it_was_rows;
use crate::queue::state::CandidateState;
use crate::queue::state::EntryState;
use crate::queue::store::abandon_gives;
use crate::queue::store::blame_gives;
use crate::queue::store::land_gives;
use crate::queue::store::open_gives;
use crate::queue::store::record_run_gives;
use crate::queue::store::Blame;
use crate::queue::store::StoreError;
use crate::text;
use crate::tick::Ask;
use crate::tick::Event;
use crate::tick::PhaseView;
use crate::tick::PostView;
use crate::tick::TickError;
use crate::time::written;
use crate::time::Instant;
use crate::worker::Abandoned;
use crate::worker::AnnouncementView;
use crate::worker::Fault;
use crate::worker::OutcomeView;

verus! {

/// The rows are the same but for the leases.
pub open spec fn same_but_leases(a: Ledger, b: Ledger) -> bool {
    &&& b.entries == a.entries
    &&& b.candidates == a.candidates
    &&& b.members == a.members
    &&& b.runs == a.runs
}

/// The tick is over, with this outcome and nobody told.
pub open spec fn over_with(p: PhaseView, outcome: OutcomeView) -> bool {
    p matches PhaseView::Over { result: Ok(report) } && report.outcome == outcome
        && report.announcements.len() == 0
}

/// The tick is over, and failed as the store did.
pub open spec fn over_refused(p: PhaseView) -> bool {
    p matches PhaseView::Over { result: Err(TickError::Store(_)) }
}

/// The tick has come to an outcome. Where a hook is configured and entries settled,
/// they are announced to it from the first on; otherwise the tick is over.
pub open spec fn comes_to(
    p: PhaseView,
    outcome: OutcomeView,
    hook: Option<Seq<char>>,
    settled: Seq<SettledView>,
) -> bool {
    match (hook, settled.len() > 0) {
        (Some(hook), true) => p matches PhaseView::Announcing {
            command,
            outcome: reached,
            list,
            announcements,
        } && command == hook && reached == outcome && list == settled && announcements.len() == 0,
        _ => over_with(p, outcome),
    }
}

/// What is said of an entry that settled is what its row says.
pub open spec fn tells(q: Ledger, s: SettledView) -> bool {
    exists|i: int|
        0 <= i < q.entries.len() && {
            let e = #[trigger] q.entries[i];
            &&& e.id == s.entry
            &&& e.branch == s.branch
            &&& e.state == s.state
            &&& e.attempts == s.attempts
            &&& e.evict_reason == s.reason
            &&& e.state == EntryState::Merged || e.state == EntryState::Evicted
        }
}

/// Something that did not work outside ends the tick, and the failure is what is
/// said of it. No row changes but for the lease.
pub proof fn a_fault_outside_ends_the_tick(
    post: PostView,
    p: PhaseView,
    q: Ledger,
    event: Event,
    now: Instant,
    p2: PhaseView,
    q2: Ledger,
)
    requires
        post.steps(p, q, event, now, p2, q2),
        !(event is Measured) && !(event is Pruned) && !(event is Interrupted)
            && !(event is Announced),
        event matches Event::Worktrees(r) ==> r is Err,
        event matches Event::Resolved(r) ==> r is Err,
        event matches Event::File(r) ==> r is Err,
        event matches Event::CheckedOut(r) ==> r is Err,
        event matches Event::Merged(r) ==> r is Err,
        event matches Event::Gated(r) ==> r is Err,
        event matches Event::Forwarded(r) ==> r is Err,
    ensures
        same_but_leases(q, q2),
        p2 matches PhaseView::Over { result: Err(TickError::Outside(why)) } && match event {
            Event::Worktrees(Err(e)) => why == e,
            Event::Resolved(Err(e)) => why == e,
            Event::File(Err(e)) => why == e,
            Event::CheckedOut(Err(e)) => why == e,
            Event::Merged(Err(e)) => why == e,
            Event::Gated(Err(e)) => why == e,
            Event::Forwarded(Err(e)) => why == e,
            _ => false,
        },
{
}

/// The base branch is moved only while nobody has it checked out. Where somebody
/// has, under its short or its full name, the tick is over and names every such
/// checkout; where nobody has, it goes on and asks where the branch is. No row
/// changes but for the lease.
pub proof fn a_base_that_is_checked_out_is_left_alone(
    post: PostView,
    q: Ledger,
    list: Vec<crate::git::Worktree>,
    now: Instant,
    p2: PhaseView,
    q2: Ledger,
)
    requires
        post.steps(PhaseView::Listing, q, Event::Worktrees(Ok(list)), now, p2, q2),
        !text::begins_with(post.base, "refs/heads/"@),
    ensures
        same_but_leases(q, q2),
        ({
            let has = |w: crate::git::Worktree|
                w.branch matches Some(b) && (b@ == post.base || b@ == "refs/heads/"@ + post.base);
            if exists|i: int| 0 <= i < list@.len() && has(#[trigger] list@[i]) {
                &&& p2 matches PhaseView::Over { result: Ok(report) }
                &&& report.announcements.len() == 0
                &&& report.outcome matches OutcomeView::BaseCheckedOut { holders }
                &&& forall|path: Seq<char>| #[trigger]
                    holders.contains(path) <==> exists|i: int|
                        0 <= i < list@.len() && has(#[trigger] list@[i]) && list@[i].path@ == path
            } else {
                p2 == PhaseView::Resolving && post.asks(p2) == (Ask::Resolve { refname: post.base })
            }
        }),
{
    crate::git::laws::who_holds_a_branch(list@, post.base);
}

/// The base commit that is found is the one whose configuration is read, out of
/// that commit. Where there is none, the tick is over and says at which commit.
pub proof fn the_configuration_is_read_at_the_base(
    post: PostView,
    q: Ledger,
    sha: crate::git::Sha,
    now: Instant,
    p1: PhaseView,
    q1: Ledger,
    p2: PhaseView,
    q2: Ledger,
)
    requires
        post.steps(PhaseView::Resolving, q, Event::Resolved(Ok(sha)), now, p1, q1),
        post.steps(p1, q1, Event::File(Ok(None)), now, p2, q2),
    ensures
        q1 == q,
        p1 == (PhaseView::Configuring { base: sha@ }),
        post.asks(p1) == (Ask::ReadFile { at: sha@, path: "sasse.toml"@ }),
        p2 matches PhaseView::Over { result: Err(TickError::NoConfig { at }) } && at@ == sha@,
        same_but_leases(q, q2),
{
}

/// An entry that does not merge is the one that is blamed, for a conflict, by the
/// rule of attempts that is configured. Nothing is gated.
pub proof fn a_conflict_is_pinned_on_what_conflicts(
    post: PostView,
    config: ConfigView,
    candidate: CandidateView,
    next: int,
    tip: Seq<char>,
    q: Ledger,
    now: Instant,
    p2: PhaseView,
    q2: Ledger,
)
    requires
        q.wf(),
        post.steps(
            PhaseView::Merging { config, candidate, next, tip },
            q,
            Event::Merged(Ok(MergeOutcome::Conflicted)),
            now,
            p2,
            q2,
        ),
    ensures
        is_pinned(
            post,
            config,
            candidate.id,
            candidate.entries[next],
            Fault::Conflict,
            "conflicts with the base branch"@,
            q,
            now,
            p2,
            q2,
        ),
{
    pinning(post, config, candidate.id, candidate.entries[next], Fault::Conflict, q, now, p2, q2);
}

/// A candidate was pinned on an entry: the entry is charged and the outcome says
/// who, for what and whether it is out. It is announced exactly if it is.
pub open spec fn is_pinned(
    post: PostView,
    config: ConfigView,
    candidate: i64,
    entry: EntryView,
    reason: Fault,
    words: Seq<char>,
    q: Ledger,
    now: Instant,
    p2: PhaseView,
    q2: Ledger,
) -> bool {
    over_refused(p2) && same_but_leases(q, q2) || exists|blame: Blame, q1: Ledger|
        {
            &&& #[trigger] charged_alone(
                q,
                q1,
                candidate,
                entry.id,
                config.max_attempts,
                words,
                written(now),
                blame,
            )
            &&& same_but_leases(q1, q2)
            &&& exists|settled: Seq<SettledView>|
                {
                    &&& #[trigger] comes_to(
                        p2,
                        OutcomeView::Blamed {
                            candidate,
                            entry: entry.id,
                            branch: entry.branch,
                            blame,
                            reason,
                        },
                        config.on_settle,
                        settled,
                    )
                    &&& blame == Blame::Requeued ==> settled.len() == 0
                    &&& blame == Blame::Evicted ==> settled.len() == 1 && settled[0].entry
                        == entry.id && settled[0].state == EntryState::Evicted && tells(
                        q2,
                        settled[0],
                    )
                }
        }
}

proof fn pinning(
    post: PostView,
    config: ConfigView,
    candidate: i64,
    entry: EntryView,
    reason: Fault,
    q: Ledger,
    now: Instant,
    p2: PhaseView,
    q2: Ledger,
)
    requires
        q.wf(),
        post.blames(q, config, candidate, entry, reason, now, p2, q2),
    ensures
        is_pinned(
            post,
            config,
            candidate,
            entry,
            reason,
            reason.described(),
            q,
            now,
            p2,
            q2,
        ),
{
    let (r, q1) = choose|r: Result<Blame, StoreError>, q1: Ledger|
        {
            &&& #[trigger] blame_gives(
                q,
                candidate,
                entry.id,
                config.max_attempts,
                reason.described(),
                written(now),
                r,
                q1,
            )
            &&& match r {
                Ok(blame) => post.reaches(
                    q1,
                    OutcomeView::Blamed {
                        candidate,
                        entry: entry.id,
                        branch: entry.branch,
                        blame,
                        reason,
                    },
                    config.on_settle,
                    crate::tick::settlements(q1, seq![entry.id]),
                    p2,
                    q2,
                ),
                Err(e) => post.ends(q1, Err(TickError::Store(e)), p2, q2),
            }
        };
    match r {
        Ok(blame) => {
            charged_alone_rows(
                q,
                q1,
                candidate,
                entry.id,
                config.max_attempts,
                reason.described(),
                written(now),
                blame,
            );
            let settled = crate::tick::settlements(q1, seq![entry.id]);
            let i = choose|i: int| 0 <= i < q.entries.len() && (#[trigger] q.entries[i]).id == entry.id;
            assert(q1.entries[i].id == entry.id);
            assert(q1.wf() ==> q1.entry(entry.id) == Some(q1.entries[i])) by {
                if q1.wf() {
                    crate::queue::ledger::entry_is_found(q1.entries, i);
                }
            }
            found_by_id(q, q1, i);
            assert(seq![entry.id].drop_last() =~= Seq::<EntryId>::empty());
            assert(crate::tick::settlements(q1, seq![entry.id].drop_last()) =~= Seq::<
                SettledView,
            >::empty());
            assert(settled =~= if q1.entries[i].state.terminal() {
                seq![q1.entries[i].settled()]
            } else {
                Seq::empty()
            });
            assert(q2.entries[i] == q1.entries[i]);
            assert(comes_to(
                p2,
                OutcomeView::Blamed {
                    candidate,
                    entry: entry.id,
                    branch: entry.branch,
                    blame,
                    reason,
                },
                config.on_settle,
                settled,
            ));
        },
        Err(e) => {},
    }
}

/// An id leads to the same row after a step that keeps ids.
proof fn found_by_id(a: Ledger, b: Ledger, i: int)
    requires
        a.wf(),
        0 <= i < a.entries.len(),
        b.entries.len() == a.entries.len(),
        forall|j: int| 0 <= j < a.entries.len() ==> (#[trigger] b.entries[j]).id == a.entries[j].id,
    ensures
        b.entry(a.entries[i].id) == Some(b.entries[i]),
{
    assert forall|x: int, y: int| 0 <= x < y < b.entries.len() implies #[trigger] b.entries[x].id
        < #[trigger] b.entries[y].id by {
        assert(a.entries[x].id < a.entries[y].id);
    }
    crate::queue::ledger::entry_is_found(b.entries, i);
}

/// What a gate said is recorded, with the command that was run, the code it ended
/// with and where its log is; and it decides. Where it passed, the base branch is
/// to be moved from the base that the candidate was built on to the very commit
/// that was gated; where it failed, it is asked first whether that was a stop.
pub proof fn a_verdict_is_recorded_and_followed(
    post: PostView,
    config: ConfigView,
    candidate: CandidateView,
    tip: Seq<char>,
    q: Ledger,
    verdict: Verdict,
    now: Instant,
    p2: PhaseView,
    q2: Ledger,
)
    requires
        post.steps(
            PhaseView::Gating { config, candidate, tip },
            q,
            Event::Gated(Ok(verdict)),
            now,
            p2,
            q2,
        ),
        q.runs.len() > 0 ==> q.runs.last().id < i64::MAX,
    ensures
        post.asks(PhaseView::Gating { config, candidate, tip }) matches Ask::RunGate {
            command,
            candidate: gated,
            log_path,
            max_log_size,
        } && {
            &&& command == config.gate
            &&& gated == tip
            &&& max_log_size == config.max_log_size
            &&& over_refused(p2) && same_but_leases(q, q2) || recorded_as_it_was(
                q,
                q2,
                candidate.id,
                config.gate,
                match verdict {
                    Verdict::Passed => Some(0i32),
                    Verdict::Failed { exit_code } => exit_code,
                },
                log_path,
                written(now),
                Ok(()),
            ) && match verdict {
                Verdict::Passed => post.asks(p2) == (Ask::FastForward {
                    refname: post.base,
                    from: candidate.base_sha,
                    to: tip,
                }),
                Verdict::Failed { .. } => post.asks(p2) == Ask::AskInterrupted,
            }
        },
        p2 matches PhaseView::Forwarding { config: c, candidate: x, tip: t } ==> c == config && x
            == candidate && t == tip && verdict is Passed,
        p2 matches PhaseView::Asking { config: c, candidate: x } ==> c == config && x == candidate
            && !(verdict is Passed),
        p2 is Forwarding || p2 is Asking || over_refused(p2),
{
    let path = crate::tick::log_path_of(post.log_dir, candidate.id);
    let (r, q1) = choose|r: Result<(), StoreError>, q1: Ledger|
        {
            &&& #[trigger] record_run_gives(
                q,
                candidate.id,
                config.gate,
                verdict.code(),
                path,
                written(now),
                r,
                q1,
            )
            &&& match r {
                Err(e) => post.ends(q1, Err(TickError::Store(e)), p2, q2),
                Ok(_) => {
                    &&& q2 == q1
                    &&& p2 == if verdict == Verdict::Passed {
                            PhaseView::Forwarding { config, candidate, tip }
                        } else {
                            PhaseView::Asking { config, candidate }
                        }
                },
            }
        };
    if r is Ok {
        recorded_as_it_was_rows(
            q,
            q1,
            candidate.id,
            config.gate,
            verdict.code(),
            path,
            written(now),
            r,
        );
    }
}

/// When the base has been moved everything in the candidate lands, and the outcome
/// says which candidate, how many entries and at which commit. Whoever is to be
/// told is told of every one of them that settled, as its row says, in the order of
/// the candidate.
pub proof fn a_move_of_the_base_lands_the_candidate(
    post: PostView,
    config: ConfigView,
    candidate: CandidateView,
    tip: Seq<char>,
    q: Ledger,
    now: Instant,
    p2: PhaseView,
    q2: Ledger,
)
    requires
        q.wf(),
        post.steps(
            PhaseView::Forwarding { config, candidate, tip },
            q,
            Event::Forwarded(Ok(RefUpdate::Updated)),
            now,
            p2,
            q2,
        ),
    ensures
        over_refused(p2) && same_but_leases(q, q2) || exists|landed: usize, q1: Ledger|
            {
                &&& #[trigger] landed_whole(q, q1, candidate.id, written(now), Ok(landed))
                &&& same_but_leases(q1, q2)
                &&& exists|settled: Seq<SettledView>|
                    {
                        &&& #[trigger] comes_to(
                            p2,
                            OutcomeView::Landed {
                                candidate: candidate.id,
                                entries: landed,
                                at: tip,
                            },
                            config.on_settle,
                            settled,
                        )
                        &&& forall|i: int|
                            0 <= i < settled.len() ==> tells(q1, #[trigger] settled[i])
                        &&& (forall|i: int|
                            0 <= i < candidate.entries.len() ==> crate::queue::rows::lists(
                                q.members,
                                candidate.id,
                                (#[trigger] candidate.entries[i]).id,
                            )) ==> settled.len() == candidate.entries.len() && forall|i: int|
                            0 <= i < settled.len() ==> (#[trigger] settled[i]).entry
                                == candidate.entries[i].id && settled[i].state
                                == EntryState::Merged
                    }
            },
{
    let (r, q1) = choose|r: Result<usize, StoreError>, q1: Ledger|
        {
            &&& #[trigger] land_gives(q, candidate.id, written(now), r, q1)
            &&& match r {
                Err(e) => post.ends(q1, Err(TickError::Store(e)), p2, q2),
                Ok(entries) => post.reaches(
                    q1,
                    OutcomeView::Landed { candidate: candidate.id, entries, at: tip },
                    config.on_settle,
                    crate::tick::settlements(q1, ids(candidate.entries)),
                    p2,
                    q2,
                ),
            }
        };
    match r {
        Ok(landed) => {
            landed_whole_rows(q, q1, candidate.id, written(now), r);
            let list = ids(candidate.entries);
            let settled = crate::tick::settlements(q1, list);
            assert forall|j: int| 0 <= j < q.entries.len() implies (#[trigger] q1.entries[j]).id
                == q.entries[j].id by {}
            settlements_tell(q1, list);
            if forall|i: int|
                0 <= i < candidate.entries.len() ==> crate::queue::rows::lists(
                    q.members,
                    candidate.id,
                    (#[trigger] candidate.entries[i]).id,
                ) {
                assert forall|i: int| 0 <= i < list.len() implies #[trigger] stands_as(
                    q1,
                    list[i],
                    EntryState::Merged,
                ) by {
                    let id = candidate.entries[i].id;
                    assert(crate::queue::rows::lists(q.members, candidate.id, id));
                    let k = choose|k: int|
                        0 <= k < q.members.len() && (#[trigger] q.members[k]).candidate_id
                            == candidate.id && q.members[k].entry_id == id;
                    assert(crate::queue::ledger::has_entry(q.entries, q.members[k].entry_id));
                    let j = choose|j: int|
                        0 <= j < q.entries.len() && #[trigger] q.entries[j].id == id;
                    found_by_id(q, q1, j);
                    assert(q1.entries[j].state == EntryState::Merged);
                }
                all_settled(q1, list, EntryState::Merged);
            }
            assert(comes_to(
                p2,
                OutcomeView::Landed { candidate: candidate.id, entries: landed, at: tip },
                config.on_settle,
                settled,
            ));
        },
        Err(e) => {},
    }
}

proof fn settlements_tell(q: Ledger, list: Seq<EntryId>)
    ensures
        forall|i: int|
            0 <= i < crate::tick::settlements(q, list).len() ==> tells(
                q,
                #[trigger] crate::tick::settlements(q, list)[i],
            ),
    decreases list.len(),
{
    if list.len() > 0 {
        settlements_tell(q, list.drop_last());
        let id = list.last();
        crate::queue::ledger::entry_found_is_there(q.entries, id);
        let rest = crate::tick::settlements(q, list.drop_last());
        let all = crate::tick::settlements(q, list);
        if let Some(e) = q.entry(id) {
            let j = choose|j: int| 0 <= j < q.entries.len() && q.entries[j] == e;
            assert(q.entries[j].id == id);
            if e.state.terminal() {
                assert(tells(q, e.settled()));
            }
        }
        assert forall|i: int| 0 <= i < all.len() implies tells(q, #[trigger] all[i]) by {
            if i < rest.len() {
                assert(all[i] == rest[i]);
            }
        }
    }
}

/// The entry with an id is in a state.
spec fn stands_as(q: Ledger, id: EntryId, state: EntryState) -> bool {
    q.entry(id) matches Some(e) && e.id == id && e.state == state
}

proof fn all_settled(q: Ledger, list: Seq<EntryId>, state: EntryState)
    requires
        state == EntryState::Merged || state == EntryState::Evicted,
        forall|i: int|
            0 <= i < list.len() ==> #[trigger] stands_as(q, list[i], state),
    ensures
        ({
            let settled = crate::tick::settlements(q, list);
            &&& settled.len() == list.len()
            &&& forall|i: int|
                0 <= i < list.len() ==> (#[trigger] settled[i]).entry == list[i] && settled[i].state
                    == state
        }),
    decreases list.len(),
{
    if list.len() > 0 {
        let rest = list.drop_last();
        assert forall|i: int| 0 <= i < rest.len() implies #[trigger] stands_as(
            q,
            rest[i],
            state,
        ) by {
            assert(stands_as(q, list[i], state));
        }
        all_settled(q, rest, state);
        assert(stands_as(q, list[list.len() - 1], state));
    }
}

/// A candidate is thrown away, at no cost to anything in it, where the base turned
/// out to have moved and where a stop broke its gate. The outcome says which, and
/// how many entries wait again.
pub proof fn a_candidate_is_thrown_away_for_nothing(
    post: PostView,
    p: PhaseView,
    candidate: CandidateView,
    q: Ledger,
    event: Event,
    now: Instant,
    p2: PhaseView,
    q2: Ledger,
)
    requires
        post.steps(p, q, event, now, p2, q2),
        (p matches PhaseView::Forwarding { candidate: c, .. } && c == candidate && event
            == Event::Forwarded(Ok(RefUpdate::Stale))) || (p matches PhaseView::Asking {
            candidate: c,
            ..
        } && c == candidate && event == Event::Interrupted(true)),
    ensures
        exists|requeued: usize, q1: Ledger|
            {
                &&& #[trigger] given_up_for_nothing(
                    q,
                    q1,
                    candidate.id,
                    CandidateState::Superseded,
                    written(now),
                    Ok(requeued),
                )
                &&& same_but_leases(q1, q2)
                &&& over_with(
                    p2,
                    OutcomeView::Abandoned {
                        candidate: candidate.id,
                        requeued,
                        reason: if p is Asking {
                            Abandoned::Interrupted
                        } else {
                            Abandoned::BaseMoved
                        },
                    },
                )
            },
{
    let reason = if p is Asking {
        Abandoned::Interrupted
    } else {
        Abandoned::BaseMoved
    };
    throwing_away(post, q, candidate.id, reason, now, p2, q2);
}

proof fn throwing_away(
    post: PostView,
    q: Ledger,
    candidate: i64,
    reason: Abandoned,
    now: Instant,
    p2: PhaseView,
    q2: Ledger,
)
    requires
        post.abandons(q, candidate, reason, now, p2, q2),
    ensures
        exists|requeued: usize, q1: Ledger|
            {
                &&& #[trigger] given_up_for_nothing(
                    q,
                    q1,
                    candidate,
                    CandidateState::Superseded,
                    written(now),
                    Ok(requeued),
                )
                &&& same_but_leases(q1, q2)
                &&& over_with(p2, OutcomeView::Abandoned { candidate, requeued, reason })
            },
{
    let (r, q1) = choose|r: Result<usize, StoreError>, q1: Ledger|
        {
            &&& #[trigger] abandon_gives(
                q,
                candidate,
                CandidateState::Superseded,
                written(now),
                r,
                q1,
            )
            &&& match r {
                Ok(requeued) => post.ends(
                    q1,
                    Ok(
                        crate::tick::quiet(
                            OutcomeView::Abandoned { candidate, requeued, reason },
                        ),
                    ),
                    p2,
                    q2,
                ),
                Err(e) => post.ends(q1, Err(TickError::Store(e)), p2, q2),
            }
        };
    given_up_for_nothing_rows(q, q1, candidate, CandidateState::Superseded, written(now), r);
    assert(r is Ok);
    assert(given_up_for_nothing(
        q,
        q1,
        candidate,
        CandidateState::Superseded,
        written(now),
        Ok(r->Ok_0),
    ));
}

/// A gate that failed on one entry alone is pinned on it.
pub proof fn a_failure_alone_is_pinned(
    post: PostView,
    config: ConfigView,
    candidate: CandidateView,
    q: Ledger,
    now: Instant,
    p2: PhaseView,
    q2: Ledger,
)
    requires
        q.wf(),
        candidate.entries.len() == 1,
        post.steps(
            PhaseView::Asking { config, candidate },
            q,
            Event::Interrupted(false),
            now,
            p2,
            q2,
        ),
    ensures
        is_pinned(
            post,
            config,
            candidate.id,
            candidate.entries[0],
            Fault::GateFailed,
            Fault::GateFailed.described(),
            q,
            now,
            p2,
            q2,
        ),
{
    pinning(post, config, candidate.id, candidate.entries[0], Fault::GateFailed, q, now, p2, q2);
}

/// A gate that failed on several entries blames none of them. The candidate has
/// failed and lets them all go at no cost; then a new one, on the same base and
/// out of the failed one, takes the first half of them in their order. The half is
/// no larger than the rest and at most one entry smaller.
pub proof fn a_failure_together_is_halved(
    post: PostView,
    config: ConfigView,
    candidate: CandidateView,
    q: Ledger,
    now: Instant,
    p2: PhaseView,
    q2: Ledger,
)
    requires
        candidate.entries.len() >= 2,
        candidate.entries.len() <= i64::MAX,
        candidate.entries.len() <= usize::MAX,
        forall|i: int, j: int|
            0 <= i < j < candidate.entries.len() ==> (#[trigger] candidate.entries[i]).id != (
            #[trigger] candidate.entries[j]).id,
        post.steps(
            PhaseView::Asking { config, candidate },
            q,
            Event::Interrupted(false),
            now,
            p2,
            q2,
        ),
    ensures
        exists|requeued: usize, q1: Ledger|
            {
                &&& #[trigger] given_up_for_nothing(
                    q,
                    q1,
                    candidate.id,
                    CandidateState::Failed,
                    written(now),
                    Ok(requeued),
                )
                &&& over_refused(p2) && same_but_leases(q1, q2) || exists|
                    next: i64,
                    half: Seq<EntryView>,
                    q3: Ledger,
                |
                    {
                        &&& #[trigger] opened_as_given(
                            q1,
                            q3,
                            post.repo,
                            post.base,
                            candidate.base_sha,
                            half,
                            Some(candidate.id),
                            written(now),
                            next,
                        )
                        &&& same_but_leases(q3, q2)
                        &&& half.len() <= candidate.entries.len() - half.len() <= half.len() + 1
                        &&& forall|i: int|
                            0 <= i < half.len() ==> #[trigger] half[i] == candidate.entries[i]
                        &&& over_with(
                            p2,
                            OutcomeView::Split {
                                failed: candidate.id,
                                next,
                                retrying: half.len() as usize,
                            },
                        )
                    }
            },
{
    let retry = crate::tick::retried(candidate.entries);
    let (requeued, q1, r, q3) = choose|
        requeued: Result<usize, StoreError>,
        q1: Ledger,
        r: Result<i64, StoreError>,
        q3: Ledger,
    |
        {
            &&& #[trigger] abandon_gives(
                q,
                candidate.id,
                CandidateState::Failed,
                written(now),
                requeued,
                q1,
            )
            &&& requeued is Ok
            &&& #[trigger] open_gives(
                q1,
                post.repo,
                post.base,
                candidate.base_sha,
                retry,
                Some(candidate.id),
                written(now),
                r,
                q3,
            )
            &&& match r {
                Err(e) => post.ends(q3, Err(TickError::Store(e)), p2, q2),
                Ok(next) => post.ends(
                    q3,
                    Ok(
                        crate::tick::quiet(
                            OutcomeView::Split {
                                failed: candidate.id,
                                next,
                                retrying: retry.len() as usize,
                            },
                        ),
                    ),
                    p2,
                    q2,
                ),
            }
        };
    given_up_for_nothing_rows(
        q,
        q1,
        candidate.id,
        CandidateState::Failed,
        written(now),
        requeued,
    );
    assert(given_up_for_nothing(
        q,
        q1,
        candidate.id,
        CandidateState::Failed,
        written(now),
        Ok(requeued->Ok_0),
    ));
    retried_is_the_front(candidate.entries);
    if let Ok(next) = r {
        opened_as_given_rows(
            q1,
            q3,
            post.repo,
            post.base,
            candidate.base_sha,
            retry,
            Some(candidate.id),
            written(now),
            next,
        );
    }
}

/// The half that is tried next is the front half.
proof fn retried_is_the_front(entries: Seq<EntryView>)
    requires
        forall|i: int, j: int|
            0 <= i < j < entries.len() ==> (#[trigger] entries[i]).id != (#[trigger] entries[j]).id,
    ensures
        crate::tick::retried(entries) == entries.take((entries.len() / 2) as int),
{
    let half = (entries.len() / 2) as int;
    let first = crate::queue::model::first_half(ids(entries));
    let pred = |e: EntryView| first.contains(e.id);
    assert forall|i: int| 0 <= i < entries.len() implies pred(#[trigger] entries[i]) == (i < half) by {
        if i < half {
            assert(first[i] == entries[i].id);
        }
        if first.contains(entries[i].id) {
            let k = choose|k: int| 0 <= k < first.len() && first[k] == entries[i].id;
            assert(first[k] == entries[k].id);
            if k < i {
                assert(entries[k].id != entries[i].id);
            } else if i < k {
                assert(entries[i].id != entries[k].id);
            }
        }
    }
    front_filter(entries, pred, half);
}

proof fn front_filter(s: Seq<EntryView>, pred: spec_fn(EntryView) -> bool, n: int)
    requires
        0 <= n <= s.len(),
        forall|i: int| 0 <= i < s.len() ==> pred(#[trigger] s[i]) == (i < n),
    ensures
        s.filter(pred) == s.take(n),
    decreases s.len(),
{
    reveal(Seq::filter);
    if s.len() == 0 {
        assert(s.take(n) =~= s);
    } else {
        let rest = s.drop_last();
        assert(pred(s[s.len() - 1]) == (s.len() - 1 < n));
        assert forall|i: int| 0 <= i < rest.len() implies pred(#[trigger] rest[i]) == (i < if n
            < s.len() {
            n
        } else {
            n - 1
        }) by {
            assert(rest[i] == s[i]);
        }
        if n < s.len() {
            front_filter(rest, pred, n);
            assert(rest.take(n) =~= s.take(n));
        } else {
            front_filter(rest, pred, n - 1);
            assert(rest.take(n - 1).push(s.last()) =~= s.take(n));
        }
    }
}

/// Everyone who is to be told is told, once and in order, of each entry that
/// settled; what came of it is in the report beside the entry, and the outcome is
/// the one that was reached before. No row changes but for the lease.
pub proof fn each_settlement_is_announced_in_turn(
    post: PostView,
    command: Seq<char>,
    outcome: OutcomeView,
    list: Seq<SettledView>,
    told: Seq<AnnouncementView>,
    q: Ledger,
    delivery: crate::notify::Delivery,
    now: Instant,
    p2: PhaseView,
    q2: Ledger,
)
    requires
        told.len() < list.len(),
        post.steps(
            PhaseView::Announcing { command, outcome, list, announcements: told },
            q,
            Event::Announced(delivery),
            now,
            p2,
            q2,
        ),
    ensures
        same_but_leases(q, q2),
        post.asks(PhaseView::Announcing { command, outcome, list, announcements: told })
            == (Ask::Announce {
            command,
            settled: list[told.len() as int],
            repo_path: post.repo,
            base_branch: post.base,
        }),
        ({
            let n = told.len() as int;
            let after = match p2 {
                PhaseView::Announcing { announcements, .. } => announcements,
                PhaseView::Over { result: Ok(report) } => report.announcements,
                _ => Seq::empty(),
            };
            &&& after.len() == n + 1
            &&& forall|i: int| 0 <= i < n ==> #[trigger] after[i] == told[i]
            &&& after[n].settled == list[n]
            &&& after[n].delivery == delivery@
            &&& n + 1 < list.len() ==> (p2 matches PhaseView::Announcing {
                command: c,
                outcome: o,
                list: l,
                ..
            } && c == command && o == outcome && l == list)
            &&& n + 1 == list.len() ==> (p2 matches PhaseView::Over { result: Ok(report) }
                && report.outcome == outcome)
        }),
{
}

/// A merge is told which candidate it is for and which branch it merges.
pub proof fn a_merge_says_what_it_merges(candidate: i64, branch: Seq<char>)
    ensures
        crate::gate::ends_in(crate::tick::merge_message(candidate, branch), branch),
        text::occurs(
            crate::tick::merge_message(candidate, branch),
            text::integer(candidate as int),
        ),
{
    let m = crate::tick::merge_message(candidate, branch);
    let lead = "sasse candidate "@;
    let number = text::integer(candidate as int);
    assert(m =~= lead + number + (": "@ + branch));
    crate::wording::beginning_is(lead, number, ": "@ + branch);
    let front = lead + number + ": "@;
    assert(m == front + branch);
}

/// No two candidates keep their gate logs in one place, and all are in the
/// directory for logs.
pub proof fn every_candidate_has_its_own_log(dir: Seq<char>, a: i64, b: i64)
    ensures
        crate::tick::log_path_of(dir, a) == crate::tick::log_path_of(dir, b) <==> a == b,
        text::begins_with(crate::tick::log_path_of(dir, a), dir),
{
    let x = crate::tick::log_path_of(dir, a);
    let y = crate::tick::log_path_of(dir, b);
    let i = text::integer(a as int);
    let j = text::integer(b as int);
    let lead = if dir.len() == 0 {
        "candidate-"@
    } else if dir.last() == '/' {
        dir + "candidate-"@
    } else {
        dir + "/"@ + "candidate-"@
    };
    let end = ".log"@;
    assert(x =~= lead + i + end);
    assert(y =~= lead + j + end);
    assert(x.take(dir.len() as int) =~= dir);
    text::integers_differ(a as int, b as int);
    if x == y {
        assert(x.len() == y.len());
        assert(x.subrange(lead.len() as int, (lead.len() + i.len()) as int) =~= i);
        assert(y.subrange(lead.len() as int, (lead.len() + j.len()) as int) =~= j);
    }
}

/// A candidate's log is in the directory for logs under its own name: what follows
/// the directory, and a slash where the directory does not end in one, is what the
/// log is called.
pub proof fn a_log_is_called_by_its_candidate(dir: &str, candidate: i64, name: String, r: String)
    requires
        name@ == "candidate-"@ + text::integer(candidate as int) + ".log"@,
        call_ensures(crate::tick::log_path, (dir, candidate), r),
    ensures
        dir@.len() == 0 ==> r@ == name@,
        dir@.len() > 0 && dir@[dir@.len() - 1] == '/' ==> r@ == dir@ + name@,
        dir@.len() > 0 && dir@[dir@.len() - 1] != '/' ==> r@ == dir@.push('/') + name@,
{
    reveal_strlit("/");
    assert(dir@ + "/"@ =~= dir@.push('/'));
}

/// What git, the merge gate or the hook is asked for is what is carried out: the
/// merge of the commit that is to be merged, the run on the commit that is to be
/// gated, the move of the branch between the commits that it is to be moved
/// between, and the word to whoever is to be told.
pub proof fn what_is_asked_is_carried_out<
    G: crate::git::Git,
    T: crate::gate::Gate,
    N: crate::notify::Notifier,
>(
    action: &crate::tick::Action,
    git: &G,
    gate: &T,
    notifier: &N,
    r: Option<Event>,
)
    requires
        call_ensures(crate::tick::perform::<G, T, N>, (action, git, gate, notifier), r),
    ensures
        action is ListWorktrees ==> (r matches Some(Event::Worktrees(list)) && call_ensures(
            G::worktrees,
            (git,),
            list,
        )),
        action matches crate::tick::Action::CheckOut { at } ==> (
        r matches Some(Event::CheckedOut(done)) && call_ensures(
            G::checkout_detached,
            (git, &at),
            done,
        )),
        action matches crate::tick::Action::Merge { commit, message } ==> (
        r matches Some(Event::Merged(outcome)) && exists|text: &str|
            text@ == message@ && #[trigger] call_ensures(G::merge, (git, &commit, text), outcome)),
        action matches crate::tick::Action::FastForward { refname, from, to } ==> (
        r matches Some(Event::Forwarded(update)) && exists|name: &str|
            name@ == refname@ && #[trigger] call_ensures(
                G::fast_forward,
                (git, name, &from, &to),
                update,
            )),
        action matches crate::tick::Action::Announce { command, settled, repo_path, base_branch }
            ==> (r matches Some(Event::Announced(delivery)) && exists|
            script: &str,
            repo: &str,
            base: &str,
        |
            script@ == command@ && repo@ == repo_path@ && base@ == base_branch@
                && #[trigger] call_ensures(
                N::settled,
                (notifier, script, &settled, repo, base),
                delivery,
            )),
        action is MeasureLogs || action is Prune || action is AskInterrupted || action is Finish
            ==> r is None,
{
}

} // verus!
