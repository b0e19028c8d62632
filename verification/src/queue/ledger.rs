//! The queue as mathematics: what the rows say, and what each step does to
//! them.
//!
//! Nothing here runs. The [`crate::queue::store`] keeps the rows and promises,
//! step by step, to do to them exactly what is written here.

use vstd::prelude::*;

use crate::git::is_object_id;
use crate::git::spelled_id;
use crate::queue::model::EntryId;
use crate::queue::outcome::Outcome;
use crate::queue::state::CandidateState;
use crate::queue::state::EntryState;
use crate::seqs::ordered;
use crate::text::text_before;

verus! {

/// A branch that was put in the queue.
pub struct EntryRecord {
    pub id: EntryId,
    pub repo_path: Seq<char>,
    pub base_branch: Seq<char>,
    pub branch: Seq<char>,
    pub branch_sha: Seq<char>,
    pub state: EntryState,
    pub attempts: u32,
    pub priority: i64,
    pub evict_reason: Option<Seq<char>>,
    pub enqueued_at: Seq<char>,
    pub updated_at: Seq<char>,
}

/// A batch that was put together.
pub struct CandidateRecord {
    pub id: i64,
    pub repo_path: Seq<char>,
    pub base_branch: Seq<char>,
    pub base_sha: Seq<char>,
    pub candidate_sha: Option<Seq<char>>,
    pub state: CandidateState,
    pub parent_id: Option<i64>,
    pub created_at: Seq<char>,
    pub updated_at: Seq<char>,
}

/// One entry's place in one candidate, and what came of it there.
#[derive(Debug, Clone, Copy, PartialEq, Eq, Structural)]
pub struct Member {
    pub candidate_id: i64,
    pub entry_id: EntryId,
    pub position: i64,
    pub outcome: Outcome,
}

/// One execution of the merge gate.
pub struct RunRecord {
    pub id: i64,
    pub candidate_id: i64,
    pub command: Seq<char>,
    pub exit_code: Option<i32>,
    pub log_path: Option<Seq<char>>,
    pub tail: Option<Seq<char>>,
    pub started_at: Seq<char>,
    pub finished_at: Option<Seq<char>>,
}

/// Who may integrate into a base branch, and until when.
pub struct LeaseRecord {
    pub repo_path: Seq<char>,
    pub base_branch: Seq<char>,
    pub holder_pid: i32,
    pub token: Seq<char>,
    pub acquired_at: Seq<char>,
    pub renewed_at: Seq<char>,
    pub expires_at: Seq<char>,
}

/// An entry as the worker sees it.
pub struct EntryView {
    pub id: EntryId,
    pub branch: Seq<char>,
    pub branch_sha: Seq<char>,
    pub attempts: u32,
}

/// A candidate as the worker sees it.
pub struct CandidateView {
    pub id: i64,
    pub base_sha: Seq<char>,
    pub entries: Seq<EntryView>,
}

/// An entry that is out of the queue for good.
pub struct SettledView {
    pub entry: EntryId,
    pub branch: Seq<char>,
    pub state: EntryState,
    pub attempts: u32,
    pub reason: Option<Seq<char>>,
}

/// A gate run whose log is still there and may go.
pub struct LoggedRunView {
    pub run_id: i64,
    pub candidate_id: i64,
    pub log_path: Seq<char>,
    pub passed: bool,
}

/// An entry as a listing shows it.
pub struct StatusView {
    pub id: EntryId,
    pub state: EntryState,
    pub branch: Seq<char>,
    pub branch_sha: Seq<char>,
    pub attempts: u32,
    pub evict_reason: Option<Seq<char>>,
}

/// Every row of every queue, table by table.
#[verifier::ext_equal]
pub struct Ledger {
    pub entries: Seq<EntryRecord>,
    pub candidates: Seq<CandidateRecord>,
    pub members: Seq<Member>,
    pub runs: Seq<RunRecord>,
    pub leases: Seq<LeaseRecord>,
}

impl EntryRecord {
    pub open spec fn in_queue(self, repo: Seq<char>, base: Seq<char>) -> bool {
        self.repo_path == repo && self.base_branch == base
    }

    /// Repository, base branch, branch and commit: a repushed branch is a new
    /// request.
    pub open spec fn same_identity(self, other: EntryRecord) -> bool {
        &&& self.repo_path == other.repo_path
        &&& self.base_branch == other.base_branch
        &&& self.branch == other.branch
        &&& self.branch_sha == other.branch_sha
    }

    /// The entry in another state, with the time of the change.
    pub open spec fn moved(self, state: EntryState, at: Seq<char>) -> EntryRecord {
        EntryRecord { state, updated_at: at, ..self }
    }

    pub open spec fn seen(self) -> EntryView {
        EntryView {
            id: self.id,
            branch: self.branch,
            branch_sha: spelled_id(self.branch_sha),
            attempts: self.attempts,
        }
    }

    pub open spec fn status(self) -> StatusView {
        StatusView {
            id: self.id,
            state: self.state,
            branch: self.branch,
            branch_sha: spelled_id(self.branch_sha),
            attempts: self.attempts,
            evict_reason: self.evict_reason,
        }
    }

    pub open spec fn settled(self) -> SettledView {
        SettledView {
            entry: self.id,
            branch: self.branch,
            state: self.state,
            attempts: self.attempts,
            reason: self.evict_reason,
        }
    }
}

impl CandidateRecord {
    pub open spec fn in_queue(self, repo: Seq<char>, base: Seq<char>) -> bool {
        self.repo_path == repo && self.base_branch == base
    }

    /// The candidate in another state, with the time of the change.
    pub open spec fn moved(self, state: CandidateState, at: Seq<char>) -> CandidateRecord {
        CandidateRecord { state, updated_at: at, ..self }
    }
}

impl LeaseRecord {
    pub open spec fn covers(self, repo: Seq<char>, base: Seq<char>) -> bool {
        self.repo_path == repo && self.base_branch == base
    }
}

/// The entry with an id, where there is one.
pub open spec fn find_entry(entries: Seq<EntryRecord>, id: EntryId) -> Option<EntryRecord>
    decreases entries.len(),
{
    if entries.len() == 0 {
        None
    } else if entries.last().id == id {
        Some(entries.last())
    } else {
        find_entry(entries.drop_last(), id)
    }
}

/// The candidate with an id, where there is one.
pub open spec fn find_candidate(candidates: Seq<CandidateRecord>, id: i64) -> Option<
    CandidateRecord,
>
    decreases candidates.len(),
{
    if candidates.len() == 0 {
        None
    } else if candidates.last().id == id {
        Some(candidates.last())
    } else {
        find_candidate(candidates.drop_last(), id)
    }
}

/// The lease on a base branch, where there is one.
pub open spec fn find_lease(leases: Seq<LeaseRecord>, repo: Seq<char>, base: Seq<char>) -> Option<
    LeaseRecord,
>
    decreases leases.len(),
{
    if leases.len() == 0 {
        None
    } else if leases.last().covers(repo, base) {
        Some(leases.last())
    } else {
        find_lease(leases.drop_last(), repo, base)
    }
}

/// Whether some entry has this id.
pub open spec fn has_entry(entries: Seq<EntryRecord>, id: EntryId) -> bool {
    exists|i: int| 0 <= i < entries.len() && #[trigger] entries[i].id == id
}

/// Whether some candidate has this id.
pub open spec fn has_candidate(candidates: Seq<CandidateRecord>, id: i64) -> bool {
    exists|i: int| 0 <= i < candidates.len() && #[trigger] candidates[i].id == id
}

/// Whether an entry is listed in a candidate.
pub open spec fn is_member(members: Seq<Member>, candidate: i64, entry: EntryId) -> bool {
    exists|i: int|
        0 <= i < members.len() && #[trigger] members[i].candidate_id == candidate
            && members[i].entry_id == entry
}

/// A part of a queue: what waits, what is in a candidate, what is done.
#[derive(Debug, Clone, Copy, PartialEq, Eq, Structural)]
pub enum Section {
    Waiting,
    Batched,
    Settled,
}

impl Section {
    /// The part has the entries in this state.
    pub open spec fn covers(self, state: EntryState) -> bool {
        match self {
            Section::Waiting => state == EntryState::Queued,
            Section::Batched => state == EntryState::Batched,
            Section::Settled => state.terminal(),
        }
    }

    /// The order of the part: what waits, by priority and oldest first within
    /// one; what is in a candidate, oldest first; what is done, most recent
    /// first.
    pub open spec fn before(self, a: EntryRecord, b: EntryRecord) -> bool {
        match self {
            Section::Waiting => waits_before(a, b),
            Section::Batched => a.id < b.id,
            Section::Settled => text_before(b.updated_at, a.updated_at) || (a.updated_at
                == b.updated_at && a.id > b.id),
        }
    }
}

/// The order in which entries wait: by priority, and oldest first within one.
pub open spec fn waits_before(a: EntryRecord, b: EntryRecord) -> bool {
    a.priority > b.priority || (a.priority == b.priority && a.id < b.id)
}

/// The items of a list, each where it first stands.
pub open spec fn distinct(list: Seq<Seq<char>>) -> Seq<Seq<char>>
    decreases list.len(),
{
    if list.len() == 0 {
        list
    } else {
        let seen = distinct(list.drop_last());
        if seen.contains(list.last()) {
            seen
        } else {
            seen.push(list.last())
        }
    }
}

/// No two live entries have the same identity.
pub open spec fn live_apart(entries: Seq<EntryRecord>) -> bool {
    forall|i: int, j: int|
        0 <= i < entries.len() && 0 <= j < entries.len() && i != j
            && #[trigger] entries[i].state.live() && #[trigger] entries[j].state.live()
            ==> !entries[i].same_identity(entries[j])
}

/// Ids are positive and grow from one entry to the next.
pub open spec fn entries_rise(entries: Seq<EntryRecord>) -> bool {
    &&& forall|i: int, j: int|
        0 <= i < j < entries.len() ==> #[trigger] entries[i].id < #[trigger] entries[j].id
    &&& forall|i: int| 0 <= i < entries.len() ==> (#[trigger] entries[i]).id > 0
}

/// Ids are positive and grow from one candidate to the next.
pub open spec fn candidates_rise(candidates: Seq<CandidateRecord>) -> bool {
    &&& forall|i: int, j: int|
        0 <= i < j < candidates.len() ==> #[trigger] candidates[i].id < #[trigger] candidates[j].id
    &&& forall|i: int| 0 <= i < candidates.len() ==> (#[trigger] candidates[i]).id > 0
}

/// Ids are positive and grow from one run to the next.
pub open spec fn runs_rise(runs: Seq<RunRecord>) -> bool {
    &&& forall|i: int, j: int|
        0 <= i < j < runs.len() ==> #[trigger] runs[i].id < #[trigger] runs[j].id
    &&& forall|i: int| 0 <= i < runs.len() ==> (#[trigger] runs[i]).id > 0
}

/// Every membership is of a candidate and an entry that are there.
pub open spec fn members_lead(
    members: Seq<Member>,
    candidates: Seq<CandidateRecord>,
    entries: Seq<EntryRecord>,
) -> bool {
    forall|i: int|
        0 <= i < members.len() ==> has_candidate(
            candidates,
            (#[trigger] members[i]).candidate_id,
        ) && has_entry(entries, members[i].entry_id)
}

/// No entry is listed twice in one candidate.
pub open spec fn members_apart(members: Seq<Member>) -> bool {
    forall|i: int, j: int|
        0 <= i < j < members.len() && (#[trigger] members[i]).candidate_id == (
        #[trigger] members[j]).candidate_id ==> members[i].entry_id != members[j].entry_id
}

/// A candidate that is gated or landed names its commit, so the commit that
/// passed the merge gate is always the commit merged.
pub open spec fn commits_named(candidates: Seq<CandidateRecord>) -> bool {
    forall|i: int|
        0 <= i < candidates.len() && (#[trigger] candidates[i]).state.names_commit()
            ==> candidates[i].candidate_sha is Some
}

/// Every run is of a candidate that is there.
pub open spec fn runs_lead(runs: Seq<RunRecord>, candidates: Seq<CandidateRecord>) -> bool {
    forall|i: int|
        0 <= i < runs.len() ==> has_candidate(candidates, (#[trigger] runs[i]).candidate_id)
}

/// No base branch is leased twice.
pub open spec fn leases_apart(leases: Seq<LeaseRecord>) -> bool {
    forall|i: int, j: int|
        0 <= i < j < leases.len() ==> !(#[trigger] leases[i]).covers(
            (#[trigger] leases[j]).repo_path,
            leases[j].base_branch,
        )
}

/// The entries at the front of a list that have no attempt behind them.
pub open spec fn fresh_run(entries: Seq<EntryRecord>) -> Seq<EntryRecord>
    decreases entries.len(),
{
    if entries.len() > 0 && entries[0].attempts == 0 {
        seq![entries[0]] + fresh_run(entries.drop_first())
    } else {
        Seq::empty()
    }
}

/// The batch to try, out of the entries at the front of the queue: a retry goes
/// alone, and otherwise the run of never-failed entries goes together.
pub open spec fn batch_of(front: Seq<EntryRecord>) -> Seq<EntryRecord> {
    if front.len() > 0 && front[0].attempts > 0 {
        front.take(1)
    } else {
        fresh_run(front)
    }
}

/// Every record names a commit in full.
pub open spec fn all_full(entries: Seq<EntryRecord>) -> bool {
    forall|i: int|
        0 <= i < entries.len() ==> is_object_id(spelled_id((#[trigger] entries[i]).branch_sha))
}

/// The entries as the worker sees them.
pub open spec fn all_seen(entries: Seq<EntryRecord>) -> Seq<EntryView> {
    Seq::new(entries.len(), |i: int| entries[i].seen())
}

/// The entries as a listing shows them.
pub open spec fn all_status(entries: Seq<EntryRecord>) -> Seq<StatusView> {
    Seq::new(entries.len(), |i: int| entries[i].status())
}

/// The ids of entries.
pub open spec fn ids(entries: Seq<EntryView>) -> Seq<EntryId> {
    Seq::new(entries.len(), |i: int| entries[i].id)
}

impl Ledger {
    /// No rows at all.
    pub open spec fn empty() -> Ledger {
        Ledger {
            entries: Seq::empty(),
            candidates: Seq::empty(),
            members: Seq::empty(),
            runs: Seq::empty(),
            leases: Seq::empty(),
        }
    }

    /// What every step keeps: ids grow from one row to the next, references lead
    /// to rows that are there, a live entry has no double, a candidate that is
    /// gated or landed names its commit, and a base branch has one lease.
    pub open spec fn wf(self) -> bool {
        &&& entries_rise(self.entries)
        &&& candidates_rise(self.candidates)
        &&& runs_rise(self.runs)
        &&& live_apart(self.entries)
        &&& members_lead(self.members, self.candidates, self.entries)
        &&& members_apart(self.members)
        &&& commits_named(self.candidates)
        &&& runs_lead(self.runs, self.candidates)
        &&& leases_apart(self.leases)
    }

    /// The id that the next entry gets.
    pub open spec fn next_entry_id(self) -> int {
        if self.entries.len() == 0 {
            1
        } else {
            self.entries.last().id + 1
        }
    }

    /// The id that the next candidate gets.
    pub open spec fn next_candidate_id(self) -> int {
        if self.candidates.len() == 0 {
            1
        } else {
            self.candidates.last().id + 1
        }
    }

    /// The id that the next run gets.
    pub open spec fn next_run_id(self) -> int {
        if self.runs.len() == 0 {
            1
        } else {
            self.runs.last().id + 1
        }
    }

    pub open spec fn entry(self, id: EntryId) -> Option<EntryRecord> {
        find_entry(self.entries, id)
    }

    pub open spec fn candidate(self, id: i64) -> Option<CandidateRecord> {
        find_candidate(self.candidates, id)
    }

    pub open spec fn lease(self, repo: Seq<char>, base: Seq<char>) -> Option<LeaseRecord> {
        find_lease(self.leases, repo, base)
    }

    pub open spec fn member(self, candidate: i64, entry: EntryId) -> bool {
        is_member(self.members, candidate, entry)
    }

    /// A live entry with this identity is already there.
    pub open spec fn has_live_twin(self, entry: EntryRecord) -> bool {
        exists|i: int|
            0 <= i < self.entries.len() && (#[trigger] self.entries[i]).state.live()
                && self.entries[i].same_identity(entry)
    }

    /// The candidate has not been given a commit.
    pub open spec fn lacks_commit(self, candidate: i64) -> bool {
        exists|i: int|
            0 <= i < self.candidates.len() && (#[trigger] self.candidates[i]).id == candidate
                && self.candidates[i].candidate_sha is None
    }

    /// A new entry at the end of the table.
    pub open spec fn with_entry(self, entry: EntryRecord) -> Ledger {
        Ledger { entries: self.entries.push(entry), ..self }
    }

    /// The entry that queueing a branch makes.
    pub open spec fn queued_entry(
        self,
        repo: Seq<char>,
        base: Seq<char>,
        branch: Seq<char>,
        sha: Seq<char>,
        at: Seq<char>,
    ) -> EntryRecord {
        EntryRecord {
            id: self.next_entry_id() as i64,
            repo_path: repo,
            base_branch: base,
            branch,
            branch_sha: sha,
            state: EntryState::Queued,
            attempts: 0,
            priority: 0,
            evict_reason: None,
            enqueued_at: at,
            updated_at: at,
        }
    }

    /// One part of one queue, in order.
    pub open spec fn section(self, repo: Seq<char>, base: Seq<char>, part: Section) -> Seq<
        EntryRecord,
    > {
        ordered(
            self.entries.filter(|e: EntryRecord| e.in_queue(repo, base) && part.covers(e.state)),
            |a: EntryRecord, b: EntryRecord| part.before(a, b),
        )
    }

    /// The entries waiting in one queue, in the order in which they wait.
    pub open spec fn waiting(self, repo: Seq<char>, base: Seq<char>) -> Seq<EntryRecord> {
        self.section(repo, base, Section::Waiting)
    }

    /// An entry waits in one queue.
    pub open spec fn waits(self, repo: Seq<char>, base: Seq<char>, id: EntryId) -> bool {
        self.entry(id) matches Some(e) && e.in_queue(repo, base) && e.state == EntryState::Queued
    }

    /// The base branches that have rows in a repository: of entries, of
    /// candidates and of leases.
    pub open spec fn bases(self, repo: Seq<char>) -> Seq<Seq<char>> {
        distinct(
            self.entries.filter(|e: EntryRecord| e.repo_path == repo).map_values(
                |e: EntryRecord| e.base_branch,
            ) + self.candidates.filter(|c: CandidateRecord| c.repo_path == repo).map_values(
                |c: CandidateRecord| c.base_branch,
            ) + self.leases.filter(|l: LeaseRecord| l.repo_path == repo).map_values(
                |l: LeaseRecord| l.base_branch,
            ),
        )
    }

    /// The entries at the front of one queue, up to a limit.
    pub open spec fn front(self, repo: Seq<char>, base: Seq<char>, limit: nat) -> Seq<EntryRecord> {
        let waiting = self.waiting(repo, base);
        if waiting.len() <= limit {
            waiting
        } else {
            waiting.take(limit as int)
        }
    }

    /// The unfinished candidates of one queue.
    pub open spec fn active(self, repo: Seq<char>, base: Seq<char>) -> Seq<CandidateRecord> {
        self.candidates.filter(|c: CandidateRecord| c.in_queue(repo, base) && c.state.active())
    }

    /// The members of one candidate, in merge order.
    pub open spec fn members_of(self, candidate: i64) -> Seq<Member> {
        ordered(
            self.members.filter(|m: Member| m.candidate_id == candidate),
            |a: Member, b: Member| a.position < b.position,
        )
    }

    /// The entries of one candidate, in merge order.
    pub open spec fn merge_order(self, candidate: i64) -> Seq<EntryRecord> {
        let members = self.members_of(candidate);
        Seq::new(members.len(), |i: int| self.entry(members[i].entry_id)->0)
    }

    /// A candidate opened over entries, which leave the queue.
    pub open spec fn opened(
        self,
        repo: Seq<char>,
        base: Seq<char>,
        base_sha: Seq<char>,
        entries: Seq<EntryId>,
        parent: Option<i64>,
        at: Seq<char>,
    ) -> Ledger {
        let id = self.next_candidate_id() as i64;
        Ledger {
            entries: self.entries.map_values(
                |e: EntryRecord|
                    if entries.contains(e.id) {
                        e.moved(EntryState::Batched, at)
                    } else {
                        e
                    },
            ),
            candidates: self.candidates.push(
                CandidateRecord {
                    id,
                    repo_path: repo,
                    base_branch: base,
                    base_sha,
                    candidate_sha: None,
                    state: CandidateState::Building,
                    parent_id: parent,
                    created_at: at,
                    updated_at: at,
                },
            ),
            members: self.members + Seq::new(
                entries.len(),
                |i: int|
                    Member {
                        candidate_id: id,
                        entry_id: entries[i],
                        position: i as i64,
                        outcome: Outcome::Pending,
                    },
            ),
            ..self
        }
    }

    /// A candidate in another state, with its commit where one is given.
    pub open spec fn with_candidate(
        self,
        candidate: i64,
        state: CandidateState,
        sha: Option<Seq<char>>,
        at: Seq<char>,
    ) -> Ledger {
        Ledger {
            candidates: self.candidates.map_values(
                |c: CandidateRecord|
                    if c.id == candidate {
                        CandidateRecord {
                            candidate_sha: if sha is Some {
                                sha
                            } else {
                                c.candidate_sha
                            },
                            ..c.moved(state, at)
                        }
                    } else {
                        c
                    },
            ),
            ..self
        }
    }

    /// A gate run at the end of the table.
    pub open spec fn with_run(
        self,
        candidate: i64,
        command: Seq<char>,
        exit_code: Option<i32>,
        log_path: Seq<char>,
        at: Seq<char>,
    ) -> Ledger {
        Ledger {
            runs: self.runs.push(
                RunRecord {
                    id: self.next_run_id() as i64,
                    candidate_id: candidate,
                    command,
                    exit_code,
                    log_path: Some(log_path),
                    tail: None,
                    started_at: at,
                    finished_at: Some(at),
                },
            ),
            ..self
        }
    }

    /// A candidate landed: everything in it is merged.
    pub open spec fn landed(self, candidate: i64, at: Seq<char>) -> Ledger {
        Ledger {
            members: self.members.map_values(
                |m: Member|
                    if m.candidate_id == candidate {
                        Member { outcome: Outcome::Passed, ..m }
                    } else {
                        m
                    },
            ),
            entries: self.entries.map_values(
                |e: EntryRecord|
                    if self.member(candidate, e.id) {
                        e.moved(EntryState::Merged, at)
                    } else {
                        e
                    },
            ),
            ..self.with_candidate(candidate, CandidateState::Passed, None, at)
        }
    }

    /// The entries that a candidate holds out of the queue.
    pub open spec fn held_by(self, candidate: i64, e: EntryRecord) -> bool {
        e.state == EntryState::Batched && self.member(candidate, e.id)
    }

    /// A candidate thrown away: what it held is back in line, with no verdict
    /// and nothing spent.
    pub open spec fn abandoned(self, candidate: i64, state: CandidateState, at: Seq<char>) -> Ledger {
        Ledger {
            entries: self.entries.map_values(
                |e: EntryRecord|
                    if self.held_by(candidate, e) {
                        e.moved(EntryState::Queued, at)
                    } else {
                        e
                    },
            ),
            ..self.with_candidate(candidate, state, None, at)
        }
    }

    /// A candidate pinned on one of its entries. The culprit pays an attempt and
    /// is out if its budget is gone; everything else goes back in line for
    /// nothing.
    pub open spec fn blamed(
        self,
        candidate: i64,
        culprit: EntryId,
        spent: u32,
        evicted: bool,
        reason: Seq<char>,
        at: Seq<char>,
    ) -> Ledger {
        Ledger {
            members: self.members.map_values(
                |m: Member|
                    if m.candidate_id != candidate {
                        m
                    } else if m.entry_id == culprit {
                        Member { outcome: Outcome::Culprit, ..m }
                    } else {
                        Member { outcome: Outcome::Skipped, ..m }
                    },
            ),
            entries: self.entries.map_values(
                |e: EntryRecord|
                    if e.id == culprit {
                        EntryRecord {
                            attempts: spent,
                            evict_reason: if evicted {
                                Some(reason)
                            } else {
                                e.evict_reason
                            },
                            ..e.moved(
                                if evicted {
                                    EntryState::Evicted
                                } else {
                                    EntryState::Queued
                                },
                                at,
                            )
                        }
                    } else if self.held_by(candidate, e) {
                        e.moved(EntryState::Queued, at)
                    } else {
                        e
                    },
            ),
            ..self.with_candidate(candidate, CandidateState::Failed, None, at)
        }
    }

    /// A candidate that a worker left unfinished.
    pub open spec fn is_orphan(self, c: CandidateRecord, repo: Seq<char>, base: Seq<char>) -> bool {
        c.in_queue(repo, base) && c.state.active()
    }

    /// An entry that a worker left inside an unfinished candidate.
    pub open spec fn is_stranded(self, e: EntryRecord, repo: Seq<char>, base: Seq<char>) -> bool {
        e.state == EntryState::Batched && exists|i: int|
            0 <= i < self.candidates.len() && self.is_orphan(
                #[trigger] self.candidates[i],
                repo,
                base,
            ) && self.member(self.candidates[i].id, e.id)
    }

    /// What a worker left unfinished, cleared away at no cost to any entry.
    pub open spec fn superseded(self, repo: Seq<char>, base: Seq<char>, at: Seq<char>) -> Ledger {
        Ledger {
            entries: self.entries.map_values(
                |e: EntryRecord|
                    if self.is_stranded(e, repo, base) {
                        e.moved(EntryState::Queued, at)
                    } else {
                        e
                    },
            ),
            candidates: self.candidates.map_values(
                |c: CandidateRecord|
                    if self.is_orphan(c, repo, base) {
                        c.moved(CandidateState::Superseded, at)
                    } else {
                        c
                    },
            ),
            ..self
        }
    }

    /// The leases but for one base branch's, where it carries a token.
    pub open spec fn released(self, repo: Seq<char>, base: Seq<char>, token: Seq<char>) -> Ledger {
        Ledger {
            leases: self.leases.filter(
                |l: LeaseRecord| !(l.covers(repo, base) && l.token == token),
            ),
            ..self
        }
    }

    /// A lease with a later expiry, where it carries a token.
    pub open spec fn renewed(
        self,
        repo: Seq<char>,
        base: Seq<char>,
        token: Seq<char>,
        at: Seq<char>,
        until: Seq<char>,
    ) -> Ledger {
        Ledger {
            leases: self.leases.map_values(
                |l: LeaseRecord|
                    if l.covers(repo, base) && l.token == token {
                        LeaseRecord { renewed_at: at, expires_at: until, ..l }
                    } else {
                        l
                    },
            ),
            ..self
        }
    }

    /// The lease on a base branch carries a token.
    pub open spec fn holds_token(self, repo: Seq<char>, base: Seq<char>, token: Seq<char>) -> bool {
        self.lease(repo, base) matches Some(l) && l.token == token
    }

    /// The leases but for one base branch's.
    pub open spec fn without_lease(self, repo: Seq<char>, base: Seq<char>) -> Ledger {
        Ledger { leases: self.leases.filter(|l: LeaseRecord| !l.covers(repo, base)), ..self }
    }

    /// A lease at the end of the table.
    pub open spec fn with_lease(self, lease: LeaseRecord) -> Ledger {
        Ledger { leases: self.leases.push(lease), ..self }
    }

    /// An entry with another priority.
    pub open spec fn reprioritised(self, id: EntryId, priority: i64, at: Seq<char>) -> Ledger {
        Ledger {
            entries: self.entries.map_values(
                |e: EntryRecord|
                    if e.id == id {
                        EntryRecord { priority, updated_at: at, ..e }
                    } else {
                        e
                    },
            ),
            ..self
        }
    }

    /// An entry taken out of the queue by hand.
    pub open spec fn removed(self, id: EntryId, reason: Seq<char>, at: Seq<char>) -> Ledger {
        Ledger {
            entries: self.entries.map_values(
                |e: EntryRecord|
                    if e.id == id {
                        EntryRecord { evict_reason: Some(reason), ..e.moved(EntryState::Evicted, at) }
                    } else {
                        e
                    },
            ),
            ..self
        }
    }

    /// A run whose log has gone, with the part of it that is kept.
    pub open spec fn log_forgotten(self, run: i64, tail: Option<Seq<char>>) -> Ledger {
        Ledger {
            runs: self.runs.map_values(
                |r: RunRecord|
                    if r.id == run {
                        RunRecord { log_path: None, tail, ..r }
                    } else {
                        r
                    },
            ),
            ..self
        }
    }

    /// The run still has a log, and its candidate, of this queue, is finished
    /// with.
    pub open spec fn may_lose_log(self, run: RunRecord, repo: Seq<char>, base: Seq<char>) -> bool {
        &&& run.log_path is Some
        &&& self.candidate(run.candidate_id) matches Some(c) && c.in_queue(repo, base)
            && c.state.terminal()
    }

    /// The runs of one queue whose logs may go, oldest first.
    pub open spec fn logged(self, repo: Seq<char>, base: Seq<char>) -> Seq<LoggedRunView> {
        self.runs.filter(|r: RunRecord| self.may_lose_log(r, repo, base)).map_values(
            |r: RunRecord|
                LoggedRunView {
                    run_id: r.id,
                    candidate_id: r.candidate_id,
                    log_path: r.log_path->0,
                    passed: r.exit_code == Some(0i32),
                },
        )
    }
}

/// The same rows, in whatever state: ids, identities and references are as they
/// were.
pub open spec fn same_rows(a: Ledger, b: Ledger) -> bool {
    &&& a.entries.len() == b.entries.len()
    &&& forall|i: int|
        0 <= i < a.entries.len() ==> (#[trigger] a.entries[i]).id == (#[trigger] b.entries[i]).id
            && a.entries[i].same_identity(b.entries[i])
    &&& a.candidates.len() == b.candidates.len()
    &&& forall|i: int|
        0 <= i < a.candidates.len() ==> (#[trigger] a.candidates[i]).id == (
        #[trigger] b.candidates[i]).id && a.candidates[i].in_queue(
            b.candidates[i].repo_path,
            b.candidates[i].base_branch,
        )
    &&& a.members.len() == b.members.len()
    &&& forall|i: int|
        0 <= i < a.members.len() ==> (#[trigger] a.members[i]).candidate_id == (
        #[trigger] b.members[i]).candidate_id && a.members[i].entry_id == b.members[i].entry_id
            && a.members[i].position == b.members[i].position
    &&& a.runs.len() == b.runs.len()
    &&& forall|i: int|
        0 <= i < a.runs.len() ==> (#[trigger] a.runs[i]).id == (#[trigger] b.runs[i]).id
            && a.runs[i].candidate_id == b.runs[i].candidate_id
}

/// No entry comes back to life.
pub open spec fn none_revived(a: Seq<EntryRecord>, b: Seq<EntryRecord>) -> bool {
    forall|i: int|
        0 <= i < a.len() && (#[trigger] b[i]).state.live() ==> (#[trigger] a[i]).state.live()
}

/// Rows that only change state stay well-formed, so long as live entries stay
/// apart, commits stay named and leases stay apart.
pub proof fn same_rows_wf(a: Ledger, b: Ledger)
    requires
        a.wf(),
        same_rows(a, b),
        none_revived(a.entries, b.entries) || live_apart(b.entries),
        commits_named(b.candidates),
        leases_apart(b.leases),
    ensures
        b.wf(),
        forall|c: i64, e: EntryId| is_member(a.members, c, e) == #[trigger] is_member(
            b.members,
            c,
            e,
        ),
{
    assert forall|i: int, j: int| 0 <= i < j < b.entries.len() implies #[trigger] b.entries[i].id
        < #[trigger] b.entries[j].id by {
        assert(a.entries[i].id < a.entries[j].id);
    }
    assert forall|i: int| 0 <= i < b.entries.len() implies (#[trigger] b.entries[i]).id > 0 by {
        assert(a.entries[i].id > 0);
    }
    assert forall|i: int, j: int|
        0 <= i < j < b.candidates.len() implies #[trigger] b.candidates[i].id
        < #[trigger] b.candidates[j].id by {
        assert(a.candidates[i].id < a.candidates[j].id);
    }
    assert forall|i: int| 0 <= i < b.candidates.len() implies (#[trigger] b.candidates[i]).id
        > 0 by {
        assert(a.candidates[i].id > 0);
    }
    assert forall|i: int, j: int| 0 <= i < j < b.runs.len() implies #[trigger] b.runs[i].id
        < #[trigger] b.runs[j].id by {
        assert(a.runs[i].id < a.runs[j].id);
    }
    assert forall|i: int| 0 <= i < b.runs.len() implies (#[trigger] b.runs[i]).id > 0 by {
        assert(a.runs[i].id > 0);
    }
    assert forall|id: i64| has_candidate(a.candidates, id) implies #[trigger] has_candidate(
        b.candidates,
        id,
    ) by {
        let i = choose|i: int| 0 <= i < a.candidates.len() && #[trigger] a.candidates[i].id == id;
        assert(b.candidates[i].id == id);
    }
    assert forall|id: EntryId| has_entry(a.entries, id) implies #[trigger] has_entry(
        b.entries,
        id,
    ) by {
        let i = choose|i: int| 0 <= i < a.entries.len() && #[trigger] a.entries[i].id == id;
        assert(b.entries[i].id == id);
    }
    assert forall|i: int| 0 <= i < b.members.len() implies has_candidate(
        b.candidates,
        (#[trigger] b.members[i]).candidate_id,
    ) && has_entry(b.entries, b.members[i].entry_id) by {
        assert(has_candidate(a.candidates, a.members[i].candidate_id));
    }
    assert forall|i: int, j: int|
        0 <= i < j < b.members.len() && (#[trigger] b.members[i]).candidate_id == (
        #[trigger] b.members[j]).candidate_id implies b.members[i].entry_id
        != b.members[j].entry_id by {
        assert(a.members[i].candidate_id == a.members[j].candidate_id);
    }
    assert forall|i: int| 0 <= i < b.runs.len() implies has_candidate(
        b.candidates,
        (#[trigger] b.runs[i]).candidate_id,
    ) by {
        assert(has_candidate(a.candidates, a.runs[i].candidate_id));
    }
    if none_revived(a.entries, b.entries) {
        assert forall|i: int, j: int|
            0 <= i < b.entries.len() && 0 <= j < b.entries.len() && i != j
                && #[trigger] b.entries[i].state.live()
                && #[trigger] b.entries[j].state.live() implies !b.entries[i].same_identity(
            b.entries[j],
        ) by {
            assert(a.entries[i].state.live() && a.entries[j].state.live());
        }
    }
    assert forall|c: i64, e: EntryId| is_member(a.members, c, e) == #[trigger] is_member(
        b.members,
        c,
        e,
    ) by {
        if is_member(a.members, c, e) {
            let i = choose|i: int|
                0 <= i < a.members.len() && #[trigger] a.members[i].candidate_id == c
                    && a.members[i].entry_id == e;
            assert(b.members[i].candidate_id == c);
        }
        if is_member(b.members, c, e) {
            let i = choose|i: int|
                0 <= i < b.members.len() && #[trigger] b.members[i].candidate_id == c
                    && b.members[i].entry_id == e;
            assert(a.members[i].candidate_id == c);
        }
    }
}

/// Pinning a candidate on an entry keeps the rows well-formed.
pub proof fn blamed_wf(
    a: Ledger,
    candidate: i64,
    k: int,
    spent: u32,
    evicted: bool,
    reason: Seq<char>,
    at: Seq<char>,
)
    requires
        a.wf(),
        0 <= k < a.entries.len(),
        !evicted && a.entries[k].state.terminal() ==> !a.has_live_twin(a.entries[k]),
    ensures
        a.blamed(candidate, a.entries[k].id, spent, evicted, reason, at).wf(),
{
    let b = a.blamed(candidate, a.entries[k].id, spent, evicted, reason, at);
    assert forall|i: int| 0 <= i < a.entries.len() && i != k implies (#[trigger] b.entries[i])
        == (if a.held_by(candidate, a.entries[i]) {
        a.entries[i].moved(EntryState::Queued, at)
    } else {
        a.entries[i]
    }) by {
        if i < k {
            assert(a.entries[i].id < a.entries[k].id);
        } else {
            assert(a.entries[k].id < a.entries[i].id);
        }
    }
    if !evicted && a.entries[k].state.terminal() {
        assert forall|i: int, j: int|
            0 <= i < b.entries.len() && 0 <= j < b.entries.len() && i != j
                && #[trigger] b.entries[i].state.live()
                && #[trigger] b.entries[j].state.live() implies !b.entries[i].same_identity(
            b.entries[j],
        ) by {
            if i == k {
                assert(a.entries[j].state.live());
            } else if j == k {
                assert(a.entries[i].state.live());
            } else {
                assert(a.entries[i].state.live() && a.entries[j].state.live());
            }
        }
    }
    same_rows_wf(a, b);
}

/// Opening a candidate keeps the rows well-formed, so long as its entries are
/// there, listed once and without a live double.
pub proof fn opened_wf(
    a: Ledger,
    repo: Seq<char>,
    base: Seq<char>,
    base_sha: Seq<char>,
    entries: Seq<EntryId>,
    parent: Option<i64>,
    at: Seq<char>,
)
    requires
        a.wf(),
        a.next_candidate_id() <= i64::MAX,
        forall|i: int| 0 <= i < entries.len() ==> has_entry(a.entries, #[trigger] entries[i]),
        entries.no_duplicates(),
        live_apart(a.opened(repo, base, base_sha, entries, parent, at).entries),
    ensures
        a.opened(repo, base, base_sha, entries, parent, at).wf(),
{
    let b = a.opened(repo, base, base_sha, entries, parent, at);
    let id = a.next_candidate_id() as i64;
    let mid = Ledger { entries: b.entries, ..a };
    same_rows_wf(a, mid);
    let new = b.candidates.last();
    let wide = Ledger { candidates: mid.candidates.push(new), ..mid };
    with_new_candidate_wf(mid, wide, new);
    assert(wide.candidates =~= b.candidates);
    assert(b.candidates[a.candidates.len() as int].id == id);
    assert forall|c: i64| has_candidate(a.candidates, c) implies c != id by {
        let i = choose|i: int| 0 <= i < a.candidates.len() && #[trigger] a.candidates[i].id == c;
        if i < a.candidates.len() - 1 {
            assert(a.candidates[i].id < a.candidates[a.candidates.len() - 1].id);
        }
    }
    assert forall|i: int| 0 <= i < b.members.len() implies has_candidate(
        b.candidates,
        (#[trigger] b.members[i]).candidate_id,
    ) && has_entry(b.entries, b.members[i].entry_id) by {
        if i < a.members.len() {
            assert(wide.members[i] == b.members[i]);
        } else {
            let e = entries[i - a.members.len()];
            let k = choose|k: int| 0 <= k < a.entries.len() && #[trigger] a.entries[k].id == e;
            assert(b.entries[k].id == e);
        }
    }
    assert forall|i: int, j: int|
        0 <= i < j < b.members.len() && (#[trigger] b.members[i]).candidate_id == (
        #[trigger] b.members[j]).candidate_id implies b.members[i].entry_id
        != b.members[j].entry_id by {
        if j < a.members.len() {
            assert(a.members[i].candidate_id == a.members[j].candidate_id);
        } else if i < a.members.len() {
            assert(has_candidate(a.candidates, a.members[i].candidate_id));
        }
    }
    assert forall|i: int| 0 <= i < b.runs.len() implies has_candidate(
        b.candidates,
        (#[trigger] b.runs[i]).candidate_id,
    ) by {
        assert(has_candidate(wide.candidates, wide.runs[i].candidate_id));
    }
}

/// The run of fresh entries is the front of the list up to the first entry that
/// has been tried.
pub proof fn fresh_run_is(s: Seq<EntryRecord>, n: int)
    requires
        0 <= n <= s.len(),
        forall|i: int| 0 <= i < n ==> (#[trigger] s[i]).attempts == 0,
        n < s.len() ==> s[n].attempts > 0,
    ensures
        fresh_run(s) == s.take(n),
    decreases n,
{
    if n == 0 {
        assert(s.take(0) =~= Seq::<EntryRecord>::empty());
    } else {
        assert(s[0].attempts == 0);
        let rest = s.drop_first();
        assert forall|i: int| 0 <= i < n - 1 implies (#[trigger] rest[i]).attempts == 0 by {
            assert(s[i + 1].attempts == 0);
        }
        fresh_run_is(rest, n - 1);
        assert(s.take(n) =~= seq![s[0]] + rest.take(n - 1));
    }
}

/// A new entry keeps the rows well-formed.
pub proof fn with_entry_wf(a: Ledger, entry: EntryRecord)
    requires
        a.wf(),
        entry.id >= a.next_entry_id(),
        entry.state.live() ==> !a.has_live_twin(entry),
    ensures
        a.with_entry(entry).wf(),
{
    let b = a.with_entry(entry);
    assert forall|id: EntryId| has_entry(a.entries, id) implies #[trigger] has_entry(
        b.entries,
        id,
    ) by {
        let i = choose|i: int| 0 <= i < a.entries.len() && #[trigger] a.entries[i].id == id;
        assert(b.entries[i].id == id);
    }
    assert forall|i: int, j: int| 0 <= i < j < b.entries.len() implies #[trigger] b.entries[i].id
        < #[trigger] b.entries[j].id by {
        if j == a.entries.len() && i < a.entries.len() - 1 {
            assert(a.entries[i].id < a.entries[a.entries.len() - 1].id);
        }
    }
    assert forall|i: int, j: int|
        0 <= i < b.entries.len() && 0 <= j < b.entries.len() && i != j
            && #[trigger] b.entries[i].state.live()
            && #[trigger] b.entries[j].state.live() implies !b.entries[i].same_identity(
        b.entries[j],
    ) by {
        if i < a.entries.len() && j < a.entries.len() {
            assert(a.entries[i].state.live() && a.entries[j].state.live());
        } else if i < a.entries.len() {
            assert(a.entries[i].state.live());
        } else {
            assert(a.entries[j].state.live());
        }
    }
}

/// A new candidate keeps the rows well-formed.
pub proof fn with_new_candidate_wf(a: Ledger, b: Ledger, candidate: CandidateRecord)
    requires
        a.wf(),
        candidate.id >= a.next_candidate_id(),
        candidate.state.names_commit() ==> candidate.candidate_sha is Some,
        b == (Ledger { candidates: a.candidates.push(candidate), ..a }),
    ensures
        b.wf(),
{
    assert forall|id: i64| has_candidate(a.candidates, id) implies #[trigger] has_candidate(
        b.candidates,
        id,
    ) by {
        let i = choose|i: int| 0 <= i < a.candidates.len() && #[trigger] a.candidates[i].id == id;
        assert(b.candidates[i].id == id);
    }
    assert forall|i: int, j: int|
        0 <= i < j < b.candidates.len() implies #[trigger] b.candidates[i].id
        < #[trigger] b.candidates[j].id by {
        if j == a.candidates.len() && i < a.candidates.len() - 1 {
            assert(a.candidates[i].id < a.candidates[a.candidates.len() - 1].id);
        }
    }
}

/// Looking for a lease finds one exactly where a row covers the base branch,
/// and finds a row that does.
pub proof fn lease_found_is_there(leases: Seq<LeaseRecord>, repo: Seq<char>, base: Seq<char>)
    ensures
        find_lease(leases, repo, base) is Some <==> exists|i: int|
            0 <= i < leases.len() && (#[trigger] leases[i]).covers(repo, base),
        find_lease(leases, repo, base) matches Some(l) ==> l.covers(repo, base) && leases.contains(
            l,
        ),
    decreases leases.len(),
{
    if leases.len() > 0 {
        let rest = leases.drop_last();
        lease_found_is_there(rest, repo, base);
        if leases.last().covers(repo, base) {
            assert(leases[leases.len() - 1].covers(repo, base));
        } else {
            if exists|i: int| 0 <= i < rest.len() && (#[trigger] rest[i]).covers(repo, base) {
                let i = choose|i: int| 0 <= i < rest.len() && (#[trigger] rest[i]).covers(repo, base);
                assert(leases[i].covers(repo, base));
            }
            if exists|i: int| 0 <= i < leases.len() && (#[trigger] leases[i]).covers(repo, base) {
                let i = choose|i: int|
                    0 <= i < leases.len() && (#[trigger] leases[i]).covers(repo, base);
                assert(rest[i].covers(repo, base));
            }
            if let Some(l) = find_lease(rest, repo, base) {
                let i = choose|i: int| 0 <= i < rest.len() && rest[i] == l;
                assert(leases[i] == l);
            }
        }
    }
}

/// An id leads to the row that has it.
pub proof fn entry_is_found(entries: Seq<EntryRecord>, i: int)
    requires
        0 <= i < entries.len(),
        forall|a: int, b: int|
            0 <= a < b < entries.len() ==> #[trigger] entries[a].id < #[trigger] entries[b].id,
    ensures
        find_entry(entries, entries[i].id) == Some(entries[i]),
    decreases entries.len(),
{
    if i < entries.len() - 1 {
        assert(entries[i].id < entries[entries.len() - 1].id);
        let rest = entries.drop_last();
        assert forall|a: int, b: int| 0 <= a < b < rest.len() implies #[trigger] rest[a].id
            < #[trigger] rest[b].id by {
            assert(entries[a].id < entries[b].id);
        }
        entry_is_found(rest, i);
    }
}

/// An id that no row has leads nowhere, and what an id leads to is a row that
/// has it.
pub proof fn entry_found_is_there(entries: Seq<EntryRecord>, id: EntryId)
    ensures
        find_entry(entries, id) is Some <==> has_entry(entries, id),
        find_entry(entries, id) matches Some(e) ==> e.id == id && entries.contains(e),
    decreases entries.len(),
{
    if entries.len() > 0 {
        let rest = entries.drop_last();
        entry_found_is_there(rest, id);
        if entries.last().id == id {
            assert(entries[entries.len() - 1].id == id);
        } else {
            if has_entry(rest, id) {
                let i = choose|i: int| 0 <= i < rest.len() && #[trigger] rest[i].id == id;
                assert(entries[i].id == id);
            }
            if has_entry(entries, id) {
                let i = choose|i: int| 0 <= i < entries.len() && #[trigger] entries[i].id == id;
                assert(rest[i].id == id);
            }
            if let Some(e) = find_entry(rest, id) {
                let i = choose|i: int| 0 <= i < rest.len() && rest[i] == e;
                assert(entries[i] == e);
            }
        }
    }
}

/// An id leads to the candidate that has it.
pub proof fn candidate_is_found(candidates: Seq<CandidateRecord>, i: int)
    requires
        0 <= i < candidates.len(),
        forall|a: int, b: int|
            0 <= a < b < candidates.len() ==> #[trigger] candidates[a].id
                < #[trigger] candidates[b].id,
    ensures
        find_candidate(candidates, candidates[i].id) == Some(candidates[i]),
    decreases candidates.len(),
{
    if i < candidates.len() - 1 {
        assert(candidates[i].id < candidates[candidates.len() - 1].id);
        let rest = candidates.drop_last();
        assert forall|a: int, b: int| 0 <= a < b < rest.len() implies #[trigger] rest[a].id
            < #[trigger] rest[b].id by {
            assert(candidates[a].id < candidates[b].id);
        }
        candidate_is_found(rest, i);
    }
}

/// An id that no candidate has leads nowhere, and what an id leads to is a
/// candidate that has it.
pub proof fn candidate_found_is_there(candidates: Seq<CandidateRecord>, id: i64)
    ensures
        find_candidate(candidates, id) is Some <==> has_candidate(candidates, id),
        find_candidate(candidates, id) matches Some(c) ==> c.id == id && candidates.contains(c),
    decreases candidates.len(),
{
    if candidates.len() > 0 {
        let rest = candidates.drop_last();
        candidate_found_is_there(rest, id);
        if candidates.last().id == id {
            assert(candidates[candidates.len() - 1].id == id);
        } else {
            if has_candidate(rest, id) {
                let i = choose|i: int| 0 <= i < rest.len() && #[trigger] rest[i].id == id;
                assert(candidates[i].id == id);
            }
            if has_candidate(candidates, id) {
                let i = choose|i: int|
                    0 <= i < candidates.len() && #[trigger] candidates[i].id == id;
                assert(rest[i].id == id);
            }
            if let Some(c) = find_candidate(rest, id) {
                let i = choose|i: int| 0 <= i < rest.len() && rest[i] == c;
                assert(candidates[i] == c);
            }
        }
    }
}

} // verus!
