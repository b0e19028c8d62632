//! Reading and writing the queue.
//!
//! Every function here is one step the worker takes, so the worker reads as a
//! decision table. A step either happens whole or not at all.

use vstd::prelude::*;

use crate::git::is_object_id;
use crate::git::spelled_id;
use crate::git::Sha;
use crate::queue::ledger::all_full;
use crate::queue::ledger::all_seen;
use crate::queue::ledger::all_status;
use crate::queue::ledger::batch_of;
use crate::queue::ledger::blamed_wf;
use crate::queue::ledger::candidate_found_is_there;
use crate::queue::ledger::candidate_is_found;
use crate::queue::ledger::distinct;
use crate::queue::ledger::entry_found_is_there;
use crate::queue::ledger::entry_is_found;
use crate::queue::ledger::fresh_run_is;
use crate::queue::ledger::has_candidate;
use crate::queue::ledger::has_entry;
use crate::queue::ledger::ids;
use crate::queue::ledger::is_member;
use crate::queue::ledger::lease_found_is_there;
use crate::queue::ledger::live_apart;
use crate::queue::ledger::opened_wf;
use crate::queue::ledger::same_rows_wf;
use crate::queue::ledger::with_entry_wf;
use crate::queue::ledger::with_new_candidate_wf;
use crate::queue::ledger::CandidateRecord;
use crate::queue::ledger::CandidateView;
use crate::queue::ledger::EntryRecord;
use crate::queue::ledger::EntryView;
use crate::queue::ledger::Ledger;
use crate::queue::ledger::LeaseRecord;
use crate::queue::ledger::LoggedRunView;
use crate::queue::ledger::Member;
use crate::queue::ledger::RunRecord;
use crate::queue::ledger::Section;
use crate::queue::ledger::SettledView;
use crate::queue::ledger::StatusView;
use crate::queue::model::EntryId;
use crate::queue::outcome::Outcome;
use crate::queue::state::CandidateState;
use crate::queue::state::EntryState;
use crate::seqs;
use crate::text;
use crate::time::written;
use crate::time::Timestamp;

verus! {

/// A row of the entry table.
#[derive(Debug, PartialEq, Eq)]
pub struct EntryRow {
    pub id: EntryId,
    pub repo_path: String,
    pub base_branch: String,
    pub branch: String,
    pub branch_sha: String,
    pub state: EntryState,
    pub attempts: u32,
    pub priority: i64,
    pub evict_reason: Option<String>,
    pub enqueued_at: String,
    pub updated_at: String,
}

/// A row of the candidate table.
#[derive(Debug, PartialEq, Eq)]
pub struct CandidateRow {
    pub id: i64,
    pub repo_path: String,
    pub base_branch: String,
    pub base_sha: String,
    pub candidate_sha: Option<String>,
    pub state: CandidateState,
    pub parent_id: Option<i64>,
    pub created_at: String,
    pub updated_at: String,
}

/// A row of the run table.
#[derive(Debug, PartialEq, Eq)]
pub struct RunRow {
    pub id: i64,
    pub candidate_id: i64,
    pub command: String,
    pub exit_code: Option<i32>,
    pub log_path: Option<String>,
    pub tail: Option<String>,
    pub started_at: String,
    pub finished_at: Option<String>,
}

/// A row of the lease table.
#[derive(Debug, PartialEq, Eq)]
pub struct LeaseRow {
    pub repo_path: String,
    pub base_branch: String,
    pub holder_pid: i32,
    pub token: String,
    pub acquired_at: String,
    pub renewed_at: String,
    pub expires_at: String,
}

impl View for EntryRow {
    type V = EntryRecord;

    open spec fn view(&self) -> EntryRecord {
        EntryRecord {
            id: self.id,
            repo_path: self.repo_path@,
            base_branch: self.base_branch@,
            branch: self.branch@,
            branch_sha: self.branch_sha@,
            state: self.state,
            attempts: self.attempts,
            priority: self.priority,
            evict_reason: text::optional(self.evict_reason),
            enqueued_at: self.enqueued_at@,
            updated_at: self.updated_at@,
        }
    }
}

impl View for CandidateRow {
    type V = CandidateRecord;

    open spec fn view(&self) -> CandidateRecord {
        CandidateRecord {
            id: self.id,
            repo_path: self.repo_path@,
            base_branch: self.base_branch@,
            base_sha: self.base_sha@,
            candidate_sha: text::optional(self.candidate_sha),
            state: self.state,
            parent_id: self.parent_id,
            created_at: self.created_at@,
            updated_at: self.updated_at@,
        }
    }
}

impl View for RunRow {
    type V = RunRecord;

    open spec fn view(&self) -> RunRecord {
        RunRecord {
            id: self.id,
            candidate_id: self.candidate_id,
            command: self.command@,
            exit_code: self.exit_code,
            log_path: text::optional(self.log_path),
            tail: text::optional(self.tail),
            started_at: self.started_at@,
            finished_at: text::optional(self.finished_at),
        }
    }
}

impl View for LeaseRow {
    type V = LeaseRecord;

    open spec fn view(&self) -> LeaseRecord {
        LeaseRecord {
            repo_path: self.repo_path@,
            base_branch: self.base_branch@,
            holder_pid: self.holder_pid,
            token: self.token@,
            acquired_at: self.acquired_at@,
            renewed_at: self.renewed_at@,
            expires_at: self.expires_at@,
        }
    }
}

/// What the rows of the entry table say.
pub open spec fn entry_records(rows: Seq<EntryRow>) -> Seq<EntryRecord> {
    Seq::new(rows.len(), |i: int| rows[i]@)
}

/// What the rows of the candidate table say.
pub open spec fn candidate_records(rows: Seq<CandidateRow>) -> Seq<CandidateRecord> {
    Seq::new(rows.len(), |i: int| rows[i]@)
}

/// What the rows of the run table say.
pub open spec fn run_records(rows: Seq<RunRow>) -> Seq<RunRecord> {
    Seq::new(rows.len(), |i: int| rows[i]@)
}

/// What the rows of the lease table say.
pub open spec fn lease_records(rows: Seq<LeaseRow>) -> Seq<LeaseRecord> {
    Seq::new(rows.len(), |i: int| rows[i]@)
}

/// An entry as the worker needs it: what to merge, and how much of its retry
/// budget is already spent.
#[derive(Debug, PartialEq, Eq)]
pub struct Entry {
    pub id: EntryId,
    pub branch: String,
    pub branch_sha: Sha,
    pub attempts: u32,
}

/// A candidate the worker is partway through.
#[derive(Debug, PartialEq, Eq)]
pub struct Candidate {
    pub id: i64,
    /// The base commit this candidate was assembled against.
    pub base_sha: Sha,
    /// In merge order.
    pub entries: Vec<Entry>,
}

impl View for Entry {
    type V = EntryView;

    open spec fn view(&self) -> EntryView {
        EntryView {
            id: self.id,
            branch: self.branch@,
            branch_sha: self.branch_sha@,
            attempts: self.attempts,
        }
    }
}

/// The entries of a list.
pub open spec fn entry_views(list: Seq<Entry>) -> Seq<EntryView> {
    Seq::new(list.len(), |i: int| list[i]@)
}

impl View for Candidate {
    type V = CandidateView;

    open spec fn view(&self) -> CandidateView {
        CandidateView {
            id: self.id,
            base_sha: self.base_sha@,
            entries: entry_views(self.entries@),
        }
    }
}

impl Clone for Entry {
    fn clone(&self) -> (r: Self)
        ensures
            r == *self,
    {
        Entry {
            id: self.id,
            branch: self.branch.clone(),
            branch_sha: self.branch_sha.clone(),
            attempts: self.attempts,
        }
    }
}

/// What happened to the entry a failed candidate was pinned on.
#[derive(Debug, Clone, Copy, PartialEq, Eq, Structural)]
pub enum Blame {
    /// Its retry budget is spent; it is out of the queue.
    Evicted,
    /// It has attempts left and goes back in line.
    Requeued,
}

/// An entry that is out of the queue for good: merged, or evicted and why.
#[derive(Debug, PartialEq, Eq)]
pub struct Settled {
    pub entry: EntryId,
    pub branch: String,
    pub state: EntryState,
    pub attempts: u32,
    pub reason: Option<String>,
}

impl View for Settled {
    type V = SettledView;

    open spec fn view(&self) -> SettledView {
        SettledView {
            entry: self.entry,
            branch: self.branch@,
            state: self.state,
            attempts: self.attempts,
            reason: text::optional(self.reason),
        }
    }
}

impl Clone for Settled {
    fn clone(&self) -> (r: Self)
        ensures
            r == *self,
    {
        Settled {
            entry: self.entry,
            branch: self.branch.clone(),
            state: self.state,
            attempts: self.attempts,
            reason: text::copy_optional(&self.reason),
        }
    }
}

/// A gate run whose log is still there and may go.
#[derive(Debug, PartialEq, Eq)]
pub struct LoggedRun {
    pub run_id: i64,
    pub candidate_id: i64,
    pub log_path: String,
    /// Whether the merge gate run passed.
    pub passed: bool,
}

impl View for LoggedRun {
    type V = LoggedRunView;

    open spec fn view(&self) -> LoggedRunView {
        LoggedRunView {
            run_id: self.run_id,
            candidate_id: self.candidate_id,
            log_path: self.log_path@,
            passed: self.passed,
        }
    }
}

impl Clone for LoggedRun {
    fn clone(&self) -> (r: Self)
        ensures
            r == *self,
    {
        LoggedRun {
            run_id: self.run_id,
            candidate_id: self.candidate_id,
            log_path: self.log_path.clone(),
            passed: self.passed,
        }
    }
}

/// The runs of a list.
pub open spec fn logged_views(list: Seq<LoggedRun>) -> Seq<LoggedRunView> {
    Seq::new(list.len(), |i: int| list[i]@)
}

/// An entry as a listing shows it.
#[derive(Debug, PartialEq, Eq)]
pub struct StatusEntry {
    pub id: EntryId,
    pub state: EntryState,
    pub branch: String,
    pub branch_sha: Sha,
    pub attempts: u32,
    pub evict_reason: Option<String>,
}

impl View for StatusEntry {
    type V = StatusView;

    open spec fn view(&self) -> StatusView {
        StatusView {
            id: self.id,
            state: self.state,
            branch: self.branch@,
            branch_sha: self.branch_sha@,
            attempts: self.attempts,
            evict_reason: text::optional(self.evict_reason),
        }
    }
}

/// The entries of a listing.
pub open spec fn status_views(list: Seq<StatusEntry>) -> Seq<StatusView> {
    Seq::new(list.len(), |i: int| list[i]@)
}

/// One queue, as a listing shows it.
#[derive(Debug, PartialEq, Eq)]
pub struct Snapshot {
    /// The candidate in flight.
    pub active: Option<Candidate>,
    /// In the order in which they will be tried.
    pub queued: Vec<StatusEntry>,
    pub batched: Vec<StatusEntry>,
    /// Most recent first.
    pub settled: Vec<StatusEntry>,
}

/// One queue in a line: what is in flight, and how many entries are where.
#[derive(Debug, Clone, Copy, PartialEq, Eq, Structural)]
pub struct Summary {
    pub active: Option<i64>,
    pub queued: usize,
    pub batched: usize,
    pub settled: usize,
}

/// A step that the queue does not take. Nothing changed.
#[derive(Debug, PartialEq, Eq)]
#[allow(inconsistent_fields)]
pub enum StoreError {
    /// A candidate needs something in it.
    NoEntries,
    /// The same commit of the same branch is already queued or in a candidate.
    AlreadyLive { branch: String },
    /// No entry has this id.
    UnknownEntry { id: EntryId },
    /// No candidate has this id.
    UnknownCandidate { id: i64 },
    /// No candidate has this id, so there is none to move to the state.
    NothingToMove { id: i64, state: CandidateState },
    /// The entry is listed twice.
    RepeatedEntry { id: EntryId },
    /// A row does not name a commit in full.
    NotAnObjectId { raw: String },
    /// The state is not one in which a candidate can be left behind.
    NotAbandonment { state: CandidateState },
    /// A candidate that is gated or landed has to name its commit.
    NoCommit { id: i64 },
    /// The entry has been tried as often as can be counted.
    AttemptsOverflow { id: EntryId },
    /// The entry is not waiting: it is in a candidate, or settled.
    NotWaiting { id: EntryId },
    /// There is no id left to give out, or no priority above the highest.
    OutOfNumbers,
    /// The base branch already has a lease.
    AlreadyLeased,
    /// The id does not follow the ids before it.
    OutOfOrder { id: i64 },
}

impl StoreError {
    /// What the error says.
    pub open spec fn said(self) -> Seq<char> {
        match self {
            StoreError::NoEntries => "refusing to open a candidate over no entries"@,
            StoreError::AlreadyLive { branch } => branch@
                + " is already in the queue at this commit"@,
            StoreError::UnknownEntry { id } => "no entry "@ + text::integer(id as int),
            StoreError::UnknownCandidate { id } => "no candidate "@ + text::integer(id as int),
            StoreError::NothingToMove { id, state } => "no candidate "@ + text::integer(id as int)
                + " to move to "@ + state.name(),
            StoreError::RepeatedEntry { id } => "entry "@ + text::integer(id as int)
                + " is listed twice"@,
            StoreError::NotAnObjectId { raw } => "not a full object id: "@ + text::quoted_text(raw@),
            StoreError::NotAbandonment { state } => state.name()
                + " is not a way to abandon a candidate"@,
            StoreError::NoCommit { id } => "candidate "@ + text::integer(id as int)
                + " does not name its commit"@,
            StoreError::AttemptsOverflow { id } => "entry "@ + text::integer(id as int)
                + " cannot be tried again"@,
            StoreError::NotWaiting { id } => "entry "@ + text::integer(id as int)
                + " is not waiting"@,
            StoreError::OutOfNumbers => "there is no number left to give out"@,
            StoreError::AlreadyLeased => "the base branch already has a lease"@,
            StoreError::OutOfOrder { id } => "row "@ + text::integer(id as int)
                + " does not follow the rows before it"@,
        }
    }

    pub fn message(&self) -> (r: String)
        ensures
            r@ == self.said(),
    {
        match self {
            StoreError::NoEntries => "refusing to open a candidate over no entries".to_string(),
            StoreError::AlreadyLive { branch } => {
                let mut r = branch.clone();
                r.append(" is already in the queue at this commit");
                r
            },
            StoreError::UnknownEntry { id } => {
                let mut r = "no entry ".to_string();
                r.append(&text::integer_text(*id));
                r
            },
            StoreError::UnknownCandidate { id } => {
                let mut r = "no candidate ".to_string();
                r.append(&text::integer_text(*id));
                r
            },
            StoreError::NothingToMove { id, state } => {
                let mut r = numbered("no candidate ", *id, " to move to ");
                r.append(state.as_str());
                r
            },
            StoreError::RepeatedEntry { id } => numbered("entry ", *id, " is listed twice"),
            StoreError::NotAnObjectId { raw } => {
                let mut r = "not a full object id: ".to_string();
                r.append(&text::quoted(raw));
                r
            },
            StoreError::NotAbandonment { state } => {
                let mut r = state.as_str().to_string();
                r.append(" is not a way to abandon a candidate");
                r
            },
            StoreError::NoCommit { id } => numbered("candidate ", *id, " does not name its commit"),
            StoreError::AttemptsOverflow { id } => numbered("entry ", *id, " cannot be tried again"),
            StoreError::NotWaiting { id } => numbered("entry ", *id, " is not waiting"),
            StoreError::OutOfNumbers => "there is no number left to give out".to_string(),
            StoreError::AlreadyLeased => "the base branch already has a lease".to_string(),
            StoreError::OutOfOrder { id } => numbered(
                "row ",
                *id,
                " does not follow the rows before it",
            ),
        }
    }
}

fn numbered(what: &str, id: i64, says: &str) -> (r: String)
    ensures
        r@ == what@ + text::integer(id as int) + says@,
{
    let mut r = what.to_string();
    r.append(&text::integer_text(id));
    r.append(says);
    r
}

/// The rows of every queue.
#[derive(Debug)]
pub struct Store {
    entries: Vec<EntryRow>,
    candidates: Vec<CandidateRow>,
    members: Vec<Member>,
    runs: Vec<RunRow>,
    leases: Vec<LeaseRow>,
}

impl View for Store {
    type V = Ledger;

    closed spec fn view(&self) -> Ledger {
        Ledger {
            entries: entry_records(self.entries@),
            candidates: candidate_records(self.candidates@),
            members: self.members@,
            runs: run_records(self.runs@),
            leases: lease_records(self.leases@),
        }
    }
}

/// How many of the marks are set.
fn count_marks(marks: &Vec<bool>) -> (r: usize)
    ensures
        r == marks@.filter(|b: bool| b).len(),
{
    let mut r: usize = 0;
    let ghost set = |b: bool| b;
    proof {
        reveal(Seq::filter);
    }
    for i in 0..marks.len()
        invariant
            set == (|b: bool| b),
            r == marks@.take(i as int).filter(set).len(),
            r <= i,
    {
        proof {
            seqs::filter_take(marks@, i as int, set);
        }
        if marks[i] {
            r = r + 1;
        }
    }
    assert(marks@.take(marks@.len() as int) =~= marks@);
    r
}

/// Marks set by a test count what passes the test.
proof fn marks_count<A>(marks: Seq<bool>, items: Seq<A>, test: spec_fn(A) -> bool)
    requires
        marks.len() == items.len(),
        forall|i: int| 0 <= i < items.len() ==> #[trigger] marks[i] == test(items[i]),
    ensures
        marks.filter(|b: bool| b).len() == items.filter(test).len(),
    decreases items.len(),
{
    reveal(Seq::filter);
    if items.len() > 0 {
        marks_count(marks.drop_last(), items.drop_last(), test);
        assert(marks.last() == test(items.last()));
    }
}

/// Put the marked entries in a state, and write down when.
fn move_entries(entries: &mut Vec<EntryRow>, marks: &Vec<bool>, state: EntryState, at: &str)
    requires
        marks.len() == old(entries).len(),
    ensures
        final(entries)@.len() == old(entries)@.len(),
        entry_records(final(entries)@) == Seq::new(
            old(entries)@.len(),
            |i: int|
                if marks@[i] {
                    old(entries)@[i]@.moved(state, at@)
                } else {
                    old(entries)@[i]@
                },
        ),
{
    let ghost before = entries@;
    for i in 0..marks.len()
        invariant
            entries.len() == before.len(),
            marks.len() == before.len(),
            forall|j: int|
                0 <= j < i ==> #[trigger] entries@[j]@ == (if marks@[j] {
                    before[j]@.moved(state, at@)
                } else {
                    before[j]@
                }),
            forall|j: int| i <= j < before.len() ==> #[trigger] entries@[j] == before[j],
    {
        if marks[i] {
            entries[i].state = state;
            entries[i].updated_at = at.to_string();
        }
    }
    assert(entry_records(entries@) =~= Seq::new(
        before.len(),
        |i: int|
            if marks@[i] {
                before[i]@.moved(state, at@)
            } else {
                before[i]@
            },
    ));
}

/// Put the marked candidates in a state, and write down when.
fn move_candidates(
    candidates: &mut Vec<CandidateRow>,
    marks: &Vec<bool>,
    state: CandidateState,
    at: &str,
)
    requires
        marks.len() == old(candidates).len(),
    ensures
        final(candidates)@.len() == old(candidates)@.len(),
        candidate_records(final(candidates)@) == Seq::new(
            old(candidates)@.len(),
            |i: int|
                if marks@[i] {
                    old(candidates)@[i]@.moved(state, at@)
                } else {
                    old(candidates)@[i]@
                },
        ),
{
    let ghost before = candidates@;
    for i in 0..marks.len()
        invariant
            candidates.len() == before.len(),
            marks.len() == before.len(),
            forall|j: int|
                0 <= j < i ==> #[trigger] candidates@[j]@ == (if marks@[j] {
                    before[j]@.moved(state, at@)
                } else {
                    before[j]@
                }),
            forall|j: int| i <= j < before.len() ==> #[trigger] candidates@[j] == before[j],
    {
        if marks[i] {
            candidates[i].state = state;
            candidates[i].updated_at = at.to_string();
        }
    }
    assert(candidate_records(candidates@) =~= Seq::new(
        before.len(),
        |i: int|
            if marks@[i] {
                before[i]@.moved(state, at@)
            } else {
                before[i]@
            },
    ));
}

/// Give the marked candidates a commit.
fn name_commit(candidates: &mut Vec<CandidateRow>, marks: &Vec<bool>, sha: &str)
    requires
        marks.len() == old(candidates).len(),
    ensures
        final(candidates)@.len() == old(candidates)@.len(),
        candidate_records(final(candidates)@) == Seq::new(
            old(candidates)@.len(),
            |i: int|
                if marks@[i] {
                    CandidateRecord { candidate_sha: Some(sha@), ..old(candidates)@[i]@ }
                } else {
                    old(candidates)@[i]@
                },
        ),
{
    let ghost before = candidates@;
    for i in 0..marks.len()
        invariant
            candidates.len() == before.len(),
            marks.len() == before.len(),
            forall|j: int|
                0 <= j < i ==> #[trigger] candidates@[j]@ == (if marks@[j] {
                    CandidateRecord { candidate_sha: Some(sha@), ..before[j]@ }
                } else {
                    before[j]@
                }),
            forall|j: int| i <= j < before.len() ==> #[trigger] candidates@[j] == before[j],
    {
        if marks[i] {
            candidates[i].candidate_sha = Some(sha.to_string());
        }
    }
    assert(candidate_records(candidates@) =~= Seq::new(
        before.len(),
        |i: int|
            if marks@[i] {
                CandidateRecord { candidate_sha: Some(sha@), ..before[i]@ }
            } else {
                before[i]@
            },
    ));
}

/// The numbers are all of rows of the table.
pub open spec fn picks(entries: Seq<EntryRecord>, rows: Seq<usize>) -> bool {
    forall|i: int| 0 <= i < rows.len() ==> (#[trigger] rows[i]) < entries.len()
}

/// The rows with the given numbers.
pub open spec fn picked(entries: Seq<EntryRecord>, rows: Seq<usize>) -> Seq<EntryRecord> {
    Seq::new(rows.len(), |i: int| entries[rows[i] as int])
}

/// The first row that does not name a commit in full.
pub open spec fn misread_at(rows: Seq<EntryRecord>, i: int, raw: Seq<char>) -> bool {
    &&& 0 <= i < rows.len()
    &&& all_full(rows.take(i))
    &&& !is_object_id(spelled_id(rows[i].branch_sha))
    &&& raw == rows[i].branch_sha
}

/// Some row does not name a commit in full, and this is what the first says.
pub open spec fn misread(rows: Seq<EntryRecord>, raw: Seq<char>) -> bool {
    exists|i: int| #[trigger] misread_at(rows, i, raw)
}

/// The error that the first row without a full commit gives.
pub open spec fn misreads(rows: Seq<EntryRecord>, e: StoreError) -> bool {
    match e {
        StoreError::NotAnObjectId { raw } => misread(rows, raw@),
        _ => false,
    }
}

/// What abandoning a candidate comes to.
pub open spec fn abandon_gives(
    q: Ledger,
    candidate: i64,
    state: CandidateState,
    at: Seq<char>,
    r: Result<usize, StoreError>,
    q2: Ledger,
) -> bool {
    match r {
        Ok(requeued) => {
            &&& state == CandidateState::Superseded || state == CandidateState::Failed
            &&& requeued == q.entries.filter(
                |e: EntryRecord| q.held_by(candidate, e),
            ).len()
            &&& q2 == q.abandoned(candidate, state, at)
        },
        Err(StoreError::NotAbandonment { state: given }) => {
            &&& given == state
            &&& state != CandidateState::Superseded && state != CandidateState::Failed
            &&& q2 == q
        },
        Err(_) => false,
    }
}

/// What recording the commit that is gated comes to.
pub open spec fn mark_testing_gives(
    q: Ledger,
    candidate: i64,
    sha: Seq<char>,
    at: Seq<char>,
    r: Result<(), StoreError>,
    q2: Ledger,
) -> bool {
    match r {
        Ok(_) => {
            &&& has_candidate(q.candidates, candidate)
            &&& q2 == q.with_candidate(
                candidate,
                CandidateState::Testing,
                Some(sha),
                at,
            )
        },
        Err(StoreError::NothingToMove { id, state }) => {
            &&& id == candidate && state == CandidateState::Testing
            &&& !has_candidate(q.candidates, candidate)
            &&& q2 == q
        },
        Err(_) => false,
    }
}

/// What recording a gate run comes to.
pub open spec fn record_run_gives(
    q: Ledger,
    candidate: i64,
    command: Seq<char>,
    exit_code: Option<i32>,
    log_path: Seq<char>,
    at: Seq<char>,
    r: Result<(), StoreError>,
    q2: Ledger,
) -> bool {
    match r {
        Ok(_) => {
            &&& has_candidate(q.candidates, candidate)
            &&& q.next_run_id() <= i64::MAX
            &&& q2 == q.with_run(
                candidate,
                command,
                exit_code,
                log_path,
                at,
            )
        },
        Err(StoreError::UnknownCandidate { id }) => {
            &&& id == candidate
            &&& !has_candidate(q.candidates, candidate)
            &&& q.next_run_id() <= i64::MAX
            &&& q2 == q
        },
        Err(StoreError::OutOfNumbers) => {
            &&& q.next_run_id() > i64::MAX
            &&& q2 == q
        },
        Err(_) => false,
    }
}

/// What landing a candidate comes to.
pub open spec fn land_gives(
    q: Ledger,
    candidate: i64,
    at: Seq<char>,
    r: Result<usize, StoreError>,
    q2: Ledger,
) -> bool {
    match r {
        Ok(landed) => {
            &&& !q.lacks_commit(candidate)
            &&& landed == q.members.filter(
                |m: Member| m.candidate_id == candidate,
            ).len()
            &&& q2 == q.landed(candidate, at)
        },
        Err(StoreError::NoCommit { id }) => {
            &&& id == candidate
            &&& q.lacks_commit(candidate)
            &&& q2 == q
        },
        Err(_) => false,
    }
}

/// What pinning a candidate on an entry comes to.
pub open spec fn blame_gives(
    q: Ledger,
    candidate: i64,
    culprit: EntryId,
    max_attempts: u32,
    reason: Seq<char>,
    at: Seq<char>,
    r: Result<Blame, StoreError>,
    q2: Ledger,
) -> bool {
    match r {
        Ok(blame) => {
            &&& q.entry(culprit) matches Some(entry)
            &&& entry.attempts < u32::MAX
            &&& (blame == Blame::Evicted <==> entry.attempts + 1 >= max_attempts)
            &&& blame == Blame::Requeued && entry.state.terminal()
                ==> !q.has_live_twin(entry)
            &&& q2 == q.blamed(
                candidate,
                culprit,
                (entry.attempts + 1) as u32,
                blame == Blame::Evicted,
                reason,
                at,
            )
        },
        Err(StoreError::UnknownEntry { id }) => {
            &&& id == culprit
            &&& q.entry(culprit) is None
            &&& q2 == q
        },
        Err(StoreError::AttemptsOverflow { id }) => {
            &&& id == culprit
            &&& q.entry(culprit) matches Some(entry) && entry.attempts == u32::MAX
            &&& q2 == q
        },
        Err(StoreError::AlreadyLive { branch }) => {
            &&& q.entry(culprit) matches Some(entry)
            &&& branch@ == entry.branch
            &&& entry.attempts + 1 < max_attempts
            &&& entry.state.terminal() && q.has_live_twin(entry)
            &&& q2 == q
        },
        Err(_) => false,
    }
}

/// Every entry of a list is there, and none is listed twice.
pub open spec fn listable(q: Ledger, list: Seq<EntryId>) -> bool {
    &&& list.no_duplicates()
    &&& forall|i: int| 0 <= i < list.len() ==> has_entry(q.entries, #[trigger] list[i])
}

/// Reading a list gets as far as this entry.
pub open spec fn reads_to(q: Ledger, list: Seq<EntryId>, i: int, id: EntryId) -> bool {
    &&& 0 <= i < list.len()
    &&& list[i] == id
    &&& listable(q, list.take(i))
}

/// The first entry that cannot be listed is not there.
pub open spec fn first_is_unknown(q: Ledger, list: Seq<EntryId>, id: EntryId) -> bool {
    !has_entry(q.entries, id) && exists|i: int| #[trigger] reads_to(q, list, i, id)
}

/// The first entry that cannot be listed is listed before.
pub open spec fn first_is_repeated(q: Ledger, list: Seq<EntryId>, id: EntryId) -> bool {
    has_entry(q.entries, id) && exists|i: int| #[trigger]
        reads_to(q, list, i, id) && list.take(i).contains(id)
}

/// Two live entries of one identity have this branch.
pub open spec fn is_doubled(entries: Seq<EntryRecord>, branch: Seq<char>) -> bool {
    exists|i: int, j: int|
        0 <= i < j < entries.len() && (#[trigger] entries[i]).state.live() && (
        #[trigger] entries[j]).state.live() && entries[i].same_identity(entries[j])
            && entries[i].branch == branch
}

/// What opening a candidate comes to.
pub open spec fn open_gives(
    q: Ledger,
    repo: Seq<char>,
    base: Seq<char>,
    base_sha: Seq<char>,
    entries: Seq<EntryView>,
    parent: Option<i64>,
    at: Seq<char>,
    r: Result<i64, StoreError>,
    q2: Ledger,
) -> bool {
    let list = ids(entries);
    let after = q.opened(
        repo,
        base,
        base_sha,
        list,
        parent,
        at,
    );
    match r {
        Ok(id) => {
            &&& entries.len() > 0
            &&& id == q.next_candidate_id()
            &&& listable(q, list)
            &&& live_apart(after.entries)
            &&& q2 == after
        },
        Err(StoreError::NoEntries) => {
            &&& entries.len() == 0
            &&& q2 == q
        },
        Err(StoreError::OutOfNumbers) => {
            &&& entries.len() > 0
            &&& q.next_candidate_id() > i64::MAX || entries.len() > i64::MAX
            &&& q2 == q
        },
        Err(StoreError::UnknownEntry { id }) => {
            &&& q.next_candidate_id() <= i64::MAX && entries.len() <= i64::MAX
            &&& first_is_unknown(q, list, id)
            &&& q2 == q
        },
        Err(StoreError::RepeatedEntry { id }) => {
            &&& q.next_candidate_id() <= i64::MAX && entries.len() <= i64::MAX
            &&& first_is_repeated(q, list, id)
            &&& q2 == q
        },
        Err(StoreError::AlreadyLive { branch }) => {
            &&& q.next_candidate_id() <= i64::MAX && entries.len() <= i64::MAX
            &&& entries.len() > 0 && listable(q, list)
            &&& is_doubled(after.entries, branch@)
            &&& q2 == q
        },
        Err(_) => false,
    }
}

/// What choosing the next batch comes to.
pub open spec fn batch_gives(
    q: Ledger,
    repo: Seq<char>,
    base: Seq<char>,
    limit: usize,
    r: Result<Vec<Entry>, StoreError>,
) -> bool {
    let front = q.front(repo, base, limit as nat);
    match r {
        Ok(entries) => {
            &&& all_full(front)
            &&& entry_views(entries@) == all_seen(batch_of(front))
        },
        Err(e) => misreads(front, e),
    }
}

/// The unfinished candidate and its entries, where there is one, name their
/// commits in full.
pub open spec fn active_is_full(q: Ledger, repo: Seq<char>, base: Seq<char>) -> bool {
    let active = q.active(repo, base);
    active.len() > 0 ==> is_object_id(spelled_id(active[0].base_sha)) && all_full(
        q.merge_order(active[0].id),
    )
}

/// What looking for the unfinished candidate comes to.
pub open spec fn active_gives(
    q: Ledger,
    repo: Seq<char>,
    base: Seq<char>,
    r: Result<Option<Candidate>, StoreError>,
) -> bool {
    let active = q.active(repo, base);
    match r {
        Ok(None) => active.len() == 0,
        Ok(Some(candidate)) => {
            let entries = q.merge_order(active[0].id);
            &&& active.len() > 0
            &&& is_object_id(spelled_id(active[0].base_sha))
            &&& all_full(entries)
            &&& candidate@ == (CandidateView {
                id: active[0].id,
                base_sha: spelled_id(active[0].base_sha),
                entries: all_seen(entries),
            })
        },
        Err(e) => {
            &&& active.len() > 0
            &&& if is_object_id(spelled_id(active[0].base_sha)) {
                misreads(q.merge_order(active[0].id), e)
            } else {
                e matches StoreError::NotAnObjectId { raw } && raw@
                    == active[0].base_sha
            }
        },
    }
}

/// What listing a queue in full comes to. Of several rows that do not name a
/// commit in full, the first that is read gives the error: the unfinished
/// candidate's, then those that wait, those in a candidate, and those settled.
pub open spec fn snapshot_gives(
    q: Ledger,
    repo: Seq<char>,
    base: Seq<char>,
    settled_limit: nat,
    r: Result<Snapshot, StoreError>,
) -> bool {
    let waiting = q.waiting(repo, base);
    let batched = q.section(repo, base, Section::Batched);
    let settled = upto(q.section(repo, base, Section::Settled), settled_limit);
    match r {
        Ok(snapshot) => {
            &&& active_gives(q, repo, base, Ok(snapshot.active))
            &&& all_full(waiting) && all_full(batched) && all_full(settled)
            &&& status_views(snapshot.queued@) == all_status(waiting)
            &&& status_views(snapshot.batched@) == all_status(batched)
            &&& status_views(snapshot.settled@) == all_status(settled)
        },
        Err(e) => if !active_is_full(q, repo, base) {
            active_gives(q, repo, base, Err(e))
        } else if !all_full(waiting) {
            misreads(waiting, e)
        } else if !all_full(batched) {
            misreads(batched, e)
        } else {
            misreads(settled, e)
        },
    }
}

/// A sequence, up to a limit.
pub open spec fn upto(s: Seq<EntryRecord>, limit: nat) -> Seq<EntryRecord> {
    if s.len() <= limit {
        s
    } else {
        s.take(limit as int)
    }
}

/// Why a waiting entry was not found: it is not of this queue, or it does not
/// wait.
pub open spec fn refuses(
    q: Ledger,
    repo: Seq<char>,
    base: Seq<char>,
    id: EntryId,
    e: StoreError,
) -> bool {
    match e {
        StoreError::UnknownEntry { id: given } => given == id && (q.entry(id) matches Some(entry)
            ==> !entry.in_queue(repo, base)),
        StoreError::NotWaiting { id: given } => given == id && (q.entry(id) matches Some(entry)
            && entry.in_queue(repo, base) && entry.state != EntryState::Queued),
        _ => false,
    }
}

/// A part of a queue is no longer than the table.
proof fn section_is_short(q: Ledger, repo: Seq<char>, base: Seq<char>, part: Section)
    ensures
        q.section(repo, base, part).len() <= q.entries.len(),
{
    let pred = |e: EntryRecord| e.in_queue(repo, base) && part.covers(e.state);
    seqs::ordered_keeps(
        q.entries.filter(pred),
        |a: EntryRecord, b: EntryRecord| part.before(a, b),
    );
    q.entries.lemma_filter_len(pred);
}

/// An entry that waits is in the list of those that wait.
proof fn waiting_is_listed(q: Ledger, repo: Seq<char>, base: Seq<char>, i: int)
    requires
        0 <= i < q.entries.len(),
        q.entries[i].in_queue(repo, base),
        q.entries[i].state == EntryState::Queued,
    ensures
        q.waiting(repo, base).contains(q.entries[i]),
        q.waiting(repo, base).len() > 0,
{
    let part = Section::Waiting;
    let pred = |e: EntryRecord| e.in_queue(repo, base) && part.covers(e.state);
    let before = |a: EntryRecord, b: EntryRecord| part.before(a, b);
    q.entries.lemma_filter_contains(pred, i);
    seqs::ordered_has(q.entries.filter(pred), before, q.entries[i]);
}

/// Add a name to a list, unless it is there.
fn note_once(list: &mut Vec<String>, name: &String, Ghost(all): Ghost<Seq<Seq<char>>>)
    requires
        text::texts(old(list)@) == distinct(all),
    ensures
        text::texts(final(list)@) == distinct(all.push(name@)),
{
    let ghost before = list@;
    assert(all.push(name@).drop_last() =~= all);
    for i in 0..list.len()
        invariant
            list@ == before,
            all.push(name@).drop_last() == all,
            text::texts(before) == distinct(all),
            forall|j: int| 0 <= j < i ==> (#[trigger] before[j])@ != name@,
    {
        if list[i] == *name {
            assert(text::texts(before)[i as int] == name@);
            return;
        }
    }
    proof {
        if text::texts(before).contains(name@) {
            let j = choose|j: int|
                0 <= j < text::texts(before).len() && text::texts(before)[j] == name@;
            assert(before[j]@ == name@);
        }
    }
    list.push(name.clone());
    assert(text::texts(list@) =~= text::texts(before).push(name@));
}

/// An entry is live, or would be if it were marked.
spec fn would_live(entries: Seq<EntryRecord>, marks: Seq<bool>, i: int) -> bool {
    marks[i] || entries[i].state.live()
}

/// Whether a part of a queue has the entries in a state.
fn covers(part: Section, state: EntryState) -> (r: bool)
    ensures
        r == part.covers(state),
{
    match part {
        Section::Waiting => state == EntryState::Queued,
        Section::Batched => state == EntryState::Batched,
        Section::Settled => state.is_terminal(),
    }
}

/// Whether an entry is listed in a candidate.
fn lists(members: &Vec<Member>, candidate: i64, entry: EntryId) -> (r: bool)
    ensures
        r == is_member(members@, candidate, entry),
{
    for i in 0..members.len()
        invariant
            forall|j: int|
                0 <= j < i ==> !(#[trigger] members@[j].candidate_id == candidate
                    && members@[j].entry_id == entry),
    {
        if members[i].candidate_id == candidate && members[i].entry_id == entry {
            assert(members@[i as int].candidate_id == candidate);
            return true;
        }
    }
    false
}

/// Whether an id is in a list.
fn holds_id(list: &Vec<EntryId>, id: EntryId) -> (r: bool)
    ensures
        r == list@.contains(id),
{
    for i in 0..list.len()
        invariant
            forall|j: int| 0 <= j < i ==> #[trigger] list@[j] != id,
    {
        if list[i] == id {
            assert(list@[i as int] == id);
            return true;
        }
    }
    false
}

impl Store {
    /// A store with no rows.
    pub fn new() -> (r: Self)
        ensures
            r@ == Ledger::empty(),
            r@.wf(),
    {
        let r = Store {
            entries: Vec::new(),
            candidates: Vec::new(),
            members: Vec::new(),
            runs: Vec::new(),
            leases: Vec::new(),
        };
        assert(r@ =~= Ledger::empty());
        r
    }

    /// The rows of the entry table.
    pub fn entries(&self) -> (r: &Vec<EntryRow>)
        ensures
            entry_records(r@) == self@.entries,
    {
        &self.entries
    }

    /// The rows of the candidate table.
    pub fn candidates(&self) -> (r: &Vec<CandidateRow>)
        ensures
            candidate_records(r@) == self@.candidates,
    {
        &self.candidates
    }

    /// Which entry is in which candidate.
    pub fn members(&self) -> (r: &Vec<Member>)
        ensures
            r@ == self@.members,
    {
        &self.members
    }

    /// The rows of the run table.
    pub fn runs(&self) -> (r: &Vec<RunRow>)
        ensures
            run_records(r@) == self@.runs,
    {
        &self.runs
    }

    /// The rows of the lease table.
    pub fn leases(&self) -> (r: &Vec<LeaseRow>)
        ensures
            lease_records(r@) == self@.leases,
    {
        &self.leases
    }

    /// The id that the next entry gets, while there is one.
    pub fn next_entry_id(&self) -> (r: Option<EntryId>)
        ensures
            match r {
                Some(id) => id == self@.next_entry_id(),
                None => self@.next_entry_id() > i64::MAX,
            },
    {
        if self.entries.len() == 0 {
            Some(1)
        } else {
            self.entries[self.entries.len() - 1].id.checked_add(1)
        }
    }

    /// The id that the next candidate gets, while there is one.
    pub fn next_candidate_id(&self) -> (r: Option<i64>)
        ensures
            match r {
                Some(id) => id == self@.next_candidate_id(),
                None => self@.next_candidate_id() > i64::MAX,
            },
    {
        if self.candidates.len() == 0 {
            Some(1)
        } else {
            self.candidates[self.candidates.len() - 1].id.checked_add(1)
        }
    }

    /// The id that the next run gets, while there is one.
    pub fn next_run_id(&self) -> (r: Option<i64>)
        ensures
            match r {
                Some(id) => id == self@.next_run_id(),
                None => self@.next_run_id() > i64::MAX,
            },
    {
        if self.runs.len() == 0 {
            Some(1)
        } else {
            self.runs[self.runs.len() - 1].id.checked_add(1)
        }
    }

    /// Whether some entry has this id.
    fn knows_entry(&self, id: EntryId) -> (r: bool)
        ensures
            r == has_entry(self@.entries, id),
    {
        for i in 0..self.entries.len()
            invariant
                forall|j: int| 0 <= j < i ==> (#[trigger] self@.entries[j]).id != id,
        {
            if self.entries[i].id == id {
                assert(self@.entries[i as int].id == id);
                return true;
            }
        }
        false
    }

    /// Whether some candidate has this id.
    fn knows_candidate(&self, id: i64) -> (r: bool)
        ensures
            r == has_candidate(self@.candidates, id),
    {
        for i in 0..self.candidates.len()
            invariant
                forall|j: int| 0 <= j < i ==> (#[trigger] self@.candidates[j]).id != id,
        {
            if self.candidates[i].id == id {
                assert(self@.candidates[i as int].id == id);
                return true;
            }
        }
        false
    }

    /// Whether a live entry has this identity.
    fn knows_live(&self, repo: &str, base: &str, branch: &str, sha: &str) -> (r: bool)
        ensures
            r == (exists|i: int|
                0 <= i < self@.entries.len() && (#[trigger] self@.entries[i]).state.live()
                    && self@.entries[i].repo_path == repo@ && self@.entries[i].base_branch == base@
                    && self@.entries[i].branch == branch@ && self@.entries[i].branch_sha == sha@),
    {
        for i in 0..self.entries.len()
            invariant
                forall|j: int|
                    0 <= j < i ==> !((#[trigger] self@.entries[j]).state.live()
                        && self@.entries[j].repo_path == repo@ && self@.entries[j].base_branch
                        == base@ && self@.entries[j].branch == branch@
                        && self@.entries[j].branch_sha == sha@),
        {
            let row = &self.entries[i];
            let alive = !row.state.is_terminal();
            if alive && text::same(&row.repo_path, repo) && text::same(&row.base_branch, base)
                && text::same(&row.branch, branch) && text::same(&row.branch_sha, sha) {
                assert(self@.entries[i as int].state.live());
                return true;
            }
        }
        false
    }

    /// Put a row at the end of the entry table. A live entry may have no live
    /// double.
    pub fn insert_entry(&mut self, row: EntryRow) -> (r: Result<(), StoreError>)
        requires
            old(self)@.wf(),
        ensures
            final(self)@.wf(),
            match r {
                Ok(_) => {
                    &&& row.id >= old(self)@.next_entry_id()
                    &&& row.state.live() ==> !old(self)@.has_live_twin(row@)
                    &&& final(self)@ == old(self)@.with_entry(row@)
                },
                Err(StoreError::OutOfOrder { id }) => {
                    &&& id == row.id
                    &&& row.id < old(self)@.next_entry_id()
                    &&& final(self)@ == old(self)@
                },
                Err(StoreError::AlreadyLive { branch }) => {
                    &&& branch@ == row.branch@
                    &&& row.id >= old(self)@.next_entry_id()
                    &&& row.state.live() && old(self)@.has_live_twin(row@)
                    &&& final(self)@ == old(self)@
                },
                Err(_) => false,
            },
    {
        match self.next_entry_id() {
            Some(next) => {
                if row.id < next {
                    return Err(StoreError::OutOfOrder { id: row.id });
                }
            },
            None => {
                return Err(StoreError::OutOfOrder { id: row.id });
            },
        }
        let alive = !row.state.is_terminal();
        let ghost record = row@;
        let ghost before = self@;
        if alive && self.knows_live(&row.repo_path, &row.base_branch, &row.branch, &row.branch_sha) {
            proof {
                let i = choose|i: int|
                    0 <= i < self@.entries.len() && (#[trigger] self@.entries[i]).state.live()
                        && self@.entries[i].repo_path == row.repo_path@
                        && self@.entries[i].base_branch == row.base_branch@
                        && self@.entries[i].branch == row.branch@ && self@.entries[i].branch_sha
                        == row.branch_sha@;
                assert(self@.entries[i].same_identity(record));
            }
            return Err(StoreError::AlreadyLive { branch: row.branch });
        }
        self.entries.push(row);
        proof {
            assert(self@ =~= before.with_entry(record));
            with_entry_wf(before, record);
        }
        Ok(())
    }

    /// Put a row at the end of the candidate table. A candidate that is gated or
    /// landed has to name its commit.
    pub fn insert_candidate(&mut self, row: CandidateRow) -> (r: Result<(), StoreError>)
        requires
            old(self)@.wf(),
        ensures
            final(self)@.wf(),
            match r {
                Ok(_) => {
                    &&& row.id >= old(self)@.next_candidate_id()
                    &&& row.state.names_commit() ==> row.candidate_sha is Some
                    &&& final(self)@ == (Ledger {
                        candidates: old(self)@.candidates.push(row@),
                        ..old(self)@
                    })
                },
                Err(StoreError::OutOfOrder { id }) => {
                    &&& id == row.id
                    &&& row.id < old(self)@.next_candidate_id()
                    &&& final(self)@ == old(self)@
                },
                Err(StoreError::NoCommit { id }) => {
                    &&& id == row.id
                    &&& row.id >= old(self)@.next_candidate_id()
                    &&& row.state.names_commit() && row.candidate_sha is None
                    &&& final(self)@ == old(self)@
                },
                Err(_) => false,
            },
    {
        match self.next_candidate_id() {
            Some(next) => {
                if row.id < next {
                    return Err(StoreError::OutOfOrder { id: row.id });
                }
            },
            None => {
                return Err(StoreError::OutOfOrder { id: row.id });
            },
        }
        let needs_commit = row.state == CandidateState::Testing || row.state
            == CandidateState::Passed;
        if needs_commit && row.candidate_sha.is_none() {
            return Err(StoreError::NoCommit { id: row.id });
        }
        let ghost record = row@;
        let ghost before = self@;
        self.candidates.push(row);
        proof {
            let after = Ledger { candidates: before.candidates.push(record), ..before };
            assert(self@ =~= after);
            with_new_candidate_wf(before, after, record);
        }
        Ok(())
    }

    /// Put an entry in a candidate.
    pub fn insert_member(&mut self, member: Member) -> (r: Result<(), StoreError>)
        requires
            old(self)@.wf(),
        ensures
            final(self)@.wf(),
            match r {
                Ok(_) => {
                    &&& has_candidate(old(self)@.candidates, member.candidate_id)
                    &&& has_entry(old(self)@.entries, member.entry_id)
                    &&& !old(self)@.member(member.candidate_id, member.entry_id)
                    &&& final(self)@ == (Ledger {
                        members: old(self)@.members.push(member),
                        ..old(self)@
                    })
                },
                Err(StoreError::UnknownCandidate { id }) => {
                    &&& id == member.candidate_id
                    &&& !has_candidate(old(self)@.candidates, id)
                    &&& final(self)@ == old(self)@
                },
                Err(StoreError::UnknownEntry { id }) => {
                    &&& id == member.entry_id
                    &&& has_candidate(old(self)@.candidates, member.candidate_id)
                    &&& !has_entry(old(self)@.entries, id)
                    &&& final(self)@ == old(self)@
                },
                Err(StoreError::RepeatedEntry { id }) => {
                    &&& id == member.entry_id
                    &&& has_candidate(old(self)@.candidates, member.candidate_id)
                    &&& has_entry(old(self)@.entries, id)
                    &&& old(self)@.member(member.candidate_id, id)
                    &&& final(self)@ == old(self)@
                },
                Err(_) => false,
            },
    {
        if !self.knows_candidate(member.candidate_id) {
            return Err(StoreError::UnknownCandidate { id: member.candidate_id });
        }
        if !self.knows_entry(member.entry_id) {
            return Err(StoreError::UnknownEntry { id: member.entry_id });
        }
        if lists(&self.members, member.candidate_id, member.entry_id) {
            return Err(StoreError::RepeatedEntry { id: member.entry_id });
        }
        let ghost before = self@;
        self.members.push(member);
        proof {
            assert(self@ =~= Ledger { members: before.members.push(member), ..before });
            assert forall|i: int, j: int|
                0 <= i < j < self@.members.len() && (#[trigger] self@.members[i]).candidate_id == (
                #[trigger] self@.members[j]).candidate_id implies self@.members[i].entry_id
                != self@.members[j].entry_id by {
                if j == before.members.len() {
                    assert(before.members[i].candidate_id == member.candidate_id);
                }
            }
        }
        Ok(())
    }

    /// Put a row at the end of the run table.
    pub fn insert_run(&mut self, row: RunRow) -> (r: Result<(), StoreError>)
        requires
            old(self)@.wf(),
        ensures
            final(self)@.wf(),
            match r {
                Ok(_) => {
                    &&& row.id >= old(self)@.next_run_id()
                    &&& has_candidate(old(self)@.candidates, row.candidate_id)
                    &&& final(self)@ == (Ledger { runs: old(self)@.runs.push(row@), ..old(self)@ })
                },
                Err(StoreError::OutOfOrder { id }) => {
                    &&& id == row.id
                    &&& row.id < old(self)@.next_run_id()
                    &&& final(self)@ == old(self)@
                },
                Err(StoreError::UnknownCandidate { id }) => {
                    &&& id == row.candidate_id
                    &&& row.id >= old(self)@.next_run_id()
                    &&& !has_candidate(old(self)@.candidates, id)
                    &&& final(self)@ == old(self)@
                },
                Err(_) => false,
            },
    {
        match self.next_run_id() {
            Some(next) => {
                if row.id < next {
                    return Err(StoreError::OutOfOrder { id: row.id });
                }
            },
            None => {
                return Err(StoreError::OutOfOrder { id: row.id });
            },
        }
        if !self.knows_candidate(row.candidate_id) {
            return Err(StoreError::UnknownCandidate { id: row.candidate_id });
        }
        let ghost record = row@;
        let ghost before = self@;
        self.runs.push(row);
        proof {
            assert(self@ =~= Ledger { runs: before.runs.push(record), ..before });
        }
        Ok(())
    }

    /// Put a row at the end of the lease table. A base branch has one lease.
    pub fn insert_lease(&mut self, row: LeaseRow) -> (r: Result<(), StoreError>)
        requires
            old(self)@.wf(),
        ensures
            final(self)@.wf(),
            match r {
                Ok(_) => {
                    &&& old(self)@.lease(row@.repo_path, row@.base_branch) is None
                    &&& final(self)@ == old(self)@.with_lease(row@)
                },
                Err(StoreError::AlreadyLeased) => {
                    &&& old(self)@.lease(row@.repo_path, row@.base_branch) is Some
                    &&& final(self)@ == old(self)@
                },
                Err(_) => false,
            },
    {
        if self.lease_on(&row.repo_path, &row.base_branch).is_some() {
            return Err(StoreError::AlreadyLeased);
        }
        let ghost record = row@;
        let ghost before = self@;
        proof {
            lease_found_is_there(before.leases, record.repo_path, record.base_branch);
        }
        self.leases.push(row);
        proof {
            assert(self@ =~= before.with_lease(record));
        }
        Ok(())
    }

    /// The lease on a base branch, if there is one.
    pub fn lease_on(&self, repo: &str, base: &str) -> (r: Option<&LeaseRow>)
        ensures
            match r {
                Some(row) => self@.lease(repo@, base@) == Some(row@),
                None => self@.lease(repo@, base@) is None,
            },
    {
        let mut i: usize = self.leases.len();
        assert(self@.leases.take(i as int) =~= self@.leases);
        while i > 0
            invariant
                i <= self.leases.len(),
                self@.leases.len() == self.leases.len(),
                self@.lease(repo@, base@) == crate::queue::ledger::find_lease(
                    self@.leases.take(i as int),
                    repo@,
                    base@,
                ),
            decreases i,
        {
            i = i - 1;
            let row = &self.leases[i];
            assert(self@.leases.take(i + 1).drop_last() =~= self@.leases.take(i as int));
            assert(self@.leases.take(i + 1).last() == row@);
            if text::same(&row.repo_path, repo) && text::same(&row.base_branch, base) {
                return Some(row);
            }
        }
        None
    }

    /// Add a branch to the queue.
    pub fn enqueue(
        &mut self,
        repo: &str,
        base: &str,
        branch: &str,
        branch_sha: &Sha,
        now: &Timestamp,
    ) -> (r: Result<EntryId, StoreError>)
        requires
            old(self)@.wf(),
        ensures
            final(self)@.wf(),
            ({
                let entry = old(self)@.queued_entry(
                    repo@,
                    base@,
                    branch@,
                    branch_sha@,
                    written(now@),
                );
                match r {
                    Ok(id) => {
                        &&& id == old(self)@.next_entry_id()
                        &&& !old(self)@.has_live_twin(entry)
                        &&& final(self)@ == old(self)@.with_entry(entry)
                    },
                    Err(StoreError::AlreadyLive { branch: given }) => {
                        &&& given@ == branch@
                        &&& old(self)@.next_entry_id() <= i64::MAX
                        &&& old(self)@.has_live_twin(entry)
                        &&& final(self)@ == old(self)@
                    },
                    Err(StoreError::OutOfNumbers) => {
                        &&& old(self)@.next_entry_id() > i64::MAX
                        &&& final(self)@ == old(self)@
                    },
                    Err(_) => false,
                }
            }),
    {
        let id: EntryId = match self.next_entry_id() {
            Some(id) => id,
            None => {
                return Err(StoreError::OutOfNumbers);
            },
        };
        let at = now.to_rfc3339();
        let row = EntryRow {
            id,
            repo_path: repo.to_string(),
            base_branch: base.to_string(),
            branch: branch.to_string(),
            branch_sha: branch_sha.as_str().to_string(),
            state: EntryState::Queued,
            attempts: 0,
            priority: 0,
            evict_reason: None,
            enqueued_at: at.clone(),
            updated_at: at,
        };
        match self.insert_entry(row) {
            Ok(_) => Ok(id),
            Err(e) => Err(e),
        }
    }

    /// Abandon a candidate without blaming anything in it, returning its entries
    /// to the queue.
    ///
    /// Their outcomes stay pending, because no verdict was reached, and so no
    /// part of anyone's retry budget is spent.
    pub fn abandon(&mut self, candidate: i64, state: CandidateState, now: &Timestamp) -> (r: Result<
        usize,
        StoreError,
    >)
        requires
            old(self)@.wf(),
        ensures
            final(self)@.wf(),
            abandon_gives(old(self)@, candidate, state, written(now@), r, final(self)@),
    {
        match state {
            CandidateState::Superseded => {},
            CandidateState::Failed => {},
            _ => {
                return Err(StoreError::NotAbandonment { state });
            },
        }
        let at = now.to_rfc3339();
        let ghost before = self@;
        let held = self.mark_held(candidate);
        let requeued = count_marks(&held);
        proof {
            marks_count(held@, before.entries, |e: EntryRecord| before.held_by(candidate, e));
        }
        move_entries(&mut self.entries, &held, EntryState::Queued, &at);
        let this = self.mark_candidate(candidate);
        move_candidates(&mut self.candidates, &this, state, &at);
        proof {
            let after = before.abandoned(candidate, state, at@);
            assert(self@.entries =~= after.entries);
            assert(self@.candidates =~= after.candidates);
            assert(self@ =~= after);
            same_rows_wf(before, after);
        }
        Ok(requeued)
    }

    /// Record the commit that was assembled, and that it is now being gated.
    pub fn mark_testing(&mut self, candidate: i64, sha: &Sha, now: &Timestamp) -> (r: Result<
        (),
        StoreError,
    >)
        requires
            old(self)@.wf(),
        ensures
            final(self)@.wf(),
            mark_testing_gives(old(self)@, candidate, sha@, written(now@), r, final(self)@),
    {
        self.set_candidate(candidate, CandidateState::Testing, Some(sha), now)
    }

    /// Put a candidate in a state, with its commit where one is given.
    pub fn set_candidate(
        &mut self,
        candidate: i64,
        state: CandidateState,
        sha: Option<&Sha>,
        now: &Timestamp,
    ) -> (r: Result<(), StoreError>)
        requires
            old(self)@.wf(),
        ensures
            final(self)@.wf(),
            match r {
                Ok(_) => {
                    &&& has_candidate(old(self)@.candidates, candidate)
                    &&& state.names_commit() && sha is None ==> !old(self)@.lacks_commit(candidate)
                    &&& final(self)@ == old(self)@.with_candidate(
                        candidate,
                        state,
                        match sha {
                            Some(sha) => Some(sha@),
                            None => None,
                        },
                        written(now@),
                    )
                },
                Err(StoreError::NothingToMove { id, state: given }) => {
                    &&& id == candidate && given == state
                    &&& !has_candidate(old(self)@.candidates, candidate)
                    &&& final(self)@ == old(self)@
                },
                Err(StoreError::NoCommit { id }) => {
                    &&& id == candidate
                    &&& state.names_commit() && sha is None
                    &&& old(self)@.lacks_commit(candidate)
                    &&& final(self)@ == old(self)@
                },
                Err(_) => false,
            },
    {
        if !self.knows_candidate(candidate) {
            return Err(StoreError::NothingToMove { id: candidate, state });
        }
        let needs_commit = state == CandidateState::Testing || state == CandidateState::Passed;
        if needs_commit && sha.is_none() && self.without_commit(candidate) {
            return Err(StoreError::NoCommit { id: candidate });
        }
        let at = now.to_rfc3339();
        let ghost before = self@;
        let this = self.mark_candidate(candidate);
        move_candidates(&mut self.candidates, &this, state, &at);
        let ghost moved = candidate_records(self.candidates@);
        match sha {
            Some(sha) => {
                name_commit(&mut self.candidates, &this, sha.as_str());
            },
            None => {},
        }
        proof {
            let named = match sha {
                Some(sha) => Some(sha@),
                None => None,
            };
            let after = before.with_candidate(candidate, state, named, at@);
            assert forall|i: int| 0 <= i < moved.len() implies #[trigger] moved[i] == (if this@[i] {
                before.candidates[i].moved(state, at@)
            } else {
                before.candidates[i]
            }) by {}
            assert forall|i: int| 0 <= i < moved.len() implies #[trigger] self@.candidates[i]
                == after.candidates[i] by {
                assert(moved[i] == (if this@[i] {
                    before.candidates[i].moved(state, at@)
                } else {
                    before.candidates[i]
                }));
            }
            assert(self@.candidates =~= after.candidates);
            assert(self@ =~= after);
            same_rows_wf(before, after);
        }
        Ok(())
    }

    /// Record one execution of the merge gate. The log outlives this row.
    pub fn record_run(
        &mut self,
        candidate: i64,
        command: &str,
        exit_code: Option<i32>,
        log_path: &str,
        now: &Timestamp,
    ) -> (r: Result<(), StoreError>)
        requires
            old(self)@.wf(),
        ensures
            final(self)@.wf(),
            record_run_gives(
                old(self)@,
                candidate,
                command@,
                exit_code,
                log_path@,
                written(now@),
                r,
                final(self)@,
            ),
    {
        let id: i64 = match self.next_run_id() {
            Some(id) => id,
            None => {
                return Err(StoreError::OutOfNumbers);
            },
        };
        let at = now.to_rfc3339();
        let row = RunRow {
            id,
            candidate_id: candidate,
            command: command.to_string(),
            exit_code,
            log_path: Some(log_path.to_string()),
            tail: None,
            started_at: at.clone(),
            finished_at: Some(at),
        };
        self.insert_run(row)
    }

    /// The candidate passed and its commit is now the base. Everything in it
    /// landed.
    pub fn land(&mut self, candidate: i64, now: &Timestamp) -> (r: Result<usize, StoreError>)
        requires
            old(self)@.wf(),
        ensures
            final(self)@.wf(),
            land_gives(old(self)@, candidate, written(now@), r, final(self)@),
    {
        if self.without_commit(candidate) {
            return Err(StoreError::NoCommit { id: candidate });
        }
        let at = now.to_rfc3339();
        let ghost before = self@;
        let mut inside: Vec<bool> = Vec::new();
        for i in 0..self.entries.len()
            invariant
                self@ == before,
                inside@.len() == i,
                forall|j: int|
                    0 <= j < i ==> #[trigger] inside@[j] == before.member(
                        candidate,
                        before.entries[j].id,
                    ),
        {
            inside.push(lists(&self.members, candidate, self.entries[i].id));
        }
        move_entries(&mut self.entries, &inside, EntryState::Merged, &at);
        let mut landed: Vec<bool> = Vec::new();
        for i in 0..self.members.len()
            invariant
                landed@.len() == i,
                self.members@ == before.members,
                forall|j: int|
                    0 <= j < i ==> #[trigger] landed@[j] == (before.members[j].candidate_id
                        == candidate),
        {
            landed.push(self.members[i].candidate_id == candidate);
        }
        let count = count_marks(&landed);
        proof {
            marks_count(landed@, before.members, |m: Member| m.candidate_id == candidate);
        }
        for i in 0..landed.len()
            invariant
                landed@.len() == before.members.len(),
                self.members@.len() == before.members.len(),
                self.entries == self.entries,
                entry_records(self.entries@) == before.landed(candidate, at@).entries,
                candidate_records(self.candidates@) == before.candidates,
                run_records(self.runs@) == before.runs,
                lease_records(self.leases@) == before.leases,
                forall|j: int|
                    0 <= j < landed@.len() ==> #[trigger] landed@[j] == (
                    before.members[j].candidate_id == candidate),
                forall|j: int|
                    0 <= j < i ==> #[trigger] self.members@[j] == before.landed(
                        candidate,
                        at@,
                    ).members[j],
                forall|j: int|
                    i <= j < before.members.len() ==> #[trigger] self.members@[j]
                        == before.members[j],
        {
            if landed[i] {
                self.members[i].outcome = Outcome::Passed;
            }
        }
        let this = self.mark_candidate(candidate);
        move_candidates(&mut self.candidates, &this, CandidateState::Passed, &at);
        proof {
            let after = before.landed(candidate, at@);
            assert(self@.members =~= after.members);
            assert(self@.candidates =~= after.candidates);
            assert(self@ =~= after);
            assert forall|i: int|
                0 <= i < after.candidates.len() && (
                #[trigger] after.candidates[i]).state.names_commit() implies after.candidates[i].candidate_sha is Some by {
                assert(before.candidates[i].id == after.candidates[i].id);
            }
            same_rows_wf(before, after);
        }
        Ok(count)
    }

    /// Pin a failed candidate on one entry.
    ///
    /// The culprit spends an attempt and is evicted once its budget is gone.
    /// Everything else in the candidate is marked skipped and requeued, spending
    /// nothing: they were never gated on their own, so a flaky neighbour must
    /// not cost them anything.
    pub fn blame(
        &mut self,
        candidate: i64,
        culprit: EntryId,
        max_attempts: u32,
        reason: &str,
        now: &Timestamp,
    ) -> (r: Result<Blame, StoreError>)
        requires
            old(self)@.wf(),
        ensures
            final(self)@.wf(),
            blame_gives(
                old(self)@,
                candidate,
                culprit,
                max_attempts,
                reason@,
                written(now@),
                r,
                final(self)@,
            ),
    {
        let at_row: usize = match self.entry_index(culprit) {
            Some(i) => i,
            None => {
                return Err(StoreError::UnknownEntry { id: culprit });
            },
        };
        let ghost before = self@;
        let ghost entry = before.entries[at_row as int];
        let attempts: u32 = self.entries[at_row].attempts;
        if attempts == u32::MAX {
            return Err(StoreError::AttemptsOverflow { id: culprit });
        }
        let spent: u32 = attempts + 1;
        let verdict = if spent >= max_attempts {
            Blame::Evicted
        } else {
            Blame::Requeued
        };
        let row = &self.entries[at_row];
        if verdict == Blame::Requeued && row.state.is_terminal() && self.knows_live(
            &row.repo_path,
            &row.base_branch,
            &row.branch,
            &row.branch_sha,
        ) {
            proof {
                let i = choose|i: int|
                    0 <= i < before.entries.len() && (#[trigger] before.entries[i]).state.live()
                        && before.entries[i].repo_path == entry.repo_path
                        && before.entries[i].base_branch == entry.base_branch
                        && before.entries[i].branch == entry.branch && before.entries[i].branch_sha
                        == entry.branch_sha;
                assert(before.entries[i].same_identity(entry));
            }
            return Err(StoreError::AlreadyLive { branch: row.branch.clone() });
        }
        proof {
            if verdict == Blame::Requeued && entry.state.terminal() {
                if before.has_live_twin(entry) {
                    let i = choose|i: int|
                        0 <= i < before.entries.len() && (#[trigger] before.entries[i]).state.live()
                            && before.entries[i].same_identity(entry);
                    assert(false);
                }
            }
            blamed_wf(
                before,
                candidate,
                at_row as int,
                spent,
                verdict == Blame::Evicted,
                reason@,
                written(now@),
            );
        }
        let at = now.to_rfc3339();
        self.charge(candidate, at_row, spent, verdict == Blame::Evicted, reason, &at);
        Ok(verdict)
    }

    /// Carry out a blame whose verdict is known.
    fn charge(
        &mut self,
        candidate: i64,
        at_row: usize,
        spent: u32,
        evicted: bool,
        reason: &str,
        at: &String,
    )
        requires
            old(self)@.wf(),
            at_row < old(self)@.entries.len(),
        ensures
            final(self)@ == old(self)@.blamed(
                candidate,
                old(self)@.entries[at_row as int].id,
                spent,
                evicted,
                reason@,
                at@,
            ),
    {
        let ghost before = self@;
        let ghost entry = before.entries[at_row as int];
        let culprit: EntryId = self.entries[at_row].id;
        let ghost after = before.blamed(candidate, culprit, spent, evicted, reason@, at@);
        let mut held = self.mark_held(candidate);
        held.set(at_row, false);
        self.pin(candidate, culprit);
        move_entries(&mut self.entries, &held, EntryState::Queued, at);
        let ghost moved = entry_records(self.entries@);
        assert(moved[at_row as int] == entry);
        let mut row = self.entries.remove(at_row);
        row.attempts = spent;
        row.updated_at = at.clone();
        if evicted {
            row.state = EntryState::Evicted;
            row.evict_reason = Some(reason.to_string());
        } else {
            row.state = EntryState::Queued;
        }
        assert(row@ == after.entries[at_row as int]);
        self.entries.insert(at_row, row);
        assert forall|i: int| 0 <= i < before.entries.len() implies #[trigger] self@.entries[i]
            == after.entries[i] by {
            if i != at_row {
                assert(self@.entries[i] == moved[i]);
                if i < at_row {
                    assert(before.entries[i].id < before.entries[at_row as int].id);
                } else {
                    assert(before.entries[at_row as int].id < before.entries[i].id);
                }
            }
        }
        assert(self@.entries =~= after.entries);
        let this = self.mark_candidate(candidate);
        move_candidates(&mut self.candidates, &this, CandidateState::Failed, at);
        assert(self@.candidates =~= after.candidates);
        assert(self@ =~= after);
    }

    /// The verdicts on a candidate's members: one is the culprit, the others were
    /// never gated on their own.
    fn pin(&mut self, candidate: i64, culprit: EntryId)
        ensures
            final(self)@ == (Ledger {
                members: old(self)@.members.map_values(
                    |m: Member|
                        if m.candidate_id != candidate {
                            m
                        } else if m.entry_id == culprit {
                            Member { outcome: Outcome::Culprit, ..m }
                        } else {
                            Member { outcome: Outcome::Skipped, ..m }
                        },
                ),
                ..old(self)@
            }),
    {
        let ghost before = self@;
        let ghost verdict = |m: Member|
            if m.candidate_id != candidate {
                m
            } else if m.entry_id == culprit {
                Member { outcome: Outcome::Culprit, ..m }
            } else {
                Member { outcome: Outcome::Skipped, ..m }
            };
        let count: usize = self.members.len();
        for i in 0..count
            invariant
                count == before.members.len(),
                self@ == (Ledger { members: self.members@, ..before }),
                self.members@.len() == before.members.len(),
                forall|j: int| 0 <= j < i ==> #[trigger] self.members@[j] == verdict(before.members[j]),
                forall|j: int|
                    i <= j < before.members.len() ==> #[trigger] self.members@[j]
                        == before.members[j],
                verdict == (|m: Member|
                    if m.candidate_id != candidate {
                        m
                    } else if m.entry_id == culprit {
                        Member { outcome: Outcome::Culprit, ..m }
                    } else {
                        Member { outcome: Outcome::Skipped, ..m }
                    }),
        {
            if self.members[i].candidate_id == candidate {
                if self.members[i].entry_id == culprit {
                    self.members[i].outcome = Outcome::Culprit;
                } else {
                    self.members[i].outcome = Outcome::Skipped;
                }
            }
        }
        assert(self.members@ =~= before.members.map_values(verdict));
    }

    /// Where the row of an entry stands.
    fn entry_index(&self, id: EntryId) -> (r: Option<usize>)
        requires
            self@.wf(),
        ensures
            match r {
                Some(i) => {
                    &&& 0 <= i < self@.entries.len()
                    &&& self@.entries[i as int].id == id
                    &&& self@.entry(id) == Some(self@.entries[i as int])
                },
                None => self@.entry(id) is None && !has_entry(self@.entries, id),
            },
            self.entries.len() == self@.entries.len(),
    {
        for i in 0..self.entries.len()
            invariant
                self@.wf(),
                forall|j: int| 0 <= j < i ==> (#[trigger] self@.entries[j]).id != id,
        {
            if self.entries[i].id == id {
                proof {
                    entry_is_found(self@.entries, i as int);
                }
                return Some(i);
            }
        }
        proof {
            entry_found_is_there(self@.entries, id);
        }
        None
    }

    /// Open a candidate over these entries, moving them out of the queue.
    ///
    /// `parent` records the candidate this one was split from, so a bisection's
    /// lineage is recoverable.
    pub fn open_candidate(
        &mut self,
        repo: &str,
        base: &str,
        base_sha: &Sha,
        entries: &Vec<Entry>,
        parent: Option<i64>,
        now: &Timestamp,
    ) -> (r: Result<i64, StoreError>)
        requires
            old(self)@.wf(),
        ensures
            final(self)@.wf(),
            open_gives(
                old(self)@,
                repo@,
                base@,
                base_sha@,
                entry_views(entries@),
                parent,
                written(now@),
                r,
                final(self)@,
            ),
    {
        if entries.len() == 0 {
            return Err(StoreError::NoEntries);
        }
        if entries.len() as u64 > 0x7fff_ffff_ffff_ffff {
            return Err(StoreError::OutOfNumbers);
        }
        let id: i64 = match self.next_candidate_id() {
            Some(id) => id,
            None => {
                return Err(StoreError::OutOfNumbers);
            },
        };
        let ghost listed = ids(entry_views(entries@));
        let mut list: Vec<EntryId> = Vec::new();
        for i in 0..entries.len()
            invariant
                self@ == old(self)@,
                old(self)@.wf(),
                old(self)@.next_candidate_id() <= i64::MAX,
                entries@.len() <= i64::MAX,
                listed == ids(entry_views(entries@)),
                list@ == listed.take(i as int),
                list@.no_duplicates(),
                forall|j: int|
                    0 <= j < list@.len() ==> has_entry(self@.entries, #[trigger] list@[j]),
        {
            let entry: EntryId = entries[i].id;
            assert(listed[i as int] == entry);
            if !self.knows_entry(entry) {
                assert(reads_to(self@, listed, i as int, entry));
                return Err(StoreError::UnknownEntry { id: entry });
            }
            if holds_id(&list, entry) {
                assert(reads_to(self@, listed, i as int, entry));
                return Err(StoreError::RepeatedEntry { id: entry });
            }
            list.push(entry);
            assert(list@ =~= listed.take(i + 1));
        }
        assert(list@ =~= listed);
        let at = now.to_rfc3339();
        let ghost before = self@;
        let ghost after = before.opened(repo@, base@, base_sha@, listed, parent, at@);
        let mut inside: Vec<bool> = Vec::new();
        for i in 0..self.entries.len()
            invariant
                self@ == before,
                list@ == listed,
                inside@.len() == i,
                forall|j: int|
                    0 <= j < i ==> #[trigger] inside@[j] == listed.contains(before.entries[j].id),
        {
            inside.push(holds_id(&list, self.entries[i].id));
        }
        match self.double_among(&inside) {
            Some(branch) => {
                proof {
                    let (i, j) = choose|i: int, j: int|
                        0 <= i < j < before.entries.len() && #[trigger] would_live(
                            before.entries,
                            inside@,
                            i,
                        ) && #[trigger] would_live(before.entries, inside@, j)
                            && before.entries[i].same_identity(before.entries[j])
                            && before.entries[i].branch == branch@;
                    assert(after.entries[i].state.live() && after.entries[j].state.live());
                    assert(after.entries[i].same_identity(after.entries[j]));
                }
                return Err(StoreError::AlreadyLive { branch });
            },
            None => {},
        }
        proof {
            assert forall|i: int, j: int|
                0 <= i < after.entries.len() && 0 <= j < after.entries.len() && i != j
                    && #[trigger] after.entries[i].state.live()
                    && #[trigger] after.entries[j].state.live() implies !after.entries[i].same_identity(
                after.entries[j],
            ) by {
                assert(would_live(before.entries, inside@, i));
                assert(would_live(before.entries, inside@, j));
            }
            opened_wf(before, repo@, base@, base_sha@, listed, parent, at@);
        }
        move_entries(&mut self.entries, &inside, EntryState::Batched, &at);
        self.candidates.push(
            CandidateRow {
                id,
                repo_path: repo.to_string(),
                base_branch: base.to_string(),
                base_sha: base_sha.as_str().to_string(),
                candidate_sha: None,
                state: CandidateState::Building,
                parent_id: parent,
                created_at: at.clone(),
                updated_at: at,
            },
        );
        self.list_members(id, &list);
        proof {
            assert(self@.entries =~= after.entries);
            assert(self@.candidates =~= after.candidates);
            assert(self@.members =~= after.members);
            assert(self@ =~= after);
        }
        Ok(id)
    }

    /// Put entries in a candidate, in order and with no verdict yet.
    fn list_members(&mut self, candidate: i64, list: &Vec<EntryId>)
        requires
            list@.len() <= i64::MAX,
        ensures
            final(self)@ == (Ledger {
                members: old(self)@.members + Seq::new(
                    list@.len(),
                    |i: int|
                        Member {
                            candidate_id: candidate,
                            entry_id: list@[i],
                            position: i as i64,
                            outcome: Outcome::Pending,
                        },
                ),
                ..old(self)@
            }),
    {
        let ghost before = self@;
        let ghost new = Seq::new(
            list@.len(),
            |i: int|
                Member {
                    candidate_id: candidate,
                    entry_id: list@[i],
                    position: i as i64,
                    outcome: Outcome::Pending,
                },
        );
        for i in 0..list.len()
            invariant
                list@.len() <= i64::MAX,
                new == Seq::new(
                    list@.len(),
                    |i: int|
                        Member {
                            candidate_id: candidate,
                            entry_id: list@[i],
                            position: i as i64,
                            outcome: Outcome::Pending,
                        },
                ),
                self@ == (Ledger { members: before.members + new.take(i as int), ..before }),
        {
            self.members.push(
                Member {
                    candidate_id: candidate,
                    entry_id: list[i],
                    position: i as i64,
                    outcome: Outcome::Pending,
                },
            );
            assert(self@.members =~= before.members + new.take(i + 1));
            assert(self@ =~= Ledger { members: before.members + new.take(i + 1), ..before });
        }
        assert(new.take(list@.len() as int) =~= new);
    }

    /// The branch of two entries with one identity that would both be live if
    /// the marked entries were, where there are two.
    fn double_among(&self, marks: &Vec<bool>) -> (r: Option<String>)
        requires
            self@.wf(),
            marks@.len() == self@.entries.len(),
        ensures
            match r {
                Some(branch) => exists|i: int, j: int|
                    0 <= i < j < self@.entries.len() && #[trigger] would_live(
                        self@.entries,
                        marks@,
                        i,
                    ) && #[trigger] would_live(self@.entries, marks@, j)
                        && self@.entries[i].same_identity(self@.entries[j])
                        && self@.entries[i].branch == branch@,
                None => forall|i: int, j: int|
                    0 <= i < j < self@.entries.len() && #[trigger] would_live(
                        self@.entries,
                        marks@,
                        i,
                    ) && #[trigger] would_live(self@.entries, marks@, j)
                        ==> !self@.entries[i].same_identity(self@.entries[j]),
            },
    {
        for i in 0..self.entries.len()
            invariant
                self@.wf(),
                marks@.len() == self@.entries.len(),
                self.entries@.len() == self@.entries.len(),
                forall|a: int, b: int|
                    0 <= a < i && a < b < self@.entries.len() && #[trigger] would_live(
                        self@.entries,
                        marks@,
                        a,
                    ) && #[trigger] would_live(self@.entries, marks@, b)
                        ==> !self@.entries[a].same_identity(self@.entries[b]),
        {
            let row = &self.entries[i];
            let back = marks[i] && row.state.is_terminal();
            let alive = marks[i] || !row.state.is_terminal();
            if alive {
                for j in i + 1..self.entries.len()
                    invariant
                        i < self.entries@.len(),
                        self@.wf(),
                        marks@.len() == self@.entries.len(),
                        self.entries@.len() == self@.entries.len(),
                        row@ == self@.entries[i as int],
                        would_live(self@.entries, marks@, i as int),
                        back == (marks@[i as int] && row.state.terminal()),
                        forall|b: int|
                            i < b < j && #[trigger] would_live(self@.entries, marks@, b)
                                ==> !self@.entries[i as int].same_identity(self@.entries[b]),
                {
                    let other = &self.entries[j];
                    let other_back = marks[j] && other.state.is_terminal();
                    let other_alive = marks[j] || !other.state.is_terminal();
                    // Two entries that are live already are apart.
                    if other_alive && (back || other_back) && row.repo_path == other.repo_path
                        && row.base_branch == other.base_branch && row.branch == other.branch
                        && row.branch_sha == other.branch_sha {
                        assert(would_live(self@.entries, marks@, j as int));
                        assert(self@.entries[i as int].same_identity(self@.entries[j as int]));
                        return Some(row.branch.clone());
                    }
                    assert(self@.entries[j as int] == other@);
                    if other_alive && !back && !other_back {
                        assert(self@.entries[i as int].state.live()
                            && self@.entries[j as int].state.live());
                    }
                }
            }
        }
        None
    }

    /// Clear what a dead worker left mid-gate: how many candidates were
    /// superseded, and how many entries went back in line.
    pub fn supersede_orphans(&mut self, repo: &str, base: &str, now: &Timestamp) -> (r: (usize, usize))
        requires
            old(self)@.wf(),
        ensures
            final(self)@.wf(),
            r.0 == old(self)@.candidates.filter(
                |c: CandidateRecord| old(self)@.is_orphan(c, repo@, base@),
            ).len(),
            r.1 == old(self)@.entries.filter(
                |e: EntryRecord| old(self)@.is_stranded(e, repo@, base@),
            ).len(),
            final(self)@ == old(self)@.superseded(repo@, base@, written(now@)),
    {
        let at = now.to_rfc3339();
        let ghost before = self@;
        let mut orphans: Vec<bool> = Vec::new();
        for i in 0..self.candidates.len()
            invariant
                self@ == before,
                orphans@.len() == i,
                forall|j: int|
                    0 <= j < i ==> #[trigger] orphans@[j] == before.is_orphan(
                        before.candidates[j],
                        repo@,
                        base@,
                    ),
        {
            let row = &self.candidates[i];
            orphans.push(
                !row.state.is_terminal() && text::same(&row.repo_path, repo) && text::same(
                    &row.base_branch,
                    base,
                ),
            );
        }
        let mut stranded: Vec<bool> = Vec::new();
        for i in 0..self.entries.len()
            invariant
                self@ == before,
                orphans@.len() == before.candidates.len(),
                forall|j: int|
                    0 <= j < orphans@.len() ==> #[trigger] orphans@[j] == before.is_orphan(
                        before.candidates[j],
                        repo@,
                        base@,
                    ),
                stranded@.len() == i,
                forall|j: int|
                    0 <= j < i ==> #[trigger] stranded@[j] == before.is_stranded(
                        before.entries[j],
                        repo@,
                        base@,
                    ),
        {
            let batched = self.entries[i].state == EntryState::Batched;
            let inside = self.in_marked(&orphans, self.entries[i].id);
            proof {
                let e = before.entries[i as int];
                assert(inside ==> exists|c: int|
                    0 <= c < before.candidates.len() && before.is_orphan(
                        #[trigger] before.candidates[c],
                        repo@,
                        base@,
                    ) && before.member(before.candidates[c].id, e.id)) by {
                    if inside {
                        let c = choose|c: int|
                            0 <= c < orphans@.len() && #[trigger] orphans@[c] && before.member(
                                before.candidates[c].id,
                                e.id,
                            );
                        assert(before.is_orphan(before.candidates[c], repo@, base@));
                    }
                }
                if exists|c: int|
                    0 <= c < before.candidates.len() && before.is_orphan(
                        #[trigger] before.candidates[c],
                        repo@,
                        base@,
                    ) && before.member(before.candidates[c].id, e.id) {
                    let c = choose|c: int|
                        0 <= c < before.candidates.len() && before.is_orphan(
                            #[trigger] before.candidates[c],
                            repo@,
                            base@,
                        ) && before.member(before.candidates[c].id, e.id);
                    assert(orphans@[c]);
                }
            }
            stranded.push(batched && inside);
        }
        let superseded = count_marks(&orphans);
        let requeued = count_marks(&stranded);
        proof {
            marks_count(
                orphans@,
                before.candidates,
                |c: CandidateRecord| before.is_orphan(c, repo@, base@),
            );
            marks_count(
                stranded@,
                before.entries,
                |e: EntryRecord| before.is_stranded(e, repo@, base@),
            );
        }
        move_entries(&mut self.entries, &stranded, EntryState::Queued, &at);
        move_candidates(&mut self.candidates, &orphans, CandidateState::Superseded, &at);
        proof {
            let after = before.superseded(repo@, base@, at@);
            assert(self@.entries =~= after.entries);
            assert(self@.candidates =~= after.candidates);
            assert(self@ =~= after);
            same_rows_wf(before, after);
        }
        (superseded, requeued)
    }

    /// Whether an entry is listed in one of the marked candidates.
    fn in_marked(&self, marks: &Vec<bool>, entry: EntryId) -> (r: bool)
        requires
            marks@.len() == self@.candidates.len(),
        ensures
            r == (exists|c: int|
                0 <= c < marks@.len() && #[trigger] marks@[c] && self@.member(
                    self@.candidates[c].id,
                    entry,
                )),
    {
        for c in 0..marks.len()
            invariant
                marks@.len() == self@.candidates.len(),
                self.candidates@.len() == self@.candidates.len(),
                forall|k: int|
                    0 <= k < c ==> !(#[trigger] marks@[k] && self@.member(
                        self@.candidates[k].id,
                        entry,
                    )),
        {
            if marks[c] && lists(&self.members, self.candidates[c].id, entry) {
                assert(marks@[c as int] && self@.member(self@.candidates[c as int].id, entry));
                return true;
            }
        }
        false
    }

    /// Where the rows of one part of one queue stand, in the order of the part.
    fn section_rows(&self, repo: &str, base: &str, part: Section) -> (r: Vec<usize>)
        ensures
            picks(self@.entries, r@),
            picked(self@.entries, r@) == self@.section(repo@, base@, part),
    {
        let mut r: Vec<usize> = Vec::new();
        let ghost all = self@.entries;
        let ghost pred = |e: EntryRecord| e.in_queue(repo@, base@) && part.covers(e.state);
        let ghost before = |a: EntryRecord, b: EntryRecord| part.before(a, b);
        proof {
            reveal(Seq::filter);
            assert(picked(all, r@) =~= seqs::ordered(all.take(0).filter(pred), before));
        }
        for i in 0..self.entries.len()
            invariant
                all == self@.entries,
                all.len() == self.entries@.len(),
                pred == (|e: EntryRecord| e.in_queue(repo@, base@) && part.covers(e.state)),
                before == (|a: EntryRecord, b: EntryRecord| part.before(a, b)),
                picks(all, r@),
                picked(all, r@) == seqs::ordered(all.take(i as int).filter(pred), before),
        {
            let row = &self.entries[i];
            let ghost x = all[i as int];
            proof {
                seqs::filter_take(all, i as int, pred);
                seqs::ordered_push(all.take(i as int).filter(pred), x, before);
            }
            assert(x == row@);
            if covers(part, row.state) && text::same(&row.repo_path, repo) && text::same(
                &row.base_branch,
                base,
            ) {
                let ghost list = picked(all, r@);
                let mut k: usize = r.len();
                while k > 0 && self.comes_first(part, i, r[k - 1])
                    invariant
                        k <= r@.len(),
                        i < self.entries@.len(),
                        all == self@.entries,
                        all.len() == self.entries@.len(),
                        x == all[i as int],
                        before == (|a: EntryRecord, b: EntryRecord| part.before(a, b)),
                        picks(all, r@),
                        list == picked(all, r@),
                        forall|j: int| k <= j < list.len() ==> before(x, #[trigger] list[j]),
                    decreases k,
                {
                    k = k - 1;
                }
                proof {
                    seqs::inserted_at(list, x, before, k as int);
                }
                r.insert(k, i);
                assert(picked(all, r@) =~= list.insert(k as int, x));
            }
        }
        assert(all.take(all.len() as int) =~= all);
        r
    }

    /// Whether the entry in one row stands in front of the entry in another.
    fn comes_first(&self, part: Section, a: usize, b: usize) -> (r: bool)
        requires
            a < self@.entries.len(),
            b < self@.entries.len(),
        ensures
            r == part.before(self@.entries[a as int], self@.entries[b as int]),
    {
        let first = &self.entries[a];
        let second = &self.entries[b];
        assert(first@ == self@.entries[a as int] && second@ == self@.entries[b as int]);
        match part {
            Section::Waiting => first.priority > second.priority || (first.priority
                == second.priority && first.id < second.id),
            Section::Batched => first.id < second.id,
            Section::Settled => text::is_before(&second.updated_at, &first.updated_at) || (
            first.updated_at == second.updated_at && first.id > second.id),
        }
    }

    /// Read the entries in the given rows.
    fn read_entries(&self, rows: &Vec<usize>, limit: usize) -> (r: Result<Vec<Entry>, StoreError>)
        requires
            picks(self@.entries, rows@),
        ensures
            ({
                let list = picked(self@.entries, rows@);
                let front = if list.len() <= limit {
                    list
                } else {
                    list.take(limit as int)
                };
                match r {
                    Ok(entries) => all_full(front) && entry_views(entries@) == all_seen(front),
                    Err(e) => misreads(front, e),
                }
            }),
    {
        let ghost list = picked(self@.entries, rows@);
        let ghost front = if list.len() <= limit {
            list
        } else {
            list.take(limit as int)
        };
        let mut r: Vec<Entry> = Vec::new();
        let mut i: usize = 0;
        while i < rows.len() && i < limit
            invariant
                i <= rows@.len(),
                i <= limit || i == 0,
                i <= front.len(),
                picks(self@.entries, rows@),
                list == picked(self@.entries, rows@),
                front == (if list.len() <= limit {
                    list
                } else {
                    list.take(limit as int)
                }),
                all_full(front.take(i as int)),
                entry_views(r@) == all_seen(front.take(i as int)),
            decreases rows.len() - i,
        {
            assert(rows@[i as int] < self@.entries.len());
            let row = &self.entries[rows[i]];
            assert(front[i as int] == row@);
            match Sha::parse(&row.branch_sha) {
                Ok(branch_sha) => {
                    let entry = Entry {
                        id: row.id,
                        branch: row.branch.clone(),
                        branch_sha,
                        attempts: row.attempts,
                    };
                    assert(entry@ == front[i as int].seen());
                    let ghost read = r@;
                    r.push(entry);
                    assert(entry_views(r@) =~= entry_views(read).push(entry@));
                    assert(all_seen(front.take(i + 1)) =~= all_seen(front.take(i as int)).push(
                        front[i as int].seen(),
                    ));
                },
                Err(e) => {
                    let raw = e.raw;
                    assert(misread_at(front, i as int, raw@));
                    assert(misread(front, raw@));
                    return Err(StoreError::NotAnObjectId { raw });
                },
            }
            assert(front.take(i + 1) =~= front.take(i as int).push(front[i as int]));
            i = i + 1;
        }
        assert(front.take(i as int) =~= front);
        Ok(r)
    }

    /// The entries at the front of one queue, up to a limit.
    pub fn queued_entries(&self, repo: &str, base: &str, limit: usize) -> (r: Result<
        Vec<Entry>,
        StoreError,
    >)
        ensures
            ({
                let front = self@.front(repo@, base@, limit as nat);
                match r {
                    Ok(entries) => all_full(front) && entry_views(entries@) == all_seen(front),
                    Err(e) => misreads(front, e),
                }
            }),
    {
        let rows = self.section_rows(repo, base, Section::Waiting);
        self.read_entries(&rows, limit)
    }

    /// The next entries to try, oldest first within a priority.
    ///
    /// An entry with attempts already spent is never batched alongside one that
    /// has none. It has demonstrated that it fails on its own, so putting it
    /// back in a batch costs every innocent entry beside it a wasted gate run and
    /// a trip through bisection, over and over until its retry budget finally
    /// runs out. Such an entry is retried by itself instead, and a batch stops
    /// short of one rather than absorbing it.
    pub fn select_batch(&self, repo: &str, base: &str, limit: usize) -> (r: Result<
        Vec<Entry>,
        StoreError,
    >)
        ensures
            batch_gives(self@, repo@, base@, limit, r),
    {
        let ghost front = self@.front(repo@, base@, limit as nat);
        let mut queued: Vec<Entry> = match self.queued_entries(repo, base, limit) {
            Ok(queued) => queued,
            Err(e) => {
                return Err(e);
            },
        };
        let ghost all = entry_views(queued@);
        assert(all == all_seen(front));
        assert(all.len() == queued@.len());
        assert(all_seen(front).len() == front.len());
        if queued.len() == 0 {
            assert(all_seen(batch_of(front)) =~= all);
            return Ok(queued);
        }
        assert(all[0] == queued@[0]@ && all[0] == front[0].seen());
        if queued[0].attempts > 0 {
            // A retry goes alone.
            queued.truncate(1);
            assert(entry_views(queued@) =~= all_seen(front.take(1)));
            return Ok(queued);
        }
        // Otherwise batch the run of never-failed entries at the front.
        let mut n: usize = 0;
        assert(all.len() == front.len() && all.len() == queued@.len());
        while n < queued.len() && queued[n].attempts == 0
            invariant
                n <= queued@.len(),
                all == entry_views(queued@),
                all == all_seen(front),
                front.len() == queued@.len(),
                forall|i: int| 0 <= i < n ==> (#[trigger] front[i]).attempts == 0,
            decreases queued.len() - n,
        {
            assert(all[n as int] == queued@[n as int]@ && all[n as int] == front[n as int].seen());
            n = n + 1;
        }
        proof {
            if n < queued@.len() {
                assert(all[n as int] == queued@[n as int]@ && all[n as int]
                    == front[n as int].seen());
            }
            assert(all.len() == front.len());
            fresh_run_is(front, n as int);
        }
        let ghost whole = queued@;
        queued.truncate(n);
        assert forall|i: int| 0 <= i < n implies #[trigger] entry_views(queued@)[i] == front.take(
            n as int,
        )[i].seen() by {
            assert(queued@[i] == whole[i]);
            assert(all[i] == whole[i]@);
        }
        assert(entry_views(queued@) =~= all_seen(front.take(n as int)));
        Ok(queued)
    }

    /// The candidate the worker has not finished with, if there is one.
    ///
    /// At most one candidate per base branch is ever unfinished, which is what
    /// the worker lease guarantees.
    pub fn active_candidate(&self, repo: &str, base: &str) -> (r: Result<
        Option<Candidate>,
        StoreError,
    >)
        requires
            self@.wf(),
        ensures
            active_gives(self@, repo@, base@, r),
    {
        let ghost pred = |c: CandidateRecord| c.in_queue(repo@, base@) && c.state.active();
        for i in 0..self.candidates.len()
            invariant
                self@.wf(),
                pred == (|c: CandidateRecord| c.in_queue(repo@, base@) && c.state.active()),
                forall|j: int| 0 <= j < i ==> !pred(#[trigger] self@.candidates[j]),
        {
            let row = &self.candidates[i];
            assert(row@ == self@.candidates[i as int]);
            if !row.state.is_terminal() && text::same(&row.repo_path, repo) && text::same(
                &row.base_branch,
                base,
            ) {
                proof {
                    seqs::filter_first(self@.candidates, pred, i as int);
                }
                let base_sha: Sha = match Sha::parse(&row.base_sha) {
                    Ok(sha) => sha,
                    Err(e) => {
                        return Err(StoreError::NotAnObjectId { raw: e.raw });
                    },
                };
                let entries: Vec<Entry> = match self.candidate_entries(row.id) {
                    Ok(entries) => entries,
                    Err(e) => {
                        return Err(e);
                    },
                };
                return Ok(Some(Candidate { id: row.id, base_sha, entries }));
            }
        }
        proof {
            seqs::filter_none(self@.candidates, pred);
        }
        Ok(None)
    }

    /// The entries of a candidate, in merge order.
    pub fn candidate_entries(&self, candidate: i64) -> (r: Result<Vec<Entry>, StoreError>)
        requires
            self@.wf(),
        ensures
            ({
                let order = self@.merge_order(candidate);
                match r {
                    Ok(entries) => all_full(order) && entry_views(entries@) == all_seen(order),
                    Err(e) => misreads(order, e),
                }
            }),
    {
        let members = self.member_rows(candidate);
        let ghost listed = self@.members_of(candidate);
        let mut rows: Vec<usize> = Vec::new();
        for i in 0..members.len()
            invariant
                self@.wf(),
                listed == self@.members_of(candidate),
                members@.len() == listed.len(),
                forall|j: int|
                    0 <= j < members@.len() ==> (#[trigger] members@[j]) < self@.members.len()
                        && self@.members[members@[j] as int] == listed[j],
                rows@.len() == i,
                picks(self@.entries, rows@),
                forall|j: int|
                    0 <= j < i ==> self@.entries[#[trigger] rows@[j] as int] == self@.entry(
                        listed[j].entry_id,
                    )->0,
        {
            assert(members@[i as int] < self@.members.len());
            let entry: EntryId = self.members[members[i]].entry_id;
            assert(has_entry(self@.entries, self@.members[members@[i as int] as int].entry_id));
            match self.entry_index(entry) {
                Some(at) => {
                    rows.push(at);
                },
                None => {
                    assert(false);
                },
            }
        }
        assert(picked(self@.entries, rows@) =~= self@.merge_order(candidate));
        let count: usize = rows.len();
        self.read_entries(&rows, count)
    }

    /// Where the members of a candidate are listed, in merge order.
    fn member_rows(&self, candidate: i64) -> (r: Vec<usize>)
        ensures
            r@.len() == self@.members_of(candidate).len(),
            forall|i: int|
                0 <= i < r@.len() ==> (#[trigger] r@[i]) < self@.members.len()
                    && self@.members[r@[i] as int] == self@.members_of(candidate)[i],
    {
        let mut r: Vec<usize> = Vec::new();
        let ghost all = self@.members;
        let ghost pred = |m: Member| m.candidate_id == candidate;
        let ghost before = |a: Member, b: Member| a.position < b.position;
        let ghost list = Seq::<Member>::empty();
        proof {
            reveal(Seq::filter);
            assert(all.take(0).filter(pred) =~= Seq::<Member>::empty());
        }
        for i in 0..self.members.len()
            invariant
                all == self@.members,
                all == self.members@,
                pred == (|m: Member| m.candidate_id == candidate),
                before == (|a: Member, b: Member| a.position < b.position),
                list == seqs::ordered(all.take(i as int).filter(pred), before),
                r@.len() == list.len(),
                forall|j: int|
                    0 <= j < r@.len() ==> (#[trigger] r@[j]) < all.len() && all[r@[j] as int]
                        == list[j],
        {
            let ghost x = all[i as int];
            proof {
                seqs::filter_take(all, i as int, pred);
                seqs::ordered_push(all.take(i as int).filter(pred), x, before);
            }
            if self.members[i].candidate_id == candidate {
                let mut k: usize = r.len();
                let mut placed = false;
                while k > 0 && !placed
                    invariant
                        k <= r@.len(),
                        i < all.len(),
                        all == self.members@,
                        x == all[i as int],
                        before == (|a: Member, b: Member| a.position < b.position),
                        r@.len() == list.len(),
                        forall|j: int|
                            0 <= j < r@.len() ==> (#[trigger] r@[j]) < all.len()
                                && all[r@[j] as int] == list[j],
                        forall|j: int| k <= j < list.len() ==> before(x, #[trigger] list[j]),
                        placed ==> k > 0 && !before(x, list[k - 1]),
                    decreases k, (if placed { 0int } else { 1int }),
                {
                    let other: usize = r[k - 1];
                    assert(other < all.len() && all[other as int] == list[k - 1]);
                    if self.members[i].position < self.members[other].position {
                        k = k - 1;
                    } else {
                        placed = true;
                    }
                }
                proof {
                    seqs::inserted_at(list, x, before, k as int);
                    list = list.insert(k as int, x);
                }
                let ghost had = r@;
                r.insert(k, i);
                assert forall|j: int| 0 <= j < r@.len() implies (#[trigger] r@[j]) < all.len()
                    && all[r@[j] as int] == list[j] by {
                    if j < k {
                        assert(r@[j] == had[j]);
                    } else if j > k {
                        assert(r@[j] == had[j - 1]);
                    }
                }
            }
        }
        assert(all.take(all.len() as int) =~= all);
        r
    }

    /// Take the lease on a base branch away, whoever holds it.
    pub fn remove_lease(&mut self, repo: &str, base: &str)
        requires
            old(self)@.wf(),
        ensures
            final(self)@.wf(),
            final(self)@ == old(self)@.without_lease(repo@, base@),
            final(self)@.lease(repo@, base@) is None,
    {
        let ghost before = self@;
        let ghost pred = |l: LeaseRecord| !l.covers(repo@, base@);
        match self.lease_index(repo, base) {
            Some(i) => {
                proof {
                    assert forall|j: int| 0 <= j < before.leases.len() && j != i implies pred(
                        #[trigger] before.leases[j],
                    ) by {
                        if j < i {
                            assert(!before.leases[j].covers(repo@, base@));
                        } else {
                            assert(!before.leases[i as int].covers(
                                before.leases[j].repo_path,
                                before.leases[j].base_branch,
                            ));
                        }
                    }
                    seqs::filter_but_one(before.leases, pred, i as int);
                }
                let _ = self.leases.remove(i);
                assert(self@.leases =~= before.leases.remove(i as int));
            },
            None => {
                proof {
                    seqs::filter_all(before.leases, pred);
                }
            },
        }
        proof {
            assert(self@ =~= before.without_lease(repo@, base@));
            assert forall|i: int| 0 <= i < self@.leases.len() implies !(
            #[trigger] self@.leases[i]).covers(repo@, base@) by {
                assert(pred(before.leases.filter(pred)[i])) by {
                    before.leases.lemma_filter_pred(pred, i);
                }
            }
            lease_found_is_there(self@.leases, repo@, base@);
        }
    }

    /// Give up the lease on a base branch, if it carries the token. Whether it
    /// did.
    pub fn release_lease(&mut self, repo: &str, base: &str, token: &str) -> (r: bool)
        requires
            old(self)@.wf(),
        ensures
            final(self)@.wf(),
            r == old(self)@.holds_token(repo@, base@, token@),
            final(self)@ == old(self)@.released(repo@, base@, token@),
            r ==> final(self)@ == old(self)@.without_lease(repo@, base@),
            !r ==> final(self)@ == old(self)@,
    {
        let ghost before = self@;
        let ghost pred = |l: LeaseRecord| !(l.covers(repo@, base@) && l.token == token@);
        let ghost covers = |l: LeaseRecord| !l.covers(repo@, base@);
        match self.lease_index(repo, base) {
            Some(i) => {
                proof {
                    assert forall|j: int| 0 <= j < before.leases.len() && j != i implies covers(
                        #[trigger] before.leases[j],
                    ) by {
                        if j < i {
                            assert(!before.leases[j].covers(repo@, base@));
                        } else {
                            assert(!before.leases[i as int].covers(
                                before.leases[j].repo_path,
                                before.leases[j].base_branch,
                            ));
                        }
                    }
                }
                assert(self.leases@[i as int]@ == before.leases[i as int]);
                if text::same(&self.leases[i].token, token) {
                    proof {
                        assert forall|j: int| 0 <= j < before.leases.len() && j != i implies pred(
                            #[trigger] before.leases[j],
                        ) by {
                            assert(covers(before.leases[j]));
                        }
                        seqs::filter_but_one(before.leases, pred, i as int);
                        seqs::filter_but_one(before.leases, covers, i as int);
                    }
                    let _ = self.leases.remove(i);
                    assert(self@.leases =~= before.leases.remove(i as int));
                    assert(self@ =~= before.released(repo@, base@, token@));
                    assert(self@ =~= before.without_lease(repo@, base@));
                    true
                } else {
                    proof {
                        assert forall|j: int| 0 <= j < before.leases.len() implies pred(
                            #[trigger] before.leases[j],
                        ) by {
                            if j != i {
                                assert(covers(before.leases[j]));
                            }
                        }
                        seqs::filter_all(before.leases, pred);
                        assert(self@ =~= before.released(repo@, base@, token@));
                    }
                    false
                }
            },
            None => {
                proof {
                    seqs::filter_all(before.leases, pred);
                    assert(self@ =~= before.released(repo@, base@, token@));
                }
                false
            },
        }
    }

    /// Push the expiry of the lease on a base branch out, if it carries the
    /// token. Whether it did.
    pub fn renew_lease(
        &mut self,
        repo: &str,
        base: &str,
        token: &str,
        renewed_at: &str,
        expires_at: &str,
    ) -> (r: bool)
        requires
            old(self)@.wf(),
        ensures
            final(self)@.wf(),
            r == old(self)@.holds_token(repo@, base@, token@),
            final(self)@ == old(self)@.renewed(repo@, base@, token@, renewed_at@, expires_at@),
            !r ==> final(self)@ == old(self)@,
    {
        let ghost before = self@;
        let ghost after = before.renewed(repo@, base@, token@, renewed_at@, expires_at@);
        match self.lease_index(repo, base) {
            Some(i) => {
                proof {
                    assert forall|j: int| 0 <= j < before.leases.len() && j != i implies !(
                    #[trigger] before.leases[j]).covers(repo@, base@) by {
                        if j > i {
                            assert(!before.leases[i as int].covers(
                                before.leases[j].repo_path,
                                before.leases[j].base_branch,
                            ));
                        }
                    }
                }
                assert(self.leases@[i as int]@ == before.leases[i as int]);
                let ours = text::same(&self.leases[i].token, token);
                if ours {
                    self.leases[i].renewed_at = renewed_at.to_string();
                    self.leases[i].expires_at = expires_at.to_string();
                }
                assert forall|j: int| 0 <= j < before.leases.len() implies #[trigger] self@.leases[j]
                    == after.leases[j] by {
                    if j != i {
                        assert(self@.leases[j] == before.leases[j]);
                        assert(!before.leases[j].covers(repo@, base@));
                    }
                }
                assert(self@.leases =~= after.leases);
                assert(self@ =~= after);
                proof {
                    same_rows_wf(before, after);
                }
                ours
            },
            None => {
                assert(self@.leases =~= after.leases);
                assert(self@ =~= after);
                false
            },
        }
    }

    /// Where the lease on a base branch stands.
    fn lease_index(&self, repo: &str, base: &str) -> (r: Option<usize>)
        requires
            self@.wf(),
        ensures
            self.leases@.len() == self@.leases.len(),
            match r {
                Some(i) => {
                    &&& i < self@.leases.len()
                    &&& self@.leases[i as int].covers(repo@, base@)
                    &&& forall|j: int|
                        0 <= j < i ==> !(#[trigger] self@.leases[j]).covers(repo@, base@)
                    &&& self@.lease(repo@, base@) == Some(self@.leases[i as int])
                },
                None => {
                    &&& forall|j: int|
                        0 <= j < self@.leases.len() ==> !(#[trigger] self@.leases[j]).covers(
                            repo@,
                            base@,
                        )
                    &&& self@.lease(repo@, base@) is None
                },
            },
    {
        for i in 0..self.leases.len()
            invariant
                self@.wf(),
                forall|j: int| 0 <= j < i ==> !(#[trigger] self@.leases[j]).covers(repo@, base@),
        {
            let row = &self.leases[i];
            assert(row@ == self@.leases[i as int]);
            if text::same(&row.repo_path, repo) && text::same(&row.base_branch, base) {
                proof {
                    lease_found_is_there(self@.leases, repo@, base@);
                    let l = self@.lease(repo@, base@)->0;
                    let k = choose|k: int| 0 <= k < self@.leases.len() && self@.leases[k] == l;
                    if k < i {
                        assert(!self@.leases[k].covers(repo@, base@));
                    } else if k > i {
                        assert(!self@.leases[i as int].covers(l.repo_path, l.base_branch));
                    }
                }
                return Some(i);
            }
        }
        proof {
            lease_found_is_there(self@.leases, repo@, base@);
        }
        None
    }

    /// Move a waiting entry to the front of its queue.
    pub fn promote(&mut self, repo: &str, base: &str, id: EntryId, now: &Timestamp) -> (r: Result<
        (),
        StoreError,
    >)
        requires
            old(self)@.wf(),
        ensures
            final(self)@.wf(),
            match r {
                Ok(_) => {
                    &&& old(self)@.waits(repo@, base@, id)
                    &&& old(self)@.waiting(repo@, base@).len() > 0
                    &&& old(self)@.waiting(repo@, base@)[0].priority < i64::MAX
                    &&& final(self)@ == old(self)@.reprioritised(
                        id,
                        (old(self)@.waiting(repo@, base@)[0].priority + 1) as i64,
                        written(now@),
                    )
                },
                Err(StoreError::OutOfNumbers) => {
                    &&& old(self)@.waits(repo@, base@, id)
                    &&& old(self)@.waiting(repo@, base@)[0].priority == i64::MAX
                    &&& final(self)@ == old(self)@
                },
                Err(e) => {
                    &&& refuses(old(self)@, repo@, base@, id, e)
                    &&& final(self)@ == old(self)@
                },
            },
    {
        let at_row: usize = match self.waiting_row(repo, base, id) {
            Ok(i) => i,
            Err(e) => {
                return Err(e);
            },
        };
        let rows = self.section_rows(repo, base, Section::Waiting);
        proof {
            waiting_is_listed(self@, repo@, base@, at_row as int);
            assert(picked(self@.entries, rows@).len() == rows@.len());
        }
        assert(rows@[0] < self@.entries.len());
        let front = &self.entries[rows[0]];
        assert(front@ == self@.waiting(repo@, base@)[0]);
        let priority: i64 = match front.priority.checked_add(1) {
            Some(priority) => priority,
            None => {
                return Err(StoreError::OutOfNumbers);
            },
        };
        let at = now.to_rfc3339();
        let ghost before = self@;
        let ghost after = before.reprioritised(id, priority, at@);
        self.entries[at_row].priority = priority;
        self.entries[at_row].updated_at = at;
        proof {
            assert forall|i: int| 0 <= i < before.entries.len() implies #[trigger] self@.entries[i]
                == after.entries[i] by {
                if i < at_row {
                    assert(before.entries[i].id < before.entries[at_row as int].id);
                    assert(self@.entries[i] == before.entries[i]);
                } else if i > at_row {
                    assert(before.entries[at_row as int].id < before.entries[i].id);
                    assert(self@.entries[i] == before.entries[i]);
                }
            }
            assert(self@.entries =~= after.entries);
            assert(self@ =~= after);
            same_rows_wf(before, after);
        }
        Ok(())
    }

    /// Take a waiting entry out of its queue, by hand.
    pub fn dequeue(&mut self, repo: &str, base: &str, id: EntryId, now: &Timestamp) -> (r: Result<
        (),
        StoreError,
    >)
        requires
            old(self)@.wf(),
        ensures
            final(self)@.wf(),
            match r {
                Ok(_) => {
                    &&& old(self)@.waits(repo@, base@, id)
                    &&& final(self)@ == old(self)@.removed(id, "removed by hand"@, written(now@))
                },
                Err(e) => {
                    &&& refuses(old(self)@, repo@, base@, id, e)
                    &&& final(self)@ == old(self)@
                },
            },
    {
        let at_row: usize = match self.waiting_row(repo, base, id) {
            Ok(i) => i,
            Err(e) => {
                return Err(e);
            },
        };
        let at = now.to_rfc3339();
        let ghost before = self@;
        let ghost after = before.removed(id, "removed by hand"@, at@);
        self.entries[at_row].state = EntryState::Evicted;
        self.entries[at_row].evict_reason = Some("removed by hand".to_string());
        self.entries[at_row].updated_at = at;
        proof {
            assert forall|i: int| 0 <= i < before.entries.len() implies #[trigger] self@.entries[i]
                == after.entries[i] by {
                if i < at_row {
                    assert(before.entries[i].id < before.entries[at_row as int].id);
                    assert(self@.entries[i] == before.entries[i]);
                } else if i > at_row {
                    assert(before.entries[at_row as int].id < before.entries[i].id);
                    assert(self@.entries[i] == before.entries[i]);
                }
            }
            assert(self@.entries =~= after.entries);
            assert(self@ =~= after);
            same_rows_wf(before, after);
        }
        Ok(())
    }

    /// Where the row of an entry stands that waits in a queue.
    fn waiting_row(&self, repo: &str, base: &str, id: EntryId) -> (r: Result<usize, StoreError>)
        requires
            self@.wf(),
        ensures
            match r {
                Ok(i) => {
                    &&& i < self@.entries.len() == self.entries@.len()
                    &&& self@.entries[i as int].id == id
                    &&& self@.entries[i as int].in_queue(repo@, base@)
                    &&& self@.entries[i as int].state == EntryState::Queued
                    &&& self@.waits(repo@, base@, id)
                },
                Err(e) => refuses(self@, repo@, base@, id, e),
            },
    {
        match self.entry_index(id) {
            None => Err(StoreError::UnknownEntry { id }),
            Some(i) => {
                let row = &self.entries[i];
                assert(row@ == self@.entries[i as int]);
                if !text::same(&row.repo_path, repo) || !text::same(&row.base_branch, base) {
                    Err(StoreError::UnknownEntry { id })
                } else if row.state != EntryState::Queued {
                    Err(StoreError::NotWaiting { id })
                } else {
                    Ok(i)
                }
            },
        }
    }

    /// How an entry ended, if it has.
    pub fn settlement(&self, id: EntryId) -> (r: Option<Settled>)
        requires
            self@.wf(),
        ensures
            match r {
                Some(settled) => self@.entry(id) matches Some(e) && e.state.terminal() && settled@
                    == e.settled(),
                None => self@.entry(id) matches Some(e) ==> e.state.live(),
            },
    {
        match self.entry_index(id) {
            None => None,
            Some(i) => {
                let row = &self.entries[i];
                assert(row@ == self@.entries[i as int]);
                if row.state.is_terminal() {
                    Some(
                        Settled {
                            entry: row.id,
                            branch: row.branch.clone(),
                            state: row.state,
                            attempts: row.attempts,
                            reason: text::copy_optional(&row.evict_reason),
                        },
                    )
                } else {
                    None
                }
            },
        }
    }

    /// The runs of one queue whose logs may go, oldest first: those with a log
    /// whose candidate is finished with.
    pub fn logged_runs(&self, repo: &str, base: &str) -> (r: Vec<LoggedRun>)
        requires
            self@.wf(),
        ensures
            logged_views(r@) == self@.logged(repo@, base@),
    {
        let mut r: Vec<LoggedRun> = Vec::new();
        let ghost all = self@.runs;
        let ghost q = self@;
        let ghost pred = |r: RunRecord| q.may_lose_log(r, repo@, base@);
        let ghost seen = |r: RunRecord|
            LoggedRunView {
                run_id: r.id,
                candidate_id: r.candidate_id,
                log_path: r.log_path->0,
                passed: r.exit_code == Some(0i32),
            };
        proof {
            reveal(Seq::filter);
            assert(logged_views(r@) =~= all.take(0).filter(pred).map_values(seen));
        }
        for i in 0..self.runs.len()
            invariant
                self@.wf(),
                q == self@,
                all == self@.runs,
                all.len() == self.runs@.len(),
                pred == (|r: RunRecord| q.may_lose_log(r, repo@, base@)),
                seen == (|r: RunRecord|
                    LoggedRunView {
                        run_id: r.id,
                        candidate_id: r.candidate_id,
                        log_path: r.log_path->0,
                        passed: r.exit_code == Some(0i32),
                    }),
                logged_views(r@) == all.take(i as int).filter(pred).map_values(seen),
        {
            let run = &self.runs[i];
            assert(run@ == all[i as int]);
            proof {
                seqs::filter_take(all, i as int, pred);
            }
            let finished = self.finished_in(run.candidate_id, repo, base);
            match &run.log_path {
                Some(path) => {
                    if finished {
                        let ghost had = r@;
                        let passed = match run.exit_code {
                            Some(code) => code == 0,
                            None => false,
                        };
                        let logged = LoggedRun {
                            run_id: run.id,
                            candidate_id: run.candidate_id,
                            log_path: path.clone(),
                            passed,
                        };
                        r.push(logged);
                        assert(logged@ == seen(all[i as int]));
                        assert(logged_views(r@) =~= logged_views(had).push(logged@));
                        assert(all.take(i + 1).filter(pred).map_values(seen) =~= all.take(
                            i as int,
                        ).filter(pred).map_values(seen).push(seen(all[i as int])));
                    }
                },
                None => {},
            }
        }
        assert(all.take(all.len() as int) =~= all);
        r
    }

    /// Whether a candidate belongs to a queue and is finished with.
    fn finished_in(&self, candidate: i64, repo: &str, base: &str) -> (r: bool)
        requires
            self@.wf(),
        ensures
            r == (self@.candidate(candidate) matches Some(c) && c.in_queue(repo@, base@)
                && c.state.terminal()),
    {
        for i in 0..self.candidates.len()
            invariant
                self@.wf(),
                forall|j: int| 0 <= j < i ==> (#[trigger] self@.candidates[j]).id != candidate,
        {
            let row = &self.candidates[i];
            assert(row@ == self@.candidates[i as int]);
            if row.id == candidate {
                proof {
                    candidate_is_found(self@.candidates, i as int);
                }
                return row.state.is_terminal() && text::same(&row.repo_path, repo) && text::same(
                    &row.base_branch,
                    base,
                );
            }
        }
        proof {
            candidate_found_is_there(self@.candidates, candidate);
        }
        false
    }

    /// Record that a run's log has gone, and what of it is kept.
    pub fn forget_log(&mut self, run: i64, tail: Option<String>)
        requires
            old(self)@.wf(),
        ensures
            final(self)@.wf(),
            final(self)@ == old(self)@.log_forgotten(run, text::optional(tail)),
    {
        let ghost before = self@;
        let ghost after = before.log_forgotten(run, text::optional(tail));
        let count: usize = self.runs.len();
        for i in 0..count
            invariant
                count == before.runs.len(),
                self.runs@.len() == before.runs.len(),
                self@ == (Ledger { runs: run_records(self.runs@), ..before }),
                after == before.log_forgotten(run, text::optional(tail)),
                forall|j: int| 0 <= j < i ==> #[trigger] self.runs@[j]@ == after.runs[j],
                forall|j: int| i <= j < count ==> #[trigger] self.runs@[j]@ == before.runs[j],
        {
            let ghost had = self.runs@[i as int]@;
            if self.runs[i].id == run {
                self.runs[i].log_path = None;
                self.runs[i].tail = text::copy_optional(&tail);
            }
            assert(had == before.runs[i as int]);
            assert(self.runs@[i as int]@ == after.runs[i as int]);
            assert(self@ =~= Ledger { runs: run_records(self.runs@), ..before });
        }
        proof {
            assert(self@.runs =~= after.runs);
            assert(self@ =~= after);
            same_rows_wf(before, after);
        }
    }

    /// The entries of one part of one queue, up to a limit.
    fn listing(&self, repo: &str, base: &str, part: Section, limit: usize) -> (r: Result<
        Vec<StatusEntry>,
        StoreError,
    >)
        ensures
            ({
                let list = upto(self@.section(repo@, base@, part), limit as nat);
                match r {
                    Ok(entries) => all_full(list) && status_views(entries@) == all_status(list),
                    Err(e) => misreads(list, e),
                }
            }),
    {
        let rows = self.section_rows(repo, base, part);
        let ghost whole = self@.section(repo@, base@, part);
        let ghost front = upto(whole, limit as nat);
        let mut r: Vec<StatusEntry> = Vec::new();
        let mut i: usize = 0;
        assert(whole.len() == rows@.len());
        while i < rows.len() && i < limit
            invariant
                i <= rows@.len(),
                i <= front.len(),
                whole.len() == rows@.len(),
                picks(self@.entries, rows@),
                whole == picked(self@.entries, rows@),
                whole == self@.section(repo@, base@, part),
                front == upto(whole, limit as nat),
                all_full(front.take(i as int)),
                status_views(r@) == all_status(front.take(i as int)),
            decreases rows.len() - i,
        {
            assert(rows@[i as int] < self@.entries.len());
            let row = &self.entries[rows[i]];
            assert(front[i as int] == row@);
            match Sha::parse(&row.branch_sha) {
                Ok(branch_sha) => {
                    let entry = StatusEntry {
                        id: row.id,
                        state: row.state,
                        branch: row.branch.clone(),
                        branch_sha,
                        attempts: row.attempts,
                        evict_reason: text::copy_optional(&row.evict_reason),
                    };
                    assert(entry@ == front[i as int].status());
                    let ghost read = r@;
                    r.push(entry);
                    assert(status_views(r@) =~= status_views(read).push(entry@));
                    assert(all_status(front.take(i + 1)) =~= all_status(front.take(i as int)).push(
                        front[i as int].status(),
                    ));
                },
                Err(e) => {
                    let raw = e.raw;
                    assert(misread_at(front, i as int, raw@));
                    assert(misread(front, raw@));
                    return Err(StoreError::NotAnObjectId { raw });
                },
            }
            assert(front.take(i + 1) =~= front.take(i as int).push(front[i as int]));
            i = i + 1;
        }
        assert(front.take(i as int) =~= front);
        Ok(r)
    }

    /// One queue in full: what is in flight, what waits, what is in a candidate
    /// and what was settled last.
    pub fn snapshot(&self, repo: &str, base: &str, settled_limit: usize) -> (r: Result<
        Snapshot,
        StoreError,
    >)
        requires
            self@.wf(),
        ensures
            snapshot_gives(self@, repo@, base@, settled_limit as nat, r),
    {
        let active: Option<Candidate> = match self.active_candidate(repo, base) {
            Ok(active) => active,
            Err(e) => {
                return Err(e);
            },
        };
        let all: usize = self.entries.len();
        proof {
            section_is_short(self@, repo@, base@, Section::Waiting);
            section_is_short(self@, repo@, base@, Section::Batched);
        }
        let queued: Vec<StatusEntry> = match self.listing(repo, base, Section::Waiting, all) {
            Ok(list) => list,
            Err(e) => {
                return Err(e);
            },
        };
        let batched: Vec<StatusEntry> = match self.listing(repo, base, Section::Batched, all) {
            Ok(list) => list,
            Err(e) => {
                return Err(e);
            },
        };
        let settled: Vec<StatusEntry> = match self.listing(
            repo,
            base,
            Section::Settled,
            settled_limit,
        ) {
            Ok(list) => list,
            Err(e) => {
                return Err(e);
            },
        };
        Ok(Snapshot { active, queued, batched, settled })
    }

    /// The base branches of a repository that have a queue, each once. A queue
    /// that has drained still counts.
    pub fn base_branches(&self, repo: &str) -> (r: Vec<String>)
        ensures
            text::texts(r@) == self@.bases(repo@),
    {
        let mut r: Vec<String> = Vec::new();
        let ghost q = self@;
        let ghost of_entry = |e: EntryRecord| e.repo_path == repo@;
        let ghost of_candidate = |c: CandidateRecord| c.repo_path == repo@;
        let ghost of_lease = |l: LeaseRecord| l.repo_path == repo@;
        let ghost entry_base = |e: EntryRecord| e.base_branch;
        let ghost candidate_base = |c: CandidateRecord| c.base_branch;
        let ghost lease_base = |l: LeaseRecord| l.base_branch;
        let ghost mut list = Seq::<Seq<char>>::empty();
        proof {
            reveal(Seq::filter);
            assert(text::texts(r@) =~= distinct(list));
            assert(list =~= q.entries.take(0).filter(of_entry).map_values(entry_base));
        }
        for i in 0..self.entries.len()
            invariant
                q == self@,
                q.entries.len() == self.entries@.len(),
                of_entry == (|e: EntryRecord| e.repo_path == repo@),
                entry_base == (|e: EntryRecord| e.base_branch),
                text::texts(r@) == distinct(list),
                list == q.entries.take(i as int).filter(of_entry).map_values(entry_base),
        {
            let row = &self.entries[i];
            proof {
                seqs::filter_take(q.entries, i as int, of_entry);
                assert(row@ == q.entries[i as int]);
            }
            if text::same(&row.repo_path, repo) {
                note_once(&mut r, &row.base_branch, Ghost(list));
                proof {
                    list = list.push(row.base_branch@);
                    assert(list =~= q.entries.take(i + 1).filter(of_entry).map_values(entry_base));
                }
            }
        }
        assert(q.entries.take(q.entries.len() as int) =~= q.entries);
        let ghost first = list;
        assert(list =~= first + q.candidates.take(0).filter(of_candidate).map_values(
            candidate_base,
        )) by {
            reveal(Seq::filter);
        }
        for i in 0..self.candidates.len()
            invariant
                q == self@,
                q.candidates.len() == self.candidates@.len(),
                of_candidate == (|c: CandidateRecord| c.repo_path == repo@),
                candidate_base == (|c: CandidateRecord| c.base_branch),
                text::texts(r@) == distinct(list),
                list == first + q.candidates.take(i as int).filter(of_candidate).map_values(
                    candidate_base,
                ),
        {
            let row = &self.candidates[i];
            proof {
                seqs::filter_take(q.candidates, i as int, of_candidate);
                assert(row@ == q.candidates[i as int]);
            }
            if text::same(&row.repo_path, repo) {
                note_once(&mut r, &row.base_branch, Ghost(list));
                proof {
                    list = list.push(row.base_branch@);
                    assert(list =~= first + q.candidates.take(i + 1).filter(
                        of_candidate,
                    ).map_values(candidate_base));
                }
            }
        }
        assert(q.candidates.take(q.candidates.len() as int) =~= q.candidates);
        let ghost second = list;
        assert(list =~= second + q.leases.take(0).filter(of_lease).map_values(lease_base)) by {
            reveal(Seq::filter);
        }
        for i in 0..self.leases.len()
            invariant
                q == self@,
                q.leases.len() == self.leases@.len(),
                of_lease == (|l: LeaseRecord| l.repo_path == repo@),
                lease_base == (|l: LeaseRecord| l.base_branch),
                text::texts(r@) == distinct(list),
                list == second + q.leases.take(i as int).filter(of_lease).map_values(lease_base),
        {
            let row = &self.leases[i];
            proof {
                seqs::filter_take(q.leases, i as int, of_lease);
                assert(row@ == q.leases[i as int]);
            }
            if text::same(&row.repo_path, repo) {
                note_once(&mut r, &row.base_branch, Ghost(list));
                proof {
                    list = list.push(row.base_branch@);
                    assert(list =~= second + q.leases.take(i + 1).filter(of_lease).map_values(
                        lease_base,
                    ));
                }
            }
        }
        assert(q.leases.take(q.leases.len() as int) =~= q.leases);
        r
    }

    /// One queue in a line.
    pub fn summary(&self, repo: &str, base: &str) -> (r: Summary)
        requires
            self@.wf(),
        ensures
            r.active == (if self@.active(repo@, base@).len() > 0 {
                Some(self@.active(repo@, base@)[0].id)
            } else {
                None
            }),
            r.queued == self@.waiting(repo@, base@).len(),
            r.batched == self@.section(repo@, base@, Section::Batched).len(),
            r.settled == self@.section(repo@, base@, Section::Settled).len(),
    {
        let queued: usize = self.section_rows(repo, base, Section::Waiting).len();
        let batched: usize = self.section_rows(repo, base, Section::Batched).len();
        let settled: usize = self.section_rows(repo, base, Section::Settled).len();
        let ghost pred = |c: CandidateRecord| c.in_queue(repo@, base@) && c.state.active();
        for i in 0..self.candidates.len()
            invariant
                pred == (|c: CandidateRecord| c.in_queue(repo@, base@) && c.state.active()),
                forall|j: int| 0 <= j < i ==> !pred(#[trigger] self@.candidates[j]),
                queued == self@.waiting(repo@, base@).len(),
                batched == self@.section(repo@, base@, Section::Batched).len(),
                settled == self@.section(repo@, base@, Section::Settled).len(),
        {
            let row = &self.candidates[i];
            assert(row@ == self@.candidates[i as int]);
            if !row.state.is_terminal() && text::same(&row.repo_path, repo) && text::same(
                &row.base_branch,
                base,
            ) {
                proof {
                    seqs::filter_first(self@.candidates, pred, i as int);
                }
                return Summary { active: Some(row.id), queued, batched, settled };
            }
        }
        proof {
            seqs::filter_none(self@.candidates, pred);
        }
        Summary { active: None, queued, batched, settled }
    }

    /// Whether a candidate has not been given a commit.
    fn without_commit(&self, candidate: i64) -> (r: bool)
        ensures
            r == self@.lacks_commit(candidate),
    {
        for i in 0..self.candidates.len()
            invariant
                forall|j: int|
                    0 <= j < i ==> !((#[trigger] self@.candidates[j]).id == candidate
                        && self@.candidates[j].candidate_sha is None),
        {
            if self.candidates[i].id == candidate && self.candidates[i].candidate_sha.is_none() {
                assert(self@.candidates[i as int].id == candidate);
                return true;
            }
        }
        false
    }

    /// Which entries a candidate holds out of the queue.
    fn mark_held(&self, candidate: i64) -> (r: Vec<bool>)
        ensures
            r@.len() == self@.entries.len(),
            forall|i: int|
                0 <= i < r@.len() ==> #[trigger] r@[i] == self@.held_by(
                    candidate,
                    self@.entries[i],
                ),
    {
        let mut r: Vec<bool> = Vec::new();
        for i in 0..self.entries.len()
            invariant
                r@.len() == i,
                forall|j: int|
                    0 <= j < i ==> #[trigger] r@[j] == self@.held_by(candidate, self@.entries[j]),
        {
            let row = &self.entries[i];
            let batched = row.state == EntryState::Batched;
            r.push(batched && lists(&self.members, candidate, row.id));
        }
        r
    }

    /// Which candidate has this id.
    fn mark_candidate(&self, candidate: i64) -> (r: Vec<bool>)
        ensures
            r@.len() == self@.candidates.len(),
            forall|i: int|
                0 <= i < r@.len() ==> #[trigger] r@[i] == (self@.candidates[i].id == candidate),
    {
        let mut r: Vec<bool> = Vec::new();
        for i in 0..self.candidates.len()
            invariant
                r@.len() == i,
                forall|j: int|
                    0 <= j < i ==> #[trigger] r@[j] == (self@.candidates[j].id == candidate),
        {
            r.push(self.candidates[i].id == candidate);
        }
        r
    }
}

} // verus!
