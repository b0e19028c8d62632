//! The lifecycles of an entry and of a candidate.

use vstd::prelude::*;

use crate::text::quoted;
use crate::text::same;

verus! {

/// Lifecycle of a queued branch.
///
/// `Batched` to `Queued` is the requeue edge: an entry ahead of this one in a
/// candidate failed, so this entry's result is void and it goes back in line.
#[derive(Debug, Clone, Copy, PartialEq, Eq, Hash, Structural)]
pub enum EntryState {
    Queued,
    Batched,
    Merged,
    Evicted,
}

/// Lifecycle of a batch under test.
///
/// `Superseded` covers a candidate abandoned before it produced a verdict,
/// which happens when the base branch moves underneath it.
#[derive(Debug, Clone, Copy, PartialEq, Eq, Hash, Structural)]
pub enum CandidateState {
    Building,
    Testing,
    Passed,
    Failed,
    Superseded,
}

/// A move that the entry lifecycle does not have.
#[derive(Debug, Clone, Copy, PartialEq, Eq, Structural)]
pub struct IllegalEntryTransition {
    pub from: EntryState,
    pub to: EntryState,
}

/// A move that the candidate lifecycle does not have.
#[derive(Debug, Clone, Copy, PartialEq, Eq, Structural)]
pub struct IllegalCandidateTransition {
    pub from: CandidateState,
    pub to: CandidateState,
}

/// A text that names no state of the lifecycle asked for.
#[derive(Debug, PartialEq, Eq)]
pub enum UnknownState {
    Entry { raw: String },
    Candidate { raw: String },
}

impl EntryState {
    /// The state has no way out.
    pub open spec fn terminal(self) -> bool {
        self == EntryState::Merged || self == EntryState::Evicted
    }

    /// The state keeps its branch in play: waiting, or inside a candidate.
    pub open spec fn live(self) -> bool {
        !self.terminal()
    }

    /// The moves of the lifecycle.
    pub open spec fn leads_to(self, next: EntryState) -> bool {
        match self {
            EntryState::Queued => next == EntryState::Batched || next == EntryState::Evicted,
            EntryState::Batched => next != EntryState::Batched,
            EntryState::Merged => false,
            EntryState::Evicted => false,
        }
    }

    /// How the state is written down.
    pub open spec fn name(self) -> Seq<char> {
        match self {
            EntryState::Queued => "queued"@,
            EntryState::Batched => "batched"@,
            EntryState::Merged => "merged"@,
            EntryState::Evicted => "evicted"@,
        }
    }

    pub fn is_terminal(self) -> (r: bool)
        ensures
            r == self.terminal(),
    {
        matches!(self, Self::Merged | Self::Evicted)
    }

    pub fn can_transition_to(self, next: Self) -> (r: bool)
        ensures
            r == self.leads_to(next),
    {
        match (self, next) {
            (Self::Queued, Self::Batched) => true,
            (Self::Queued, Self::Evicted) => true,
            (Self::Batched, Self::Queued) => true,
            (Self::Batched, Self::Merged) => true,
            (Self::Batched, Self::Evicted) => true,
            _ => false,
        }
    }

    pub fn transition_to(self, next: Self) -> (r: Result<Self, IllegalEntryTransition>)
        ensures
            r == (if self.leads_to(next) {
                Ok::<EntryState, IllegalEntryTransition>(next)
            } else {
                Err(IllegalEntryTransition { from: self, to: next })
            }),
    {
        if self.can_transition_to(next) {
            Ok(next)
        } else {
            Err(IllegalEntryTransition { from: self, to: next })
        }
    }

    pub fn as_str(self) -> (r: &'static str)
        ensures
            r@ == self.name(),
    {
        match self {
            Self::Queued => "queued",
            Self::Batched => "batched",
            Self::Merged => "merged",
            Self::Evicted => "evicted",
        }
    }

    pub fn parse(raw: &str) -> (r: Result<Self, UnknownState>)
        ensures
            match r {
                Ok(state) => raw@ == state.name(),
                Err(UnknownState::Entry { raw: given }) => given@ == raw@ && forall|s: EntryState|
                    s.name() != raw@,
                Err(_) => false,
            },
    {
        if same(raw, "queued") {
            Ok(Self::Queued)
        } else if same(raw, "batched") {
            Ok(Self::Batched)
        } else if same(raw, "merged") {
            Ok(Self::Merged)
        } else if same(raw, "evicted") {
            Ok(Self::Evicted)
        } else {
            Err(UnknownState::Entry { raw: raw.to_string() })
        }
    }
}

impl CandidateState {
    /// The state has no way out.
    pub open spec fn terminal(self) -> bool {
        self == CandidateState::Passed || self == CandidateState::Failed || self
            == CandidateState::Superseded
    }

    /// The candidate is still being assembled or gated.
    pub open spec fn active(self) -> bool {
        !self.terminal()
    }

    /// The moves of the lifecycle.
    pub open spec fn leads_to(self, next: CandidateState) -> bool {
        match self {
            CandidateState::Building => next == CandidateState::Testing || next
                == CandidateState::Superseded,
            CandidateState::Testing => next == CandidateState::Passed || next
                == CandidateState::Failed || next == CandidateState::Superseded,
            CandidateState::Passed => false,
            CandidateState::Failed => false,
            CandidateState::Superseded => false,
        }
    }

    /// The states in which a commit is being gated or has landed.
    pub open spec fn names_commit(self) -> bool {
        self == CandidateState::Testing || self == CandidateState::Passed
    }

    /// How the state is written down.
    pub open spec fn name(self) -> Seq<char> {
        match self {
            CandidateState::Building => "building"@,
            CandidateState::Testing => "testing"@,
            CandidateState::Passed => "passed"@,
            CandidateState::Failed => "failed"@,
            CandidateState::Superseded => "superseded"@,
        }
    }

    pub fn is_terminal(self) -> (r: bool)
        ensures
            r == self.terminal(),
    {
        matches!(self, Self::Passed | Self::Failed | Self::Superseded)
    }

    pub fn can_transition_to(self, next: Self) -> (r: bool)
        ensures
            r == self.leads_to(next),
    {
        match (self, next) {
            (Self::Building, Self::Testing) => true,
            (Self::Building, Self::Superseded) => true,
            (Self::Testing, Self::Passed) => true,
            (Self::Testing, Self::Failed) => true,
            (Self::Testing, Self::Superseded) => true,
            _ => false,
        }
    }

    pub fn transition_to(self, next: Self) -> (r: Result<Self, IllegalCandidateTransition>)
        ensures
            r == (if self.leads_to(next) {
                Ok::<CandidateState, IllegalCandidateTransition>(next)
            } else {
                Err(IllegalCandidateTransition { from: self, to: next })
            }),
    {
        if self.can_transition_to(next) {
            Ok(next)
        } else {
            Err(IllegalCandidateTransition { from: self, to: next })
        }
    }

    pub fn as_str(self) -> (r: &'static str)
        ensures
            r@ == self.name(),
    {
        match self {
            Self::Building => "building",
            Self::Testing => "testing",
            Self::Passed => "passed",
            Self::Failed => "failed",
            Self::Superseded => "superseded",
        }
    }

    pub fn parse(raw: &str) -> (r: Result<Self, UnknownState>)
        ensures
            match r {
                Ok(state) => raw@ == state.name(),
                Err(UnknownState::Candidate { raw: given }) => given@ == raw@ && forall|
                    s: CandidateState,
                | s.name() != raw@,
                Err(_) => false,
            },
    {
        if same(raw, "building") {
            Ok(Self::Building)
        } else if same(raw, "testing") {
            Ok(Self::Testing)
        } else if same(raw, "passed") {
            Ok(Self::Passed)
        } else if same(raw, "failed") {
            Ok(Self::Failed)
        } else if same(raw, "superseded") {
            Ok(Self::Superseded)
        } else {
            Err(UnknownState::Candidate { raw: raw.to_string() })
        }
    }
}

impl IllegalEntryTransition {
    pub fn message(&self) -> (r: String)
        ensures
            r@ == "illegal entry transition: "@ + self.from.name() + " -> "@ + self.to.name(),
    {
        let mut r = "illegal entry transition: ".to_string();
        r.append(self.from.as_str());
        r.append(" -> ");
        r.append(self.to.as_str());
        r
    }
}

impl IllegalCandidateTransition {
    pub fn message(&self) -> (r: String)
        ensures
            r@ == "illegal candidate transition: "@ + self.from.name() + " -> "@ + self.to.name(),
    {
        let mut r = "illegal candidate transition: ".to_string();
        r.append(self.from.as_str());
        r.append(" -> ");
        r.append(self.to.as_str());
        r
    }
}

impl UnknownState {
    pub fn message(&self) -> (r: String)
        ensures
            r@ == match self {
                UnknownState::Entry { raw } => "not an entry state: "@ + crate::text::quoted_text(
                    raw@,
                ),
                UnknownState::Candidate { raw } => "not a candidate state: "@
                    + crate::text::quoted_text(raw@),
            },
    {
        match self {
            UnknownState::Entry { raw } => {
                let mut r = "not an entry state: ".to_string();
                r.append(&quoted(raw));
                r
            },
            UnknownState::Candidate { raw } => {
                let mut r = "not a candidate state: ".to_string();
                r.append(&quoted(raw));
                r
            },
        }
    }
}

/// No two entry states are written alike, so what `as_str` writes `parse`
/// reads back as the state it came from.
pub proof fn entry_names_differ(a: EntryState, b: EntryState)
    ensures
        a.name() == b.name() <==> a == b,
{
    reveal_strlit("queued");
    reveal_strlit("batched");
    reveal_strlit("merged");
    reveal_strlit("evicted");
    if a != b && a.name() == b.name() {
        assert(a.name()[0] == b.name()[0]);
    }
}

/// No two candidate states are written alike, so what `as_str` writes `parse`
/// reads back as the state it came from.
pub proof fn candidate_names_differ(a: CandidateState, b: CandidateState)
    ensures
        a.name() == b.name() <==> a == b,
{
    reveal_strlit("building");
    reveal_strlit("testing");
    reveal_strlit("passed");
    reveal_strlit("failed");
    reveal_strlit("superseded");
    if a != b && a.name() == b.name() {
        assert(a.name()[0] == b.name()[0]);
    }
}

/// A terminal entry state has no way out, every other one has, and no state
/// leads to itself.
pub proof fn entry_lifecycle(state: EntryState)
    ensures
        state.terminal() <==> forall|next: EntryState| !state.leads_to(next),
        !state.leads_to(state),
{
    assert(EntryState::Queued.leads_to(EntryState::Batched));
    assert(EntryState::Batched.leads_to(EntryState::Queued));
}

/// A terminal candidate state has no way out, every other one has, and no
/// state leads to itself.
pub proof fn candidate_lifecycle(state: CandidateState)
    ensures
        state.terminal() <==> forall|next: CandidateState| !state.leads_to(next),
        !state.leads_to(state),
{
    assert(CandidateState::Building.leads_to(CandidateState::Testing));
    assert(CandidateState::Testing.leads_to(CandidateState::Passed));
}

/// What an entry's state is written as, and that it reads back as that state.
pub proof fn an_entry_state_reads_back(
    state: EntryState,
    raw: &'static str,
    r: Result<EntryState, UnknownState>,
)
    requires
        call_ensures(EntryState::as_str, (state,), raw),
        call_ensures(EntryState::parse, (raw,), r),
    ensures
        r == Ok::<EntryState, UnknownState>(state),
        raw@ == match state {
            EntryState::Queued => "queued"@,
            EntryState::Batched => "batched"@,
            EntryState::Merged => "merged"@,
            EntryState::Evicted => "evicted"@,
        },
{
    if let Ok(other) = r {
        entry_names_differ(state, other);
    }
}

/// What a candidate's state is written as, and that it reads back as that state.
pub proof fn a_candidate_state_reads_back(
    state: CandidateState,
    raw: &'static str,
    r: Result<CandidateState, UnknownState>,
)
    requires
        call_ensures(CandidateState::as_str, (state,), raw),
        call_ensures(CandidateState::parse, (raw,), r),
    ensures
        r == Ok::<CandidateState, UnknownState>(state),
        raw@ == match state {
            CandidateState::Building => "building"@,
            CandidateState::Testing => "testing"@,
            CandidateState::Passed => "passed"@,
            CandidateState::Failed => "failed"@,
            CandidateState::Superseded => "superseded"@,
        },
{
    if let Ok(other) = r {
        candidate_names_differ(state, other);
    }
}

/// How an entry moves: from the line into a candidate or out by hand; from a
/// candidate back in line, or to an end. From an end nowhere.
pub proof fn how_an_entry_moves(
    from: EntryState,
    to: EntryState,
    may: bool,
    r: Result<EntryState, IllegalEntryTransition>,
    done: bool,
)
    requires
        call_ensures(EntryState::can_transition_to, (from, to), may),
        call_ensures(EntryState::transition_to, (from, to), r),
        call_ensures(EntryState::is_terminal, (from,), done),
    ensures
        from == EntryState::Queued ==> (may <==> to == EntryState::Batched || to
            == EntryState::Evicted),
        from == EntryState::Batched ==> (may <==> to == EntryState::Queued || to
            == EntryState::Merged || to == EntryState::Evicted),
        from == EntryState::Merged || from == EntryState::Evicted ==> !may,
        may ==> r == Ok::<EntryState, IllegalEntryTransition>(to),
        !may ==> r == Err::<EntryState, IllegalEntryTransition>(
            IllegalEntryTransition { from, to },
        ),
        done <==> from == EntryState::Merged || from == EntryState::Evicted,
{
}

/// How a candidate moves: it is built, gated and then lands or fails, and until
/// then it can be thrown away. From an end nowhere.
pub proof fn how_a_candidate_moves(
    from: CandidateState,
    to: CandidateState,
    may: bool,
    r: Result<CandidateState, IllegalCandidateTransition>,
    done: bool,
)
    requires
        call_ensures(CandidateState::can_transition_to, (from, to), may),
        call_ensures(CandidateState::transition_to, (from, to), r),
        call_ensures(CandidateState::is_terminal, (from,), done),
    ensures
        from == CandidateState::Building ==> (may <==> to == CandidateState::Testing || to
            == CandidateState::Superseded),
        from == CandidateState::Testing ==> (may <==> to == CandidateState::Passed || to
            == CandidateState::Failed || to == CandidateState::Superseded),
        done ==> !may,
        may ==> r == Ok::<CandidateState, IllegalCandidateTransition>(to),
        !may ==> r == Err::<CandidateState, IllegalCandidateTransition>(
            IllegalCandidateTransition { from, to },
        ),
        done <==> from != CandidateState::Building && from != CandidateState::Testing,
{
}

} // verus!
