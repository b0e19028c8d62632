//! The verdict on one entry inside one candidate.

use vstd::prelude::*;

use crate::text::same;

verus! {

/// What happened to one entry inside one candidate.
///
/// This is a property of the (entry, candidate) pair rather than of the entry,
/// because an entry joins several candidates over its life and earns a separate
/// verdict in each. Recording it on the entry's own state would lose it the
/// moment the entry requeues.
#[derive(Debug, Clone, Copy, PartialEq, Eq, Hash, Structural)]
pub enum Outcome {
    /// In the candidate, no verdict yet.
    Pending,
    /// The candidate passed its gate with this entry in it.
    Passed,
    /// Isolated by bisection as the entry that failed its own gate.
    Culprit,
    /// Never gated on its own, because a batch-mate was the culprit.
    Skipped,
}

/// A verdict that cannot follow another.
#[derive(Debug, Clone, Copy, PartialEq, Eq, Structural)]
pub struct IllegalOutcomeTransition {
    pub from: Outcome,
    pub to: Outcome,
}

impl Outcome {
    /// The moves there are. Once reached, a verdict stands.
    pub open spec fn leads_to(self, next: Outcome) -> bool {
        self == Outcome::Pending && next != Outcome::Pending
    }

    /// How the verdict is written down.
    pub open spec fn name(self) -> Seq<char> {
        match self {
            Outcome::Pending => "pending"@,
            Outcome::Passed => "passed"@,
            Outcome::Culprit => "culprit"@,
            Outcome::Skipped => "skipped"@,
        }
    }

    pub fn is_terminal(self) -> (r: bool)
        ensures
            r == (self != Outcome::Pending),
    {
        !matches!(self, Self::Pending)
    }

    /// Whether this outcome spends one of the entry's retry attempts.
    ///
    /// Only the culprit pays. An entry skipped because a batch-mate failed
    /// requeues for free, otherwise a single flaky branch drains the retry
    /// budget of every branch that happened to be batched alongside it.
    pub fn burns_attempt(self) -> (r: bool)
        ensures
            r == (self == Outcome::Culprit),
    {
        matches!(self, Self::Culprit)
    }

    /// Whether the entry goes back in the queue rather than settling.
    pub fn requeues(self) -> (r: bool)
        ensures
            r == (self == Outcome::Skipped),
    {
        matches!(self, Self::Skipped)
    }

    pub fn can_transition_to(self, next: Self) -> (r: bool)
        ensures
            r == self.leads_to(next),
    {
        match (self, next) {
            (Self::Pending, Self::Passed) => true,
            (Self::Pending, Self::Culprit) => true,
            (Self::Pending, Self::Skipped) => true,
            _ => false,
        }
    }

    pub fn transition_to(self, next: Self) -> (r: Result<Self, IllegalOutcomeTransition>)
        ensures
            r == (if self.leads_to(next) {
                Ok::<Outcome, IllegalOutcomeTransition>(next)
            } else {
                Err(IllegalOutcomeTransition { from: self, to: next })
            }),
    {
        if self.can_transition_to(next) {
            Ok(next)
        } else {
            Err(IllegalOutcomeTransition { from: self, to: next })
        }
    }

    pub fn as_str(self) -> (r: &'static str)
        ensures
            r@ == self.name(),
    {
        match self {
            Self::Pending => "pending",
            Self::Passed => "passed",
            Self::Culprit => "culprit",
            Self::Skipped => "skipped",
        }
    }

    /// The verdict a text writes down, if it writes one down.
    pub fn parse(raw: &str) -> (r: Option<Self>)
        ensures
            match r {
                Some(outcome) => raw@ == outcome.name(),
                None => forall|o: Outcome| o.name() != raw@,
            },
    {
        if same(raw, "pending") {
            Some(Self::Pending)
        } else if same(raw, "passed") {
            Some(Self::Passed)
        } else if same(raw, "culprit") {
            Some(Self::Culprit)
        } else if same(raw, "skipped") {
            Some(Self::Skipped)
        } else {
            None
        }
    }
}

impl IllegalOutcomeTransition {
    pub fn message(&self) -> (r: String)
        ensures
            r@ == "illegal outcome transition: "@ + self.from.name() + " -> "@ + self.to.name(),
    {
        let mut r = "illegal outcome transition: ".to_string();
        r.append(self.from.as_str());
        r.append(" -> ");
        r.append(self.to.as_str());
        r
    }
}

/// No two verdicts are written alike, so what `as_str` writes `parse` reads
/// back as the verdict it came from.
pub proof fn outcome_names_differ(a: Outcome, b: Outcome)
    ensures
        a.name() == b.name() <==> a == b,
{
    reveal_strlit("pending");
    reveal_strlit("passed");
    reveal_strlit("culprit");
    reveal_strlit("skipped");
    if a != b && a.name() == b.name() {
        assert(a.name().len() == b.name().len());
        assert(a.name()[0] == b.name()[0]);
    }
}

/// A verdict is final exactly when it is one: from `Pending` every verdict can
/// be reached, and from a verdict nothing can.
pub proof fn outcome_lifecycle(from: Outcome, to: Outcome)
    ensures
        from == Outcome::Pending ==> (from.leads_to(to) <==> to != Outcome::Pending),
        from != Outcome::Pending ==> !from.leads_to(to),
{
}

/// What a verdict on a place in a candidate is written as, and that it reads back
/// as that verdict.
pub proof fn an_outcome_reads_back(outcome: Outcome, raw: &'static str, r: Option<Outcome>)
    requires
        call_ensures(Outcome::as_str, (outcome,), raw),
        call_ensures(Outcome::parse, (raw,), r),
    ensures
        r == Some(outcome),
        raw@ == match outcome {
            Outcome::Pending => "pending"@,
            Outcome::Passed => "passed"@,
            Outcome::Culprit => "culprit"@,
            Outcome::Skipped => "skipped"@,
        },
{
    if let Some(other) = r {
        outcome_names_differ(outcome, other);
    }
}

/// Only a culprit pays an attempt, only what was skipped goes back in line, and
/// a verdict once reached stands.
pub proof fn what_a_verdict_means(
    from: Outcome,
    to: Outcome,
    done: bool,
    burns: bool,
    requeues: bool,
    may: bool,
    r: Result<Outcome, IllegalOutcomeTransition>,
)
    requires
        call_ensures(Outcome::is_terminal, (from,), done),
        call_ensures(Outcome::burns_attempt, (from,), burns),
        call_ensures(Outcome::requeues, (from,), requeues),
        call_ensures(Outcome::can_transition_to, (from, to), may),
        call_ensures(Outcome::transition_to, (from, to), r),
    ensures
        burns <==> from == Outcome::Culprit,
        requeues <==> from == Outcome::Skipped,
        done <==> from != Outcome::Pending,
        may <==> from == Outcome::Pending && to != Outcome::Pending,
        may ==> r == Ok::<Outcome, IllegalOutcomeTransition>(to),
        !may ==> r == Err::<Outcome, IllegalOutcomeTransition>(
            IllegalOutcomeTransition { from, to },
        ),
{
}

} // verus!
