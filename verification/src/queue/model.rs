//! The bisection decision.

use vstd::prelude::*;

verus! {

pub type EntryId = i64;

/// What to do with a batch that failed its gate.
///
/// A batch of one that fails identifies its culprit exactly. Any larger batch
/// says only that the culprit is somewhere inside, so it is split and both
/// halves are retested.
#[derive(Debug, PartialEq, Eq)]
pub enum Verdict {
    Culprit(EntryId),
    Bisect { left: Vec<EntryId>, right: Vec<EntryId> },
}

/// A candidate with nothing in it has no culprit to look for.
#[derive(Debug, Clone, Copy, PartialEq, Eq, Structural)]
pub struct NothingToBisect;

impl NothingToBisect {
    pub fn message(&self) -> (r: String)
        ensures
            r@ == "cannot bisect an empty candidate"@,
    {
        "cannot bisect an empty candidate".to_string()
    }
}

/// The half of a batch that is tried first.
pub open spec fn first_half(entries: Seq<EntryId>) -> Seq<EntryId> {
    entries.take((entries.len() / 2) as int)
}

/// The half of a batch that waits.
pub open spec fn second_half(entries: Seq<EntryId>) -> Seq<EntryId> {
    entries.skip((entries.len() / 2) as int)
}

/// Decide the next step after a failed candidate.
///
/// Merge order is preserved in both halves, because a batch is only meaningful
/// as an ordered sequence applied to the base.
pub fn bisect(entries: &[EntryId]) -> (r: Result<Verdict, NothingToBisect>)
    ensures
        match r {
            Err(_) => entries@.len() == 0,
            Ok(Verdict::Culprit(only)) => entries@ == seq![only],
            Ok(Verdict::Bisect { left, right }) => {
                &&& entries@.len() >= 2
                &&& left@ == first_half(entries@)
                &&& right@ == second_half(entries@)
            },
        },
{
    if entries.len() == 0 {
        Err(NothingToBisect)
    } else if entries.len() == 1 {
        assert(entries@ =~= seq![entries@[0]]);
        Ok(Verdict::Culprit(entries[0]))
    } else {
        let (left, right) = entries.split_at(entries.len() / 2);
        Ok(Verdict::Bisect { left: vstd::slice::slice_to_vec(left), right: vstd::slice::slice_to_vec(right) })
    }
}

/// Splitting a batch loses nothing and reorders nothing, and neither half is
/// empty or as large as the batch, so bisection always gets somewhere.
pub proof fn halves_partition(entries: Seq<EntryId>)
    requires
        entries.len() >= 2,
    ensures
        first_half(entries) + second_half(entries) == entries,
        0 < first_half(entries).len() < entries.len(),
        0 < second_half(entries).len() < entries.len(),
        second_half(entries).len() - first_half(entries).len() <= 1,
{
    assert(first_half(entries) + second_half(entries) =~= entries);
}

/// How many gate runs it takes to get from a batch down to one entry, always
/// following the larger half.
pub open spec fn rounds(n: nat) -> nat
    decreases n,
{
    if n <= 1 {
        0
    } else {
        1 + rounds((n - n / 2) as nat)
    }
}

proof fn rounds_monotonic(a: nat, b: nat)
    requires
        a <= b,
    ensures
        rounds(a) <= rounds(b),
    decreases b,
{
    if b >= 2 && a >= 2 {
        rounds_monotonic((a - a / 2) as nat, (b - b / 2) as nat);
    }
}

/// A failed batch of up to `2^k` entries is narrowed to one in at most `k`
/// further rounds, whichever half the culprit is in each time.
pub proof fn bisection_is_logarithmic(n: nat, k: nat)
    requires
        n <= vstd::arithmetic::power2::pow2(k),
    ensures
        rounds(n) <= k,
    decreases k,
{
    vstd::arithmetic::power2::lemma2_to64();
    if n >= 2 {
        if k == 0 {
            assert(false);
        } else {
            vstd::arithmetic::power2::lemma_pow2_unfold(k);
            let half = vstd::arithmetic::power2::pow2((k - 1) as nat);
            assert(n - n / 2 <= half);
            rounds_monotonic((n - n / 2) as nat, half);
            bisection_is_logarithmic((n - n / 2) as nat, (k - 1) as nat);
        }
    }
}

/// A batch that failed is pinned on its only entry, or split down the middle: the
/// first half is no larger than the second and at most one entry smaller, and both
/// together, one after the other, are the batch.
pub proof fn a_failed_batch_is_narrowed(entries: &[EntryId], r: Result<Verdict, NothingToBisect>)
    requires
        call_ensures(bisect, (entries,), r),
    ensures
        r is Err <==> entries@.len() == 0,
        (r matches Ok(Verdict::Culprit(_))) <==> entries@.len() == 1,
        r matches Ok(Verdict::Culprit(only)) ==> only == entries@[0],
        r matches Ok(Verdict::Bisect { left, right }) ==> {
            &&& left@ + right@ == entries@
            &&& left@.len() <= right@.len() <= left@.len() + 1
        },
{
    if let Ok(Verdict::Bisect { left, right }) = r {
        halves_partition(entries@);
    }
}

} // verus!
