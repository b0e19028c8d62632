//! Facts about sequences that the rest of the library leans on.

use vstd::prelude::*;

verus! {

/// Filtering takes a sequence one item at a time.
pub proof fn filter_push<A>(s: Seq<A>, x: A, pred: spec_fn(A) -> bool)
    ensures
        s.push(x).filter(pred) == (if pred(x) {
            s.filter(pred).push(x)
        } else {
            s.filter(pred)
        }),
{
    reveal(Seq::filter);
    assert(s.push(x).drop_last() =~= s);
}

/// Filtering up to and including an item.
pub proof fn filter_take<A>(s: Seq<A>, i: int, pred: spec_fn(A) -> bool)
    requires
        0 <= i < s.len(),
    ensures
        s.take(i + 1).filter(pred) == (if pred(s[i]) {
            s.take(i).filter(pred).push(s[i])
        } else {
            s.take(i).filter(pred)
        }),
{
    assert(s.take(i + 1) =~= s.take(i).push(s[i]));
    filter_push(s.take(i), s[i], pred);
}

/// Filtering what all passes changes nothing.
pub proof fn filter_all<A>(s: Seq<A>, pred: spec_fn(A) -> bool)
    requires
        forall|i: int| 0 <= i < s.len() ==> pred(#[trigger] s[i]),
    ensures
        s.filter(pred) == s,
    decreases s.len(),
{
    reveal(Seq::filter);
    if s.len() > 0 {
        let rest = s.drop_last();
        assert forall|i: int| 0 <= i < rest.len() implies pred(#[trigger] rest[i]) by {
            assert(pred(s[i]));
        }
        filter_all(rest, pred);
        assert(pred(s[s.len() - 1]));
        assert(rest.push(s.last()) =~= s);
    }
}

/// Filtering what all passes but for one item takes out that item.
pub proof fn filter_but_one<A>(s: Seq<A>, pred: spec_fn(A) -> bool, k: int)
    requires
        0 <= k < s.len(),
        !pred(s[k]),
        forall|i: int| 0 <= i < s.len() && i != k ==> pred(#[trigger] s[i]),
    ensures
        s.filter(pred) == s.remove(k),
    decreases s.len(),
{
    reveal(Seq::filter);
    let rest = s.drop_last();
    assert forall|i: int| 0 <= i < rest.len() && i != k implies pred(#[trigger] rest[i]) by {
        assert(pred(s[i]));
    }
    if k == s.len() - 1 {
        filter_all(rest, pred);
        assert(s.remove(k) =~= rest);
    } else {
        filter_but_one(rest, pred, k);
        assert(pred(s[s.len() - 1]));
        assert(s.remove(k) =~= rest.remove(k).push(s.last()));
    }
}

/// The first item that passes leads what is filtered.
pub proof fn filter_first<A>(s: Seq<A>, pred: spec_fn(A) -> bool, k: int)
    requires
        0 <= k < s.len(),
        pred(s[k]),
        forall|i: int| 0 <= i < k ==> !pred(#[trigger] s[i]),
    ensures
        s.filter(pred).len() > 0,
        s.filter(pred)[0] == s[k],
    decreases s.len(),
{
    reveal(Seq::filter);
    let rest = s.drop_last();
    if k == s.len() - 1 {
        filter_none(rest, pred);
    } else {
        filter_first(rest, pred, k);
    }
}

/// Filtering what never passes leaves nothing.
pub proof fn filter_none<A>(s: Seq<A>, pred: spec_fn(A) -> bool)
    requires
        forall|i: int| 0 <= i < s.len() ==> !pred(#[trigger] s[i]),
    ensures
        s.filter(pred) == Seq::<A>::empty(),
    decreases s.len(),
{
    reveal(Seq::filter);
    if s.len() > 0 {
        let rest = s.drop_last();
        assert forall|i: int| 0 <= i < rest.len() implies !pred(#[trigger] rest[i]) by {
            assert(!pred(s[i]));
        }
        filter_none(rest, pred);
        assert(!pred(s[s.len() - 1]));
    } else {
        assert(s =~= Seq::<A>::empty());
    }
}

/// Whether a filtered sequence has something in it.
pub proof fn filter_nonempty<A>(s: Seq<A>, pred: spec_fn(A) -> bool)
    ensures
        s.filter(pred).len() > 0 <==> exists|i: int| 0 <= i < s.len() && pred(#[trigger] s[i]),
        s.filter(pred).len() > 0 ==> pred(s.filter(pred)[0]) && s.contains(s.filter(pred)[0]),
    decreases s.len(),
{
    reveal(Seq::filter);
    if s.len() > 0 {
        let rest = s.drop_last();
        filter_nonempty(rest, pred);
        if exists|i: int| 0 <= i < rest.len() && pred(#[trigger] rest[i]) {
            let i = choose|i: int| 0 <= i < rest.len() && pred(#[trigger] rest[i]);
            assert(pred(s[i]));
            let k = choose|k: int| 0 <= k < rest.len() && rest[k] == rest.filter(pred)[0];
            assert(s[k] == rest.filter(pred)[0]);
        }
        if pred(s.last()) {
            assert(pred(s[s.len() - 1]));
        }
        if exists|i: int| 0 <= i < s.len() && pred(#[trigger] s[i]) {
            let i = choose|i: int| 0 <= i < s.len() && pred(#[trigger] s[i]);
            if i < rest.len() {
                assert(pred(rest[i]));
            }
        }
    }
}

/// A sequence with an item put in from the end: in front of everything at the
/// end that it comes before.
pub open spec fn inserted<A>(s: Seq<A>, x: A, before: spec_fn(A, A) -> bool) -> Seq<A>
    decreases s.len(),
{
    if s.len() > 0 && before(x, s.last()) {
        inserted(s.drop_last(), x, before).push(s.last())
    } else {
        s.push(x)
    }
}

/// A sequence put in order, with items that come before neither of each other
/// left in the order in which they stood.
pub open spec fn ordered<A>(s: Seq<A>, before: spec_fn(A, A) -> bool) -> Seq<A>
    decreases s.len(),
{
    if s.len() == 0 {
        s
    } else {
        inserted(ordered(s.drop_last(), before), s.last(), before)
    }
}

/// Putting an item in means finding its place.
pub proof fn inserted_at<A>(s: Seq<A>, x: A, before: spec_fn(A, A) -> bool, k: int)
    requires
        0 <= k <= s.len(),
        k > 0 ==> !before(x, s[k - 1]),
        forall|i: int| k <= i < s.len() ==> before(x, #[trigger] s[i]),
    ensures
        inserted(s, x, before) == s.insert(k, x),
    decreases s.len(),
{
    if k < s.len() {
        let rest = s.drop_last();
        assert(before(x, s[s.len() - 1]));
        inserted_at(rest, x, before, k);
        assert(s.insert(k, x) =~= rest.insert(k, x).push(s.last()));
    } else {
        assert(s.insert(k, x) =~= s.push(x));
    }
}

/// Putting a sequence in order takes it one item at a time.
pub proof fn ordered_push<A>(s: Seq<A>, x: A, before: spec_fn(A, A) -> bool)
    ensures
        ordered(s.push(x), before) == inserted(ordered(s, before), x, before),
{
    assert(s.push(x).drop_last() =~= s);
}

/// Putting an item in adds just that item.
pub proof fn inserted_adds<A>(s: Seq<A>, x: A, before: spec_fn(A, A) -> bool)
    ensures
        inserted(s, x, before).to_multiset() == s.to_multiset().insert(x),
        inserted(s, x, before).len() == s.len() + 1,
    decreases s.len(),
{
    broadcast use vstd::seq_lib::group_to_multiset_ensures;

    if s.len() > 0 && before(x, s.last()) {
        let rest = s.drop_last();
        inserted_adds(rest, x, before);
        assert(s =~= rest.push(s.last()));
        assert(s.to_multiset() =~= rest.to_multiset().insert(s.last()));
        assert(inserted(s, x, before).to_multiset() =~= rest.to_multiset().insert(x).insert(
            s.last(),
        ));
        assert(inserted(s, x, before).to_multiset() =~= s.to_multiset().insert(x));
    } else {
        assert(s.push(x).to_multiset() =~= s.to_multiset().insert(x));
    }
}

/// Putting a sequence in order loses nothing and adds nothing.
pub proof fn ordered_keeps<A>(s: Seq<A>, before: spec_fn(A, A) -> bool)
    ensures
        ordered(s, before).to_multiset() == s.to_multiset(),
        ordered(s, before).len() == s.len(),
    decreases s.len(),
{
    broadcast use vstd::seq_lib::group_to_multiset_ensures;

    if s.len() > 0 {
        ordered_keeps(s.drop_last(), before);
        inserted_adds(ordered(s.drop_last(), before), s.last(), before);
        assert(s =~= s.drop_last().push(s.last()));
        assert(s.to_multiset() =~= s.drop_last().to_multiset().insert(s.last()));
    }
}

/// An order in which no two items come before each other, and in which not
/// coming before carries on from one item to the next.
pub open spec fn is_order<A>(before: spec_fn(A, A) -> bool) -> bool {
    &&& forall|a: A, b: A| #[trigger] before(a, b) ==> !before(b, a)
    &&& forall|a: A, b: A, c: A|
        !(#[trigger] before(b, a)) && !(#[trigger] before(c, b)) ==> !before(c, a)
}

/// Nothing comes before what stands in front of it.
pub open spec fn is_ordered<A>(s: Seq<A>, before: spec_fn(A, A) -> bool) -> bool {
    forall|i: int, j: int| 0 <= i < j < s.len() ==> !before(#[trigger] s[j], #[trigger] s[i])
}

proof fn inserted_is_ordered<A>(s: Seq<A>, x: A, before: spec_fn(A, A) -> bool)
    requires
        is_order(before),
        is_ordered(s, before),
    ensures
        is_ordered(inserted(s, x, before), before),
    decreases s.len(),
{
    let r = inserted(s, x, before);
    if s.len() > 0 && before(x, s.last()) {
        let rest = s.drop_last();
        assert forall|i: int, j: int| 0 <= i < j < rest.len() implies !before(
            #[trigger] rest[j],
            #[trigger] rest[i],
        ) by {
            assert(rest[j] == s[j] && rest[i] == s[i]);
        }
        inserted_is_ordered(rest, x, before);
        let front = inserted(rest, x, before);
        assert forall|i: int, j: int| 0 <= i < j < r.len() implies !before(
            #[trigger] r[j],
            #[trigger] r[i],
        ) by {
            if j < front.len() {
                assert(r[j] == front[j] && r[i] == front[i]);
            } else {
                assert(r[i] == front[i]);
                inserted_has(rest, x, before, i);
                if front[i] != x {
                    let k = choose|k: int| 0 <= k < rest.len() && rest[k] == front[i];
                    assert(s[k] == rest[k]);
                }
            }
        }
    } else {
        assert forall|i: int, j: int| 0 <= i < j < r.len() implies !before(
            #[trigger] r[j],
            #[trigger] r[i],
        ) by {
            if j == s.len() {
                if i < s.len() - 1 {
                    assert(!before(s[s.len() - 1], s[i]));
                    assert(!before(x, s[s.len() - 1]));
                }
            }
        }
    }
}

proof fn inserted_has<A>(s: Seq<A>, x: A, before: spec_fn(A, A) -> bool, i: int)
    requires
        0 <= i < inserted(s, x, before).len(),
    ensures
        inserted(s, x, before)[i] == x || exists|k: int|
            0 <= k < s.len() && s[k] == inserted(s, x, before)[i],
    decreases s.len(),
{
    if s.len() > 0 && before(x, s.last()) {
        let front = inserted(s.drop_last(), x, before);
        if i < front.len() {
            inserted_has(s.drop_last(), x, before, i);
            if front[i] != x {
                let k = choose|k: int| 0 <= k < s.drop_last().len() && s.drop_last()[k] == front[i];
                assert(s[k] == front[i]);
            }
        } else {
            assert(s[s.len() - 1] == inserted(s, x, before)[i]);
        }
    } else if i < s.len() {
        assert(s[i] == inserted(s, x, before)[i]);
    }
}

/// A sequence put in order is in order.
pub proof fn ordered_is_ordered<A>(s: Seq<A>, before: spec_fn(A, A) -> bool)
    requires
        is_order(before),
    ensures
        is_ordered(ordered(s, before), before),
    decreases s.len(),
{
    if s.len() > 0 {
        ordered_is_ordered(s.drop_last(), before);
        inserted_is_ordered(ordered(s.drop_last(), before), s.last(), before);
    }
}

/// What is in a sequence is in it put in order, and nothing else.
pub proof fn ordered_has<A>(s: Seq<A>, before: spec_fn(A, A) -> bool, x: A)
    ensures
        ordered(s, before).contains(x) <==> s.contains(x),
{
    broadcast use vstd::seq_lib::group_to_multiset_ensures;

    ordered_keeps(s, before);
    assert(s.contains(x) <==> s.to_multiset().count(x) > 0);
    assert(ordered(s, before).contains(x) <==> ordered(s, before).to_multiset().count(x) > 0);
}

} // verus!
