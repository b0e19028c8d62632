//! What the queue database says in text, and which migrations it still needs.

use vstd::prelude::*;

use crate::seqs;
use crate::text;
use crate::time::four_digit_year;
use crate::time::on_calendar;
use crate::time::read_back;
use crate::time::written;
use crate::time::Instant;
use crate::time::Timestamp;

verus! {

/// A text that is not a timestamp.
#[derive(Debug, PartialEq, Eq)]
pub struct BadStamp {
    pub raw: String,
}

impl BadStamp {
    pub fn message(&self) -> (r: String)
        ensures
            r@ == "parsing the timestamp "@ + text::quoted_text(self.raw@),
    {
        let mut r = "parsing the timestamp ".to_string();
        r.append(&text::quoted(&self.raw));
        r
    }
}

/// Fixed-width UTC, so a text timestamp column orders the same way the instants
/// do and can be compared with plain inequalities. That holds from year 0 to
/// year 9999; a stamp keeps microseconds.
pub fn stamp(at: &Timestamp) -> (r: String)
    ensures
        r@ == written(at@),
        four_digit_year(at@.secs) ==> r@.len() == 27,
        four_digit_year(at@.secs) ==> read_back(r@) == Some(at@.in_micros()),
        four_digit_year(at@.secs) ==> forall|other: Instant|
            on_calendar(other.secs, other.nanos) && four_digit_year(other.secs) ==> (
            #[trigger] text::text_before(r@, written(other)) <==> at@.in_micros().before(
                other.in_micros(),
            )),
{
    at.to_rfc3339()
}

/// Read a stamp.
pub fn parse_stamp(raw: &str) -> (r: Result<Timestamp, BadStamp>)
    ensures
        match r {
            Ok(at) => read_back(raw@) == Some(at@),
            Err(e) => e.raw@ == raw@ && read_back(raw@) is None,
        },
{
    match Timestamp::from_rfc3339(raw) {
        Some(at) => Ok(at),
        None => Err(BadStamp { raw: raw.to_string() }),
    }
}

/// The versions of the schema, each reached by one migration: the initial
/// tables, the worker lease, a relaxed rule about when a candidate must name a
/// commit, and the retained tail of a pruned log.
pub open spec fn versions() -> Seq<i32> {
    seq![1i32, 2, 3, 4]
}

/// The migrations that a database at some version still needs.
pub open spec fn pending_from(current: i32) -> Seq<i32> {
    versions().filter(|v: i32| v > current)
}

/// The migrations that a database at some version still needs, in the order in
/// which they are applied.
pub fn pending(current: i32) -> (r: Vec<i32>)
    ensures
        r@ == pending_from(current),
{
    let all: [i32; 4] = [1, 2, 3, 4];
    let mut r: Vec<i32> = Vec::new();
    let ghost newer = |v: i32| v > current;
    assert(all@ =~= versions());
    proof {
        reveal(Seq::filter);
    }
    for i in 0..all.len()
        invariant
            all@ == versions(),
            newer == (|v: i32| v > current),
            r@ == versions().take(i as int).filter(newer),
    {
        proof {
            seqs::filter_take(versions(), i as int, newer);
        }
        if all[i] > current {
            r.push(all[i]);
        }
    }
    assert(versions().take(4) =~= versions());
    r
}

/// A migration that left rows with a dangling reference. It is rolled back.
#[derive(Debug, Clone, Copy, PartialEq, Eq, Structural)]
pub struct Dangling {
    pub rows: i64,
}

impl Dangling {
    pub fn message(&self) -> (r: String)
        ensures
            r@ == "migrating left "@ + text::integer(self.rows as int)
                + " row(s) with a dangling reference; rolled back"@,
    {
        let mut r = "migrating left ".to_string();
        r.append(&text::integer_text(self.rows));
        r.append(" row(s) with a dangling reference; rolled back");
        r
    }
}

/// Whether what migrations left may be committed. References go unchecked while
/// they run, so the result is checked rather than trusted.
pub fn accept(violations: i64) -> (r: Result<(), Dangling>)
    ensures
        r == (if violations > 0 {
            Err::<(), Dangling>(Dangling { rows: violations })
        } else {
            Ok(())
        }),
{
    if violations > 0 {
        Err(Dangling { rows: violations })
    } else {
        Ok(())
    }
}

/// Migrating is idempotent: a database that has had every migration it needed
/// needs none.
pub proof fn migrating_is_idempotent(current: i32)
    ensures
        pending_from(current).len() > 0 ==> pending_from(pending_from(current).last()).len() == 0,
        current >= 4 ==> pending_from(current).len() == 0,
{
    let newer = |v: i32| v > current;
    assert forall|v: i32| v >= 4 implies (#[trigger] pending_from(v)).len() == 0 by {
        let over = |w: i32| w > v;
        seqs::filter_none(versions(), over);
    }
    if pending_from(current).len() > 0 {
        seqs::filter_nonempty(versions(), newer);
        seqs::filter_take(versions(), 3, newer);
        assert(versions().take(4) =~= versions());
        assert(newer(versions()[3]));
    }
}

/// The migrations that are still needed are all those after the version that is
/// there, from the next one to the last, in order.
pub proof fn what_is_needed_is_what_comes_after(current: i32, r: Vec<i32>)
    requires
        call_ensures(pending, (current,), r),
    ensures
        ({
            let from: int = if current < 0 {
                0
            } else {
                current as int
            };
            &&& r@.len() == (if from >= 4 {
                0
            } else {
                4 - from
            })
            &&& forall|i: int| 0 <= i < r@.len() ==> #[trigger] r@[i] == from + 1 + i
        }),
{
    let newer = |v: i32| v > current;
    reveal(Seq::filter);
    seqs::filter_take(versions(), 0, newer);
    seqs::filter_take(versions(), 1, newer);
    seqs::filter_take(versions(), 2, newer);
    seqs::filter_take(versions(), 3, newer);
    assert(versions().take(0) =~= Seq::<i32>::empty());
    assert(versions().take(0).filter(newer) =~= Seq::<i32>::empty());
    assert(versions().take(4) =~= versions());
}

/// What migrations left is committed exactly where no row has a dangling
/// reference, and how many have one is said.
pub proof fn nothing_dangling_is_committed(violations: i64, r: Result<(), Dangling>)
    requires
        call_ensures(accept, (violations,), r),
    ensures
        r is Ok <==> violations <= 0,
        r matches Err(d) ==> d.rows == violations,
{
}

/// A stamp reads back as the instant it was made of, to the microsecond.
pub proof fn a_stamp_reads_back(
    at: &Timestamp,
    written_as: String,
    raw: &str,
    r: Result<Timestamp, BadStamp>,
)
    requires
        four_digit_year(at@.secs),
        call_ensures(stamp, (at,), written_as),
        raw@ == written_as@,
        call_ensures(parse_stamp, (raw,), r),
    ensures
        written_as@.len() == 27,
        r matches Ok(t) && t@.secs == at@.secs && t@.nanos == at@.nanos - at@.nanos % 1000,
{
}

} // verus!
