//! Instants and spans of time, as plain numbers.

use vstd::prelude::*;

use crate::text::text_before;

use chrono::DateTime;
use chrono::SecondsFormat;
use chrono::TimeDelta;

verus! {

/// The first second of the calendar that instants are kept in.
pub const FIRST_SECOND: i64 = -8_334_601_228_800;

/// The last second of the calendar that instants are kept in.
pub const LAST_SECOND: i64 = 8_210_266_876_799;

/// The first second of year 0.
pub const YEAR_ZERO: i64 = -62_167_219_200;

/// The last second of year 9999.
pub const YEAR_9999_END: i64 = 253_402_300_799;

/// Whether seconds and nanoseconds since the Unix epoch name an instant of the
/// calendar. A leap second is the last second of its minute with a nanosecond
/// count of a whole second and more.
pub open spec fn on_calendar(secs: i64, nanos: u32) -> bool {
    &&& FIRST_SECOND <= secs <= LAST_SECOND
    &&& nanos < 1_000_000_000 || (nanos < 2_000_000_000 && secs as int % 60 == 59)
}

/// Whether an instant falls in a year that four digits write.
pub open spec fn four_digit_year(secs: i64) -> bool {
    YEAR_ZERO <= secs <= YEAR_9999_END
}

/// An instant, in seconds and nanoseconds since the Unix epoch.
#[derive(Debug, Clone, Copy, PartialEq, Eq, PartialOrd, Ord, Structural)]
pub struct Timestamp {
    secs: i64,
    nanos: u32,
}

/// A length of time that is not negative.
#[derive(Debug, Clone, Copy, PartialEq, Eq, PartialOrd, Ord, Structural)]
pub struct Span {
    pub secs: u64,
    pub nanos: u32,
}

impl Span {
    pub open spec fn zero(self) -> bool {
        self.secs == 0 && self.nanos == 0
    }

    pub fn from_secs(secs: u64) -> (r: Self)
        ensures
            r == (Span { secs, nanos: 0 }),
    {
        Span { secs, nanos: 0 }
    }

    pub fn is_zero(&self) -> (r: bool)
        ensures
            r == self.zero(),
    {
        self.secs == 0 && self.nanos == 0
    }
}

/// An instant as a pair of numbers.
pub struct Instant {
    pub secs: i64,
    pub nanos: u32,
}

impl Instant {
    /// One instant comes before another.
    pub open spec fn before(self, other: Instant) -> bool {
        self.secs < other.secs || (self.secs == other.secs && self.nanos < other.nanos)
    }

    /// The instant, cut down to whole microseconds.
    pub open spec fn in_micros(self) -> Instant {
        Instant { secs: self.secs, nanos: (self.nanos / 1000 * 1000) as u32 }
    }

    /// How many nanoseconds since the Unix epoch, where 64 bits hold that.
    pub open spec fn unix_nanos(self) -> Option<int> {
        let whole = if self.secs < 0 {
            (self.secs + 1) * 1_000_000_000
        } else {
            self.secs * 1_000_000_000
        };
        let total = self.secs * 1_000_000_000 + self.nanos;
        if i64::MIN <= whole <= i64::MAX && i64::MIN <= total <= i64::MAX {
            Some(total)
        } else {
            None
        }
    }

    /// Whole seconds from one instant to a later one; nothing where the other
    /// is not later.
    pub open spec fn seconds_until(self, later: Instant) -> int {
        let between = seconds_between(self.secs, self.nanos, later.secs, later.nanos);
        if between < 0 {
            0
        } else {
            between as int
        }
    }
}

/// How the instant is written in RFC 3339, in UTC with six fractional digits.
pub uninterp spec fn rfc3339_micros(secs: i64, nanos: u32) -> Seq<char>;

/// The instant that a text in RFC 3339 names, if it is one.
pub uninterp spec fn rfc3339_instant(s: Seq<char>) -> Option<(i64, u32)>;

/// The instant a number of seconds and nanoseconds after another.
pub uninterp spec fn instant_plus(secs: i64, nanos: u32, more_secs: i64, more_nanos: u32) -> Option<
    (i64, u32),
>;

/// The whole seconds from one instant to another.
pub uninterp spec fn seconds_between(secs: i64, nanos: u32, to_secs: i64, to_nanos: u32) -> i64;

/// `DateTime::to_rfc3339_opts`, in microseconds and with a `Z`. Of a year that
/// four digits write, the text is 27 characters wide, reads back through
/// [`parse_rfc3339`] as the instant cut down to microseconds, and comes before
/// another such text exactly when its instant does.
#[verifier::external_body]
fn write_rfc3339(secs: i64, nanos: u32) -> (r: String)
    requires
        on_calendar(secs, nanos),
    ensures
        r@ == rfc3339_micros(secs, nanos),
        four_digit_year(secs) ==> r@.len() == 27,
        four_digit_year(secs) ==> rfc3339_instant(r@) == Some(
            (secs, (nanos / 1000 * 1000) as u32),
        ),
        four_digit_year(secs) ==> forall|s: i64, n: u32|
            on_calendar(s, n) && four_digit_year(s) ==> (#[trigger] text_before(
                r@,
                rfc3339_micros(s, n),
            ) <==> secs < s || (secs == s && nanos / 1000 < n / 1000)),
{
    let at = DateTime::from_timestamp(secs, nanos).unwrap();
    at.to_rfc3339_opts(SecondsFormat::Micros, true)
}

/// `DateTime::parse_from_rfc3339`. What it accepts is not stated, only that it
/// is a function of the text and names an instant of the calendar.
#[verifier::external_body]
fn parse_rfc3339(s: &str) -> (r: Option<(i64, u32)>)
    ensures
        r == rfc3339_instant(s@),
        r matches Some((secs, nanos)) ==> on_calendar(secs, nanos),
{
    let at = DateTime::parse_from_rfc3339(s).ok()?;
    Some((at.timestamp(), at.timestamp_subsec_nanos()))
}

/// `DateTime::checked_add_signed` with a span that is not negative. Outside a
/// leap second it adds the numbers and carries, and gives nothing where the
/// calendar ends before the sum. What it makes of a leap second is not stated.
#[verifier::external_body]
fn add_to_instant(secs: i64, nanos: u32, more_secs: i64, more_nanos: u32) -> (r: Option<(i64, u32)>)
    requires
        on_calendar(secs, nanos),
        more_secs >= 0,
        more_nanos < 1_000_000_000,
    ensures
        r == instant_plus(secs, nanos, more_secs, more_nanos),
        r matches Some((s, n)) ==> on_calendar(s, n),
        nanos < 1_000_000_000 ==> ({
            let whole = secs + more_secs + (nanos + more_nanos) / 1_000_000_000;
            r == (if whole <= LAST_SECOND {
                Some((whole as i64, ((nanos + more_nanos) % 1_000_000_000) as u32))
            } else {
                None
            })
        }),
{
    let more = TimeDelta::new(more_secs, more_nanos)?;
    let sum = DateTime::from_timestamp(secs, nanos)?.checked_add_signed(more)?;
    Some((sum.timestamp(), sum.timestamp_subsec_nanos()))
}

/// `DateTime::signed_duration_since` and its `num_seconds`. Between instants
/// that are no leap seconds it is the difference, cut to whole seconds towards
/// zero. What it makes of a leap second is not stated.
#[verifier::external_body]
fn whole_seconds(secs: i64, nanos: u32, to_secs: i64, to_nanos: u32) -> (r: i64)
    requires
        on_calendar(secs, nanos),
        on_calendar(to_secs, to_nanos),
    ensures
        r == seconds_between(secs, nanos, to_secs, to_nanos),
        nanos < 1_000_000_000 && to_nanos < 1_000_000_000 ==> ({
            let apart = (to_secs - secs) * 1_000_000_000 + to_nanos - nanos;
            r == (if apart < 0 {
                -((-apart) / 1_000_000_000)
            } else {
                apart / 1_000_000_000
            })
        }),
{
    let from = DateTime::from_timestamp(secs, nanos).unwrap();
    let to = DateTime::from_timestamp(to_secs, to_nanos).unwrap();
    to.signed_duration_since(from).num_seconds()
}

impl View for Timestamp {
    type V = Instant;

    closed spec fn view(&self) -> Instant {
        Instant { secs: self.secs, nanos: self.nanos }
    }
}

impl Timestamp {
    #[verifier::type_invariant]
    spec fn on_the_calendar(self) -> bool {
        on_calendar(self.secs, self.nanos)
    }

    /// The instant, if the calendar has it.
    pub fn new(secs: i64, nanos: u32) -> (r: Option<Self>)
        ensures
            r is Some <==> on_calendar(secs, nanos),
            r matches Some(t) ==> t@ == (Instant { secs, nanos }),
    {
        if secs < FIRST_SECOND || secs > LAST_SECOND || nanos >= 2_000_000_000 {
            return None;
        }
        if nanos >= 1_000_000_000 {
            // Euclidean remainder, whichever side of the epoch.
            let minute: i64 = secs - FIRST_SECOND;
            proof {
                assert(FIRST_SECOND as int % 60 == 0);
                assert((secs - FIRST_SECOND) % 60 == secs as int % 60);
            }
            if minute % 60 != 59 {
                return None;
            }
        }
        Some(Timestamp { secs, nanos })
    }

    pub fn secs(&self) -> (r: i64)
        ensures
            r == self@.secs,
            on_calendar(self@.secs, self@.nanos),
    {
        proof {
            use_type_invariant(self);
        }
        self.secs
    }

    pub fn nanos(&self) -> (r: u32)
        ensures
            r == self@.nanos,
            on_calendar(self@.secs, self@.nanos),
    {
        proof {
            use_type_invariant(self);
        }
        self.nanos
    }

    /// Whether this instant comes before the other.
    pub fn is_before(&self, other: &Timestamp) -> (r: bool)
        ensures
            r == self@.before(other@),
    {
        self.secs < other.secs || (self.secs == other.secs && self.nanos < other.nanos)
    }

    /// The instant a span later, if the calendar has it.
    pub fn plus(&self, span: Span) -> (r: Option<Self>)
        ensures
            match r {
                Some(t) => plus(self@, span) == Some(t@) && on_calendar(t@.secs, t@.nanos),
                None => plus(self@, span) is None,
            },
            self@.nanos < 1_000_000_000 && span.nanos < 1_000_000_000 ==> ({
                let whole = self@.secs + span.secs + (self@.nanos + span.nanos) / 1_000_000_000;
                &&& r is Some <==> whole <= LAST_SECOND
                &&& r matches Some(t) ==> t@ == (Instant {
                    secs: whole as i64,
                    nanos: ((self@.nanos + span.nanos) % 1_000_000_000) as u32,
                })
            }),
    {
        proof {
            use_type_invariant(self);
        }
        if span.secs > 0x7fff_ffff_ffff_ffff || span.nanos >= 1_000_000_000 {
            return None;
        }
        match add_to_instant(self.secs, self.nanos, span.secs as i64, span.nanos) {
            Some((secs, nanos)) => Some(Timestamp { secs, nanos }),
            None => None,
        }
    }

    /// How many nanoseconds since the Unix epoch, where 64 bits hold that.
    pub fn unix_nanos(&self) -> (r: Option<i64>)
        ensures
            match r {
                Some(n) => self@.unix_nanos() == Some(n as int),
                None => self@.unix_nanos() is None,
            },
    {
        let whole: i128 = if self.secs < 0 {
            (self.secs as i128 + 1) * 1_000_000_000
        } else {
            self.secs as i128 * 1_000_000_000
        };
        let total: i128 = self.secs as i128 * 1_000_000_000 + self.nanos as i128;
        let least: i128 = i64::MIN as i128;
        let most: i128 = i64::MAX as i128;
        if least <= whole && whole <= most && least <= total && total <= most {
            Some(total as i64)
        } else {
            None
        }
    }

    /// Whole seconds from this instant to a later one; nothing if the other is
    /// not later.
    pub fn seconds_until(&self, later: &Timestamp) -> (r: u64)
        ensures
            r == self@.seconds_until(later@),
            self@.nanos < 1_000_000_000 && later@.nanos < 1_000_000_000 ==> ({
                let apart = (later@.secs - self@.secs) * 1_000_000_000 + later@.nanos - self@.nanos;
                r == (if apart < 0 {
                    0
                } else {
                    apart / 1_000_000_000
                })
            }),
    {
        proof {
            use_type_invariant(self);
            use_type_invariant(later);
        }
        let between: i64 = whole_seconds(self.secs, self.nanos, later.secs, later.nanos);
        if between < 0 {
            0
        } else {
            between as u64
        }
    }

    /// Written in RFC 3339: fixed-width UTC, so that texts order the same way
    /// the instants do.
    pub fn to_rfc3339(&self) -> (r: String)
        ensures
            r@ == rfc3339_micros(self@.secs, self@.nanos),
            four_digit_year(self@.secs) ==> r@.len() == 27,
            four_digit_year(self@.secs) ==> read_back(r@) == Some(self@.in_micros()),
            four_digit_year(self@.secs) ==> forall|other: Instant|
                on_calendar(other.secs, other.nanos) && four_digit_year(other.secs) ==> (
                #[trigger] text_before(r@, written(other)) <==> self@.in_micros().before(
                    other.in_micros(),
                )),
    {
        proof {
            use_type_invariant(self);
        }
        let r = write_rfc3339(self.secs, self.nanos);
        proof {
            if four_digit_year(self.secs) {
                assert forall|other: Instant|
                    on_calendar(other.secs, other.nanos) && four_digit_year(other.secs) implies (
                #[trigger] text_before(r@, written(other)) <==> self@.in_micros().before(
                    other.in_micros(),
                )) by {
                    assert(written(other) == rfc3339_micros(other.secs, other.nanos));
                    assert(text_before(r@, rfc3339_micros(other.secs, other.nanos)) <==> self.secs
                        < other.secs || (self.secs == other.secs && self.nanos / 1000
                        < other.nanos / 1000));
                }
            }
        }
        r
    }

    /// Read from RFC 3339.
    pub fn from_rfc3339(s: &str) -> (r: Option<Self>)
        ensures
            match r {
                Some(t) => read_back(s@) == Some(t@) && on_calendar(t@.secs, t@.nanos),
                None => read_back(s@) is None,
            },
    {
        match parse_rfc3339(s) {
            Some((secs, nanos)) => Some(Timestamp { secs, nanos }),
            None => None,
        }
    }
}

/// The sum of an instant and a span: nothing where a span is too long or its
/// nanoseconds make a second, or where the calendar ends first.
pub open spec fn plus(at: Instant, span: Span) -> Option<Instant> {
    if span.secs > i64::MAX || span.nanos >= 1_000_000_000 {
        None
    } else {
        match instant_plus(at.secs, at.nanos, span.secs as i64, span.nanos) {
            Some((secs, nanos)) => Some(Instant { secs, nanos }),
            None => None,
        }
    }
}

/// An instant as it is written down.
pub open spec fn written(at: Instant) -> Seq<char> {
    rfc3339_micros(at.secs, at.nanos)
}

/// The instant that a text names.
pub open spec fn read_back(s: Seq<char>) -> Option<Instant> {
    match rfc3339_instant(s) {
        Some((secs, nanos)) => Some(Instant { secs, nanos }),
        None => None,
    }
}

/// An instant and a span make a later instant, carried into whole seconds, as far
/// as the calendar goes.
pub proof fn time_passes(at: &Timestamp, span: Span, r: Option<Timestamp>)
    requires
        call_ensures(Timestamp::plus, (at, span), r),
        at@.nanos < 1_000_000_000,
        span.nanos < 1_000_000_000,
    ensures
        r matches Some(t) ==> t@.secs * 1_000_000_000 + t@.nanos == (at@.secs + span.secs)
            * 1_000_000_000 + at@.nanos + span.nanos && t@.nanos < 1_000_000_000,
        r is None <==> at@.secs + span.secs + (at@.nanos + span.nanos) / 1_000_000_000
            > LAST_SECOND,
{
}

/// One instant comes before another where its seconds do, or where they agree and
/// its nanoseconds do.
pub proof fn instants_are_ordered(a: &Timestamp, b: &Timestamp, r: bool)
    requires
        call_ensures(Timestamp::is_before, (a, b), r),
    ensures
        r <==> a@.secs < b@.secs || (a@.secs == b@.secs && a@.nanos < b@.nanos),
{
}

/// The whole seconds until a later instant are as many as fit in between, and none
/// where the other is not later.
pub proof fn seconds_that_are_left(a: &Timestamp, b: &Timestamp, r: u64)
    requires
        call_ensures(Timestamp::seconds_until, (a, b), r),
        a@.nanos < 1_000_000_000,
        b@.nanos < 1_000_000_000,
    ensures
        ({
            let apart = (b@.secs - a@.secs) * 1_000_000_000 + b@.nanos - a@.nanos;
            &&& apart >= 0 ==> r * 1_000_000_000 <= apart < (r + 1) * 1_000_000_000
            &&& apart < 0 ==> r == 0
        }),
{
}

/// The nanoseconds since the epoch are those of the whole seconds and the rest,
/// where 64 bits hold them.
pub proof fn nanoseconds_since_the_epoch(at: &Timestamp, r: Option<i64>)
    requires
        call_ensures(Timestamp::unix_nanos, (at,), r),
    ensures
        r matches Some(n) ==> n == at@.secs * 1_000_000_000 + at@.nanos,
        0 <= at@.secs <= 9_000_000_000 && at@.nanos < 1_000_000_000 ==> r is Some,
        -9_000_000_000 <= at@.secs < 0 && at@.nanos < 1_000_000_000 ==> r is Some,
{
}

/// An instant of a year that four digits write is written in one width, reads
/// back to the microsecond, and comes before a later one in writing too.
pub proof fn instants_are_written_in_order(
    a: &Timestamp,
    b: &Timestamp,
    x: String,
    y: String,
    read: &str,
    r: Option<Timestamp>,
)
    requires
        call_ensures(Timestamp::to_rfc3339, (a,), x),
        call_ensures(Timestamp::to_rfc3339, (b,), y),
        read@ == x@,
        call_ensures(Timestamp::from_rfc3339, (read,), r),
        on_calendar(a@.secs, a@.nanos),
        on_calendar(b@.secs, b@.nanos),
        four_digit_year(a@.secs),
        four_digit_year(b@.secs),
    ensures
        x@.len() == y@.len(),
        text_before(x@, y@) <==> a@.secs < b@.secs || (a@.secs == b@.secs && a@.nanos / 1000
            < b@.nanos / 1000),
        r matches Some(t) && t@.secs == a@.secs && t@.nanos == a@.nanos - a@.nanos % 1000,
{
    assert(y@ == written(b@));
    assert(text_before(x@, written(b@)) <==> a@.in_micros().before(b@.in_micros()));
}

} // verus!
