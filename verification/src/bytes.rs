//! A size in bytes, written the way people write sizes.
//!
//! Configuration is edited by hand, so `log_budget = "200MB"` has to work.
//! Accepting a bare integer as well keeps the setting precise when that matters.

use vstd::prelude::*;

use crate::text;
use crate::text::all_digits;
use crate::text::decimal;
use crate::text::digits_value;
use crate::text::is_digit;
use crate::text::trimmed;
use crate::text::uppercased;

verus! {

// Suffixes are powers of 1024, which is what someone writing "200MB" about disk
// almost always means.
pub const KB: u64 = 1024;

pub const MB: u64 = 1_048_576;

pub const GB: u64 = 1_073_741_824;

#[derive(Debug, Clone, Copy, PartialEq, Eq, PartialOrd, Ord, Structural)]
pub struct ByteSize {
    bytes: u64,
}

impl View for ByteSize {
    type V = u64;

    closed spec fn view(&self) -> u64 {
        self.bytes
    }
}

/// A text that is not a size.
#[derive(Debug, PartialEq, Eq)]
#[allow(inconsistent_fields)]
pub enum SizeError {
    Empty,
    NoNumber { raw: String },
    UnknownSuffix { suffix: String },
    NotWhole { number: String },
    TooLarge { raw: String },
}

/// How many digits a text starts with.
pub open spec fn leading_digits(s: Seq<char>) -> nat
    decreases s.len(),
{
    if s.len() > 0 && is_digit(s[0]) {
        1 + leading_digits(s.drop_first())
    } else {
        0
    }
}

/// A suffix as it is compared.
pub open spec fn suffix_of(s: Seq<char>) -> Seq<char> {
    uppercased(trimmed(s))
}

/// How many bytes a suffix stands for.
pub open spec fn unit_of(suffix: Seq<char>) -> Option<u64> {
    if suffix == ""@ || suffix == "B"@ {
        Some(1)
    } else if suffix == "K"@ || suffix == "KB"@ || suffix == "KIB"@ {
        Some(KB)
    } else if suffix == "M"@ || suffix == "MB"@ || suffix == "MIB"@ {
        Some(MB)
    } else if suffix == "G"@ || suffix == "GB"@ || suffix == "GIB"@ {
        Some(GB)
    } else {
        None
    }
}

/// The number of a written size.
pub open spec fn number_part(raw: Seq<char>) -> Seq<char> {
    trimmed(raw).take(leading_digits(trimmed(raw)) as int)
}

/// The suffix of a written size.
pub open spec fn suffix_part(raw: Seq<char>) -> Seq<char> {
    suffix_of(trimmed(raw).skip(leading_digits(trimmed(raw)) as int))
}

/// The bytes that a written size stands for, if it is one.
pub open spec fn size_read(raw: Seq<char>) -> Option<u64> {
    let value = digits_value(number_part(raw));
    match unit_of(suffix_part(raw)) {
        Some(unit) => if number_part(raw).len() > 0 && value <= u64::MAX && value * unit
            <= u64::MAX {
            Some((value * unit) as u64)
        } else {
            None
        },
        None => None,
    }
}

/// A size as it is written: in the largest unit that divides it exactly, and in
/// bytes otherwise.
pub open spec fn size_written(bytes: u64) -> Seq<char> {
    if bytes >= GB && bytes % GB == 0 {
        decimal((bytes / GB) as nat) + "GB"@
    } else if bytes >= MB && bytes % MB == 0 {
        decimal((bytes / MB) as nat) + "MB"@
    } else if bytes >= KB && bytes % KB == 0 {
        decimal((bytes / KB) as nat) + "KB"@
    } else {
        decimal(bytes as nat) + "B"@
    }
}

/// Where the digits at the front of a list end.
fn digits_end(chars: &Vec<char>) -> (r: usize)
    ensures
        r == leading_digits(chars@),
        r <= chars@.len(),
        all_digits(chars@.take(r as int)),
{
    let mut i: usize = 0;
    assert(chars@.skip(0) =~= chars@);
    while i < chars.len() && '0' <= chars[i] && chars[i] <= '9'
        invariant
            i <= chars@.len(),
            all_digits(chars@.take(i as int)),
            leading_digits(chars@) == i + leading_digits(chars@.skip(i as int)),
        decreases chars.len() - i,
    {
        assert(chars@.skip(i as int)[0] == chars@[i as int]);
        assert(chars@.skip(i as int).drop_first() =~= chars@.skip(i + 1));
        assert(chars@.take(i + 1) =~= chars@.take(i as int).push(chars@[i as int]));
        i = i + 1;
    }
    if i < chars.len() {
        assert(chars@.skip(i as int)[0] == chars@[i as int]);
    }
    i
}

impl ByteSize {
    pub fn new(bytes: u64) -> (r: Self)
        ensures
            r@ == bytes,
    {
        ByteSize { bytes }
    }

    pub fn bytes(self) -> (r: u64)
        ensures
            r == self@,
    {
        self.bytes
    }

    pub fn parse(raw: &str) -> (r: Result<Self, SizeError>)
        ensures
            match r {
                Ok(size) => size_read(raw@) == Some(size@),
                Err(SizeError::Empty) => trimmed(raw@).len() == 0,
                Err(SizeError::NoNumber { raw: given }) => given@ == raw@ && trimmed(raw@).len() > 0
                    && number_part(raw@).len() == 0,
                Err(SizeError::UnknownSuffix { suffix }) => {
                    &&& number_part(raw@).len() > 0
                    &&& suffix@ == suffix_part(raw@)
                    &&& unit_of(suffix@) is None
                },
                Err(SizeError::NotWhole { number }) => {
                    &&& number@ == number_part(raw@) && number@.len() > 0
                    &&& unit_of(suffix_part(raw@)) is Some
                    &&& digits_value(number@) > u64::MAX
                },
                Err(SizeError::TooLarge { raw: given }) => {
                    &&& given@ == raw@
                    &&& number_part(raw@).len() > 0
                    &&& digits_value(number_part(raw@)) <= u64::MAX
                    &&& unit_of(suffix_part(raw@)) matches Some(unit) && digits_value(
                        number_part(raw@),
                    ) * unit > u64::MAX
                },
            },
            r is Ok <==> size_read(raw@) is Some,
    {
        let text = text::trim(raw);
        let chars = text::chars_of(&text);
        if chars.len() == 0 {
            return Err(SizeError::Empty);
        }
        let end: usize = digits_end(&chars);
        if end == 0 {
            return Err(SizeError::NoNumber { raw: raw.to_string() });
        }
        let number = vstd::slice::slice_subrange(chars.as_slice(), 0, end);
        assert(number@ =~= number_part(raw@));
        let rest = vstd::slice::slice_subrange(chars.as_slice(), end, chars.len());
        assert(rest@ =~= trimmed(raw@).skip(end as int));
        let suffix = text::to_upper(&text::trim(&text::text_of(rest)));
        let unit: u64 = if text::same(&suffix, "") || text::same(&suffix, "B") {
            1
        } else if text::same(&suffix, "K") || text::same(&suffix, "KB") || text::same(
            &suffix,
            "KIB",
        ) {
            KB
        } else if text::same(&suffix, "M") || text::same(&suffix, "MB") || text::same(
            &suffix,
            "MIB",
        ) {
            MB
        } else if text::same(&suffix, "G") || text::same(&suffix, "GB") || text::same(
            &suffix,
            "GIB",
        ) {
            GB
        } else {
            return Err(SizeError::UnknownSuffix { suffix });
        };
        let value: u64 = match text::digits_number(number) {
            Some(value) => value,
            None => {
                return Err(SizeError::NotWhole { number: text::text_of(number) });
            },
        };
        match value.checked_mul(unit) {
            Some(bytes) => Ok(ByteSize { bytes }),
            None => Err(SizeError::TooLarge { raw: raw.to_string() }),
        }
    }

    /// Written in the largest unit that divides exactly, and in bytes otherwise,
    /// so anything printed here can be pasted straight back into a config file.
    /// A fractional form would read better and would not reparse.
    pub fn to_text(self) -> (r: String)
        ensures
            r@ == size_written(self@),
    {
        let bytes: u64 = self.bytes;
        if bytes >= GB && bytes % GB == 0 {
            let mut r = text::decimal_text(bytes / GB);
            r.append("GB");
            r
        } else if bytes >= MB && bytes % MB == 0 {
            let mut r = text::decimal_text(bytes / MB);
            r.append("MB");
            r
        } else if bytes >= KB && bytes % KB == 0 {
            let mut r = text::decimal_text(bytes / KB);
            r.append("KB");
            r
        } else {
            let mut r = text::decimal_text(bytes);
            r.append("B");
            r
        }
    }
}

impl SizeError {
    pub fn message(&self) -> (r: String)
        ensures
            r@ == match self {
                SizeError::Empty => "a size cannot be empty"@,
                SizeError::NoNumber { raw } => text::quoted_text(raw@)
                    + " does not start with a number"@,
                SizeError::UnknownSuffix { suffix } => text::quoted_text(suffix@)
                    + " is not a size suffix I know"@,
                SizeError::NotWhole { number } => text::quoted_text(number@)
                    + " is not a whole number"@,
                SizeError::TooLarge { raw } => text::quoted_text(raw@)
                    + " is too large to be a size in bytes"@,
            },
    {
        match self {
            SizeError::Empty => "a size cannot be empty".to_string(),
            SizeError::NoNumber { raw } => {
                let mut r = text::quoted(raw);
                r.append(" does not start with a number");
                r
            },
            SizeError::UnknownSuffix { suffix } => {
                let mut r = text::quoted(suffix);
                r.append(" is not a size suffix I know");
                r
            },
            SizeError::NotWhole { number } => {
                let mut r = text::quoted(number);
                r.append(" is not a whole number");
                r
            },
            SizeError::TooLarge { raw } => {
                let mut r = text::quoted(raw);
                r.append(" is too large to be a size in bytes");
                r
            },
        }
    }
}

proof fn leading_digits_stop(number: Seq<char>, rest: Seq<char>)
    requires
        all_digits(number),
        rest.len() > 0,
        !is_digit(rest[0]),
    ensures
        leading_digits(number + rest) == number.len(),
    decreases number.len(),
{
    if number.len() == 0 {
        assert(number + rest =~= rest);
    } else {
        assert((number + rest)[0] == number[0]);
        assert((number + rest).drop_first() =~= number.drop_first() + rest);
        assert(is_digit(number[0]));
        leading_digits_stop(number.drop_first(), rest);
    }
}

proof fn unit_reads_back(count: nat, suffix: Seq<char>, unit: u64)
    requires
        suffix == "GB"@ && unit == GB || suffix == "MB"@ && unit == MB || suffix == "KB"@ && unit
            == KB || suffix == "B"@ && unit == 1,
        count * unit <= u64::MAX,
    ensures
        size_read(decimal(count) + suffix) == Some((count * unit) as u64),
{
    reveal_strlit("");
    reveal_strlit("B");
    reveal_strlit("K");
    reveal_strlit("KB");
    reveal_strlit("KIB");
    reveal_strlit("M");
    reveal_strlit("MB");
    reveal_strlit("MIB");
    reveal_strlit("G");
    reveal_strlit("GB");
    reveal_strlit("GIB");
    text::decimal_reads_back(count);
    let written = decimal(count) + suffix;
    assert(is_digit(decimal(count)[0]));
    assert(written[0] == decimal(count)[0]);
    assert(written.last() == 'B');
    assert(trimmed(written) == written);
    leading_digits_stop(decimal(count), suffix);
    assert(written.take(decimal(count).len() as int) =~= decimal(count));
    assert(written.skip(decimal(count).len() as int) =~= suffix);
    assert(trimmed(suffix) == suffix);
    assert(uppercased(suffix) =~= suffix);
    let s = suffix_part(written);
    assert(s == suffix);
    if suffix == "KB"@ {
        assert(s != ""@ && s != "B"@);
    } else if suffix == "MB"@ {
        assert(s != ""@ && s != "B"@ && s != "K"@ && s != "KIB"@);
        assert(s[0] != "KB"@[0]);
    } else if suffix == "GB"@ {
        assert(s != ""@ && s != "B"@ && s != "K"@ && s != "KIB"@ && s != "M"@ && s != "MIB"@);
        assert(s[0] != "KB"@[0]);
        assert(s[0] != "MB"@[0]);
    }
    assert(unit_of(s) == Some(unit));
    assert(count <= u64::MAX) by (nonlinear_arith)
        requires
            count * unit <= u64::MAX,
            unit >= 1,
    ;
}

/// Every size as it is written reads back as itself.
pub proof fn sizes_read_back(bytes: u64)
    ensures
        size_read(size_written(bytes)) == Some(bytes),
{
    if bytes >= GB && bytes % GB == 0 {
        assert((bytes / GB) * GB == bytes);
        unit_reads_back((bytes / GB) as nat, "GB"@, GB);
    } else if bytes >= MB && bytes % MB == 0 {
        assert((bytes / MB) * MB == bytes);
        unit_reads_back((bytes / MB) as nat, "MB"@, MB);
    } else if bytes >= KB && bytes % KB == 0 {
        assert((bytes / KB) * KB == bytes);
        unit_reads_back((bytes / KB) as nat, "KB"@, KB);
    } else {
        unit_reads_back(bytes as nat, "B"@, 1);
    }
}

/// The word, in whichever case its letters are.
pub open spec fn spells(word: Seq<char>, wanted: Seq<char>) -> bool {
    word.len() == wanted.len() && forall|i: int|
        0 <= i < word.len() ==> (#[trigger] word[i] == wanted[i] || word[i] as int == wanted[i] as int
            + 32)
}

/// How many bytes one of a unit is: a letter for a power of 1024, alone or with
/// `B` or `iB` behind it; `B` or nothing for one byte.
pub open spec fn bytes_in(unit: Seq<char>) -> Option<nat> {
    if spells(unit, seq![]) || spells(unit, seq!['B']) {
        Some(1)
    } else if spells(unit, seq!['K']) || spells(unit, seq!['K', 'B']) || spells(
        unit,
        seq!['K', 'I', 'B'],
    ) {
        Some(1024)
    } else if spells(unit, seq!['M']) || spells(unit, seq!['M', 'B']) || spells(
        unit,
        seq!['M', 'I', 'B'],
    ) {
        Some(1024 * 1024)
    } else if spells(unit, seq!['G']) || spells(unit, seq!['G', 'B']) || spells(
        unit,
        seq!['G', 'I', 'B'],
    ) {
        Some(1024 * 1024 * 1024)
    } else {
        None
    }
}

/// A text in upper case is a word exactly where it spells the word.
proof fn spelling_is_upper_case(word: Seq<char>, wanted: Seq<char>)
    requires
        forall|i: int| 0 <= i < wanted.len() ==> 'A' <= #[trigger] wanted[i] <= 'Z',
    ensures
        spells(word, wanted) <==> uppercased(word) == wanted,
{
    if spells(word, wanted) {
        assert forall|i: int| 0 <= i < wanted.len() implies #[trigger] uppercased(word)[i]
            == wanted[i] by {
            assert(word[i] == wanted[i] || word[i] as int == wanted[i] as int + 32);
            crate::wording::case_is_of_letters(word, i);
        }
        assert(uppercased(word) =~= wanted);
    }
    if uppercased(word) == wanted {
        assert forall|i: int| 0 <= i < word.len() implies (#[trigger] word[i] == wanted[i]
            || word[i] as int == wanted[i] as int + 32) by {
            assert(uppercased(word)[i] == wanted[i]);
            crate::wording::case_is_of_letters(word, i);
        }
    }
}

proof fn units_are_units(unit: Seq<char>)
    ensures
        match bytes_in(unit) {
            Some(n) => unit_of(uppercased(unit)) matches Some(m) && m == n,
            None => unit_of(uppercased(unit)) is None,
        },
{
    reveal_strlit("");
    reveal_strlit("B");
    reveal_strlit("K");
    reveal_strlit("KB");
    reveal_strlit("KIB");
    reveal_strlit("M");
    reveal_strlit("MB");
    reveal_strlit("MIB");
    reveal_strlit("G");
    reveal_strlit("GB");
    reveal_strlit("GIB");
    assert(""@ =~= seq![]);
    assert("B"@ =~= seq!['B']);
    assert("K"@ =~= seq!['K']);
    assert("KB"@ =~= seq!['K', 'B']);
    assert("KIB"@ =~= seq!['K', 'I', 'B']);
    assert("M"@ =~= seq!['M']);
    assert("MB"@ =~= seq!['M', 'B']);
    assert("MIB"@ =~= seq!['M', 'I', 'B']);
    assert("G"@ =~= seq!['G']);
    assert("GB"@ =~= seq!['G', 'B']);
    assert("GIB"@ =~= seq!['G', 'I', 'B']);
    spelling_is_upper_case(unit, seq![]);
    spelling_is_upper_case(unit, seq!['B']);
    spelling_is_upper_case(unit, seq!['K']);
    spelling_is_upper_case(unit, seq!['K', 'B']);
    spelling_is_upper_case(unit, seq!['K', 'I', 'B']);
    spelling_is_upper_case(unit, seq!['M']);
    spelling_is_upper_case(unit, seq!['M', 'B']);
    spelling_is_upper_case(unit, seq!['M', 'I', 'B']);
    spelling_is_upper_case(unit, seq!['G']);
    spelling_is_upper_case(unit, seq!['G', 'B']);
    spelling_is_upper_case(unit, seq!['G', 'I', 'B']);
}

proof fn digits_all_lead(number: Seq<char>)
    requires
        all_digits(number),
    ensures
        leading_digits(number) == number.len(),
    decreases number.len(),
{
    if number.len() > 0 {
        assert(is_digit(number[0]));
        let rest = number.drop_first();
        assert forall|i: int| 0 <= i < rest.len() implies is_digit(#[trigger] rest[i]) by {
            assert(is_digit(number[i + 1]));
        }
        digits_all_lead(rest);
    }
}

/// A number and a unit, with white space around them and in between as anybody
/// likes, is as many bytes as the number says of that unit. It is refused exactly
/// where there is no such unit, or where the bytes are more than can be counted.
pub proof fn a_size_is_a_number_of_units(
    lead: Seq<char>,
    number: Seq<char>,
    gap: Seq<char>,
    unit: Seq<char>,
    trail: Seq<char>,
    raw: &str,
    r: Result<ByteSize, SizeError>,
)
    requires
        crate::wording::is_blank(lead),
        crate::wording::is_blank(gap),
        crate::wording::is_blank(trail),
        number.len() > 0,
        all_digits(number),
        unit.len() > 0 ==> !is_digit(unit[0]) && !text::is_white_space(unit[0])
            && !text::is_white_space(unit[unit.len() - 1]),
        raw@ == lead + number + gap + unit + trail,
        call_ensures(ByteSize::parse, (raw,), r),
    ensures
        r is Ok <==> (bytes_in(unit) matches Some(n) && digits_value(number) * n <= u64::MAX),
        r matches Ok(size) ==> bytes_in(unit) matches Some(n) && size@ == digits_value(number) * n,
{
    let none = Seq::<char>::empty();
    let rest = gap + unit;
    let k = number.len() as int;
    assert(is_digit(number[0]) && is_digit(number[k - 1]));
    if unit.len() > 0 {
        let middle = number + rest;
        assert(raw@ =~= lead + middle + trail);
        assert(middle[0] == number[0]);
        assert(middle[middle.len() - 1] == unit[unit.len() - 1]);
        crate::wording::trimming_leaves_the_middle(lead, middle, trail);
        assert(rest[0] == if gap.len() > 0 {
            gap[0]
        } else {
            unit[0]
        });
        leading_digits_stop(number, rest);
        assert(middle.take(k) =~= number);
        assert(middle.skip(k) =~= rest);
        assert(rest =~= gap + unit + none);
        crate::wording::trimming_leaves_the_middle(gap, unit, none);
    } else {
        let end = gap + trail;
        assert(unit =~= none);
        assert(raw@ =~= lead + number + end);
        assert forall|i: int| 0 <= i < end.len() implies text::is_white_space(#[trigger] end[i]) by {
            if i < gap.len() {
                assert(end[i] == gap[i]);
            } else {
                assert(end[i] == trail[i - gap.len()]);
            }
        }
        crate::wording::trimming_leaves_the_middle(lead, number, end);
        digits_all_lead(number);
        assert(number.take(k) =~= number);
        assert(number.skip(k) =~= none);
        assert(trimmed(none) =~= none);
    }
    assert(number_part(raw@) == number);
    assert(suffix_part(raw@) == uppercased(unit));
    units_are_units(unit);
    let value = digits_value(number);
    if let Some(n) = bytes_in(unit) {
        assert(value * n <= u64::MAX ==> value <= u64::MAX) by (nonlinear_arith)
            requires
                n >= 1,
        ;
    }
}

/// What does not begin with a digit, white space aside, is no size.
pub proof fn a_size_begins_with_a_number(raw: &str, r: Result<ByteSize, SizeError>)
    requires
        call_ensures(ByteSize::parse, (raw,), r),
        trimmed(raw@).len() == 0 || !is_digit(trimmed(raw@)[0]),
    ensures
        r is Err,
        trimmed(raw@).len() == 0 ==> r->Err_0 is Empty,
        trimmed(raw@).len() > 0 ==> r->Err_0 is NoNumber,
{
}

} // verus!
