//! Text as sequences of characters.
//!
//! Strings are opaque to the verifier beyond their characters, so everything
//! that takes a string apart works on a vector of characters and everything
//! that builds one appends to a string.

use vstd::prelude::*;

verus! {

/// `String::push` appends the given character to the end of the string.
pub assume_specification[ String::push ](s: &mut String, c: char)
    ensures
        final(s)@ == old(s)@.push(c),
;

/// The characters with Unicode's `White_Space` property.
pub open spec fn is_white_space(c: char) -> bool {
    ||| '\u{9}' <= c <= '\u{d}'
    ||| c == ' '
    ||| c == '\u{85}'
    ||| c == '\u{a0}'
    ||| c == '\u{1680}'
    ||| '\u{2000}' <= c <= '\u{200a}'
    ||| c == '\u{2028}'
    ||| c == '\u{2029}'
    ||| c == '\u{202f}'
    ||| c == '\u{205f}'
    ||| c == '\u{3000}'
}

/// Whether a character is white space.
pub fn white_space(c: char) -> (r: bool)
    ensures
        r == is_white_space(c),
{
    ('\u{9}' <= c && c <= '\u{d}') || c == ' ' || c == '\u{85}' || c == '\u{a0}' || c == '\u{1680}'
        || ('\u{2000}' <= c && c <= '\u{200a}') || c == '\u{2028}' || c == '\u{2029}' || c
        == '\u{202f}' || c == '\u{205f}' || c == '\u{3000}'
}

/// A text without the white space at either end.
pub open spec fn trimmed(s: Seq<char>) -> Seq<char>
    decreases s.len(),
{
    if s.len() == 0 {
        s
    } else if is_white_space(s.first()) {
        trimmed(s.drop_first())
    } else if is_white_space(s.last()) {
        trimmed(s.drop_last())
    } else {
        s
    }
}

/// The characters of a string.
pub fn chars_of(s: &str) -> (r: Vec<char>)
    ensures
        r@ == s@,
{
    let mut r: Vec<char> = Vec::new();
    for c in it: s.chars()
        invariant
            r@ == s@.take(it.index() as int),
            it.seq() == s@,
    {
        r.push(c);
        assert(s@.take(it.index() + 1) =~= s@.take(it.index() as int).push(c));
    }
    assert(s@.take(s@.len() as int) =~= s@);
    r
}

/// The string made of these characters.
pub fn text_of(chars: &[char]) -> (r: String)
    ensures
        r@ == chars@,
{
    let mut r = String::new();
    for i in 0..chars.len()
        invariant
            r@ == chars@.take(i as int),
    {
        r.push(chars[i]);
        assert(chars@.take(i + 1) =~= chars@.take(i as int).push(chars@[i as int]));
    }
    assert(chars@.take(chars@.len() as int) =~= chars@);
    r
}

/// Whether two strings hold the same characters.
pub fn same(a: &str, b: &str) -> (r: bool)
    ensures
        r == (a@ == b@),
{
    a.to_string() == b.to_string()
}

/// The text without the white space at either end.
pub fn trim(s: &str) -> (r: String)
    ensures
        r@ == trimmed(s@),
{
    let chars = chars_of(s);
    let mut from: usize = 0;
    let mut to: usize = chars.len();
    assert(chars@.subrange(0, to as int) =~= s@);
    while from < to && white_space(chars[from])
        invariant
            from <= to == chars.len(),
            trimmed(chars@.subrange(from as int, to as int)) == trimmed(s@),
        decreases to - from,
    {
        proof {
            let now = chars@.subrange(from as int, to as int);
            assert(now.drop_first() =~= chars@.subrange(from + 1, to as int));
        }
        from = from + 1;
    }
    while from < to && white_space(chars[to - 1])
        invariant
            from <= to <= chars.len(),
            from < to ==> !is_white_space(chars@[from as int]),
            trimmed(chars@.subrange(from as int, to as int)) == trimmed(s@),
        decreases to - from,
    {
        proof {
            let now = chars@.subrange(from as int, to as int);
            assert(now.drop_last() =~= chars@.subrange(from as int, to - 1));
        }
        to = to - 1;
    }
    text_of(vstd::slice::slice_subrange(chars.as_slice(), from, to))
}

/// A string spelled the way source code spells it: in quotes, escaped.
pub uninterp spec fn quoted_text(s: Seq<char>) -> Seq<char>;

/// `format!` with `{:?}` on a string slice. Only that the spelling is a
/// function of the string is claimed; what the escapes look like is not.
#[verifier::external_body]
pub(crate) fn quoted(s: &str) -> (r: String)
    ensures
        r@ == quoted_text(s@),
{
    format!("{s:?}")
}

/// Bytes as text, with what is not valid UTF-8 shown approximately.
pub uninterp spec fn lossy_text(bytes: Seq<u8>) -> Seq<char>;

/// `String::from_utf8_lossy`. Of valid UTF-8 it is the text. Of anything else it
/// shows U+FFFD for what is not valid; how much of it one U+FFFD stands in for is
/// not stated.
#[verifier::external_body]
pub(crate) fn lossy(bytes: &[u8]) -> (r: String)
    ensures
        r@ == lossy_text(bytes@),
        vstd::utf8::valid_utf8(bytes@) ==> r@ == vstd::utf8::decode_utf8(bytes@),
        !vstd::utf8::valid_utf8(bytes@) ==> r@.contains('\u{fffd}'),
{
    String::from_utf8_lossy(bytes).into_owned()
}

/// Whether a character is one of `0` to `9`.
pub open spec fn is_digit(c: char) -> bool {
    '0' <= c <= '9'
}

/// The character for a digit.
pub open spec fn digit(d: nat) -> char {
    (48 + d) as char
}

/// A number written in base ten, without leading zeros.
pub open spec fn decimal(n: nat) -> Seq<char>
    decreases n,
{
    if n < 10 {
        seq![digit(n)]
    } else {
        decimal(n / 10).push(digit(n % 10))
    }
}

/// A number below a power of ten has no more digits than that power has zeros.
pub proof fn decimal_is_short(n: nat, k: nat)
    requires
        k >= 1,
        n < vstd::arithmetic::power::pow(10, k),
    ensures
        1 <= decimal(n).len() <= k,
    decreases n,
{
    reveal(vstd::arithmetic::power::pow);
    if n >= 10 {
        assert(k > 1) by {
            if k == 1 {
                assert(vstd::arithmetic::power::pow(10, 0) == 1);
                assert(vstd::arithmetic::power::pow(10, 1) == 10);
            }
        }
        decimal_is_short(n / 10, (k - 1) as nat);
    }
}

/// A number of 64 bits has at most twenty digits, each of them ASCII.
pub proof fn decimal_of_64_bits(n: u64)
    ensures
        1 <= decimal(n as nat).len() <= 20,
        vstd::utf8::is_ascii_chars(decimal(n as nat)),
{
    assert(vstd::arithmetic::power::pow(10, 20) == 100_000_000_000_000_000_000) by {
        reveal(vstd::arithmetic::power::pow);
        reveal_with_fuel(vstd::arithmetic::power::pow, 21);
    }
    decimal_is_short(n as nat, 20);
    decimal_is_ascii(n as nat);
}

proof fn decimal_is_ascii(n: nat)
    ensures
        vstd::utf8::is_ascii_chars(decimal(n)),
    decreases n,
{
    if n >= 10 {
        decimal_is_ascii(n / 10);
    }
}

/// An integer written in base ten, with a minus sign where it is negative.
pub open spec fn integer(n: int) -> Seq<char> {
    if n < 0 {
        seq!['-'] + decimal((-n) as nat)
    } else {
        decimal(n as nat)
    }
}

/// The number that a run of digits writes in base ten.
pub open spec fn digits_value(s: Seq<char>) -> nat
    decreases s.len(),
{
    if s.len() == 0 {
        0
    } else {
        (digits_value(s.drop_last()) * 10 + (s.last() as int - 48)) as nat
    }
}

/// Whether a text is made of digits alone.
pub open spec fn all_digits(s: Seq<char>) -> bool {
    forall|i: int| 0 <= i < s.len() ==> is_digit(#[trigger] s[i])
}

/// A number written in base ten is digits alone, and reads back as itself.
pub proof fn decimal_reads_back(n: nat)
    ensures
        decimal(n).len() > 0,
        all_digits(decimal(n)),
        digits_value(decimal(n)) == n,
    decreases n,
{
    if n < 10 {
        assert(decimal(n).drop_last() =~= Seq::<char>::empty());
        assert(digits_value(decimal(n).drop_last()) == 0);
    } else {
        decimal_reads_back(n / 10);
        assert(decimal(n).drop_last() =~= decimal(n / 10));
    }
}

/// Different integers are written differently; an integer starts with a digit or
/// a minus sign and goes on with digits.
pub proof fn integers_differ(a: int, b: int)
    ensures
        integer(a) == integer(b) <==> a == b,
        integer(a).len() > 0,
        forall|i: int| 1 <= i < integer(a).len() ==> is_digit(#[trigger] integer(a)[i]),
        integer(a)[0] == '-' || is_digit(integer(a)[0]),
{
    let x = if a < 0 {
        (-a) as nat
    } else {
        a as nat
    };
    let y = if b < 0 {
        (-b) as nat
    } else {
        b as nat
    };
    decimal_reads_back(x);
    decimal_reads_back(y);
    assert(is_digit(decimal(x)[0]) && is_digit(decimal(y)[0]));
    if a < 0 {
        assert(integer(a).skip(1) =~= decimal(x));
        assert forall|i: int| 1 <= i < integer(a).len() implies is_digit(
            #[trigger] integer(a)[i],
        ) by {
            assert(integer(a)[i] == decimal(x)[i - 1]);
        }
    }
    if b < 0 {
        assert(integer(b).skip(1) =~= decimal(y));
    }
    if integer(a) == integer(b) {
        assert(integer(a)[0] == integer(b)[0]);
    }
}

/// The number in base ten.
pub fn decimal_text(n: u64) -> (r: String)
    ensures
        r@ == decimal(n as nat),
    decreases n,
{
    if n < 10 {
        let mut r = String::new();
        r.push((48u8 + n as u8) as char);
        r
    } else {
        let mut r = decimal_text(n / 10);
        r.push((48u8 + (n % 10) as u8) as char);
        r
    }
}

/// The integer in base ten.
pub fn integer_text(n: i64) -> (r: String)
    ensures
        r@ == integer(n as int),
{
    if n < 0 {
        let magnitude: u64 = (-(n as i128)) as u64;
        let mut r = String::new();
        r.push('-');
        r.append(&decimal_text(magnitude));
        r
    } else {
        decimal_text(n as u64)
    }
}

/// The number that digits write, where 64 bits hold it.
pub fn digits_number(digits: &[char]) -> (r: Option<u64>)
    requires
        all_digits(digits@),
    ensures
        r == (if digits_value(digits@) <= u64::MAX {
            Some(digits_value(digits@) as u64)
        } else {
            None
        }),
{
    let mut value: u64 = 0;
    for i in 0..digits.len()
        invariant
            all_digits(digits@),
            value == digits_value(digits@.take(i as int)),
    {
        let d: u64 = digits[i] as u64 - 48;
        proof {
            assert(digits@.take(i + 1).drop_last() =~= digits@.take(i as int));
        }
        let shifted: Option<u64> = value.checked_mul(10);
        let next: Option<u64> = match shifted {
            Some(v) => v.checked_add(d),
            None => None,
        };
        match next {
            Some(v) => {
                value = v;
            },
            None => {
                proof {
                    digits_value_grows(digits@, i + 1);
                }
                return None;
            },
        }
    }
    assert(digits@.take(digits@.len() as int) =~= digits@);
    Some(value)
}

proof fn digits_value_grows(s: Seq<char>, n: int)
    requires
        all_digits(s),
        0 <= n <= s.len(),
    ensures
        digits_value(s.take(n)) <= digits_value(s),
    decreases s.len() - n,
{
    if n < s.len() {
        assert(s.take(n + 1).drop_last() =~= s.take(n));
        digits_value_grows(s, n + 1);
    } else {
        assert(s.take(n) =~= s);
    }
}

/// The characters of each string of a list.
pub open spec fn texts(list: Seq<String>) -> Seq<Seq<char>> {
    Seq::new(list.len(), |i: int| list[i]@)
}

/// The characters of a string that may not be there.
pub open spec fn optional(s: Option<String>) -> Option<Seq<char>> {
    match s {
        Some(s) => Some(s@),
        None => None,
    }
}

/// A copy of a string that may not be there.
pub fn copy_optional(s: &Option<String>) -> (r: Option<String>)
    ensures
        r == *s,
{
    match s {
        Some(s) => Some(s.clone()),
        None => None,
    }
}

/// Texts one after the other, with a separator between neighbours.
pub open spec fn joined(parts: Seq<Seq<char>>, separator: Seq<char>) -> Seq<char>
    decreases parts.len(),
{
    if parts.len() == 0 {
        Seq::empty()
    } else if parts.len() == 1 {
        parts[0]
    } else {
        joined(parts.drop_last(), separator) + separator + parts.last()
    }
}

/// The strings one after the other, with a separator between neighbours.
pub fn join(parts: &[String], separator: &str) -> (r: String)
    ensures
        r@ == joined(texts(parts@), separator@),
{
    let mut r = String::new();
    for i in 0..parts.len()
        invariant
            r@ == joined(texts(parts@).take(i as int), separator@),
    {
        let ghost upto = texts(parts@).take(i + 1);
        assert(upto.drop_last() =~= texts(parts@).take(i as int));
        if i > 0 {
            r.append(separator);
        }
        r.append(&parts[i]);
        assert(r@ =~= joined(upto, separator@));
    }
    assert(texts(parts@).take(parts@.len() as int) =~= texts(parts@));
    r
}

/// A text followed by as many spaces as bring it to a width.
pub open spec fn padded(s: Seq<char>, width: nat) -> Seq<char> {
    if s.len() >= width {
        s
    } else {
        s + Seq::new((width - s.len()) as nat, |i: int| ' ')
    }
}

/// The string, brought to a width by spaces at its end.
pub fn pad(s: &str, width: usize) -> (r: String)
    ensures
        r@ == padded(s@, width as nat),
{
    let length: usize = chars_of(s).len();
    let mut r = s.to_string();
    let mut at: usize = length;
    while at < width
        invariant
            length == s@.len(),
            length <= at,
            at <= width || at == length,
            r@ == s@ + Seq::new((at - length) as nat, |i: int| ' '),
        decreases width - at,
    {
        r.push(' ');
        at = at + 1;
        assert(r@ =~= s@ + Seq::new((at - length) as nat, |i: int| ' '));
    }
    assert(r@ =~= padded(s@, width as nat));
    r
}

/// An ASCII letter in upper case; any other character as it is.
pub open spec fn upper(c: char) -> char {
    if 'a' <= c <= 'z' {
        (c as int - 32) as char
    } else {
        c
    }
}

/// An ASCII letter in lower case; any other character as it is.
pub open spec fn lower(c: char) -> char {
    if 'A' <= c <= 'Z' {
        (c as int + 32) as char
    } else {
        c
    }
}

/// A text with its ASCII letters in upper case.
pub open spec fn uppercased(s: Seq<char>) -> Seq<char> {
    Seq::new(s.len(), |i: int| upper(s[i]))
}

/// A text with its ASCII letters in lower case.
pub open spec fn lowercased(s: Seq<char>) -> Seq<char> {
    Seq::new(s.len(), |i: int| lower(s[i]))
}

/// The string with its ASCII letters in upper case.
pub fn to_upper(s: &str) -> (r: String)
    ensures
        r@ == uppercased(s@),
{
    let chars = chars_of(s);
    let mut r = String::new();
    for i in 0..chars.len()
        invariant
            chars@ == s@,
            r@ == uppercased(s@).take(i as int),
    {
        let c: char = chars[i];
        if 'a' <= c && c <= 'z' {
            r.push((c as u8 - 32) as char);
        } else {
            r.push(c);
        }
        assert(r@ =~= uppercased(s@).take(i + 1));
    }
    assert(r@ =~= uppercased(s@));
    r
}

/// The string with its ASCII letters in lower case.
pub fn to_lower(s: &str) -> (r: String)
    ensures
        r@ == lowercased(s@),
{
    let chars = chars_of(s);
    let mut r = String::new();
    for i in 0..chars.len()
        invariant
            chars@ == s@,
            r@ == lowercased(s@).take(i as int),
    {
        let c: char = chars[i];
        if 'A' <= c && c <= 'Z' {
            r.push((c as u8 + 32) as char);
        } else {
            r.push(c);
        }
        assert(r@ =~= lowercased(s@).take(i + 1));
    }
    assert(r@ =~= lowercased(s@));
    r
}

/// Whether a text begins with another.
pub open spec fn begins_with(s: Seq<char>, prefix: Seq<char>) -> bool {
    s.len() >= prefix.len() && s.take(prefix.len() as int) == prefix
}

/// One text comes before another in the order of their characters.
pub open spec fn text_before(a: Seq<char>, b: Seq<char>) -> bool {
    exists|i: int|
        {
            &&& 0 <= i < b.len()
            &&& i <= a.len()
            &&& #[trigger] a.take(i) == b.take(i)
            &&& i < a.len() ==> a[i] < b[i]
        }
}

/// Whether one string comes before another in the order of their characters.
pub fn is_before(a: &str, b: &str) -> (r: bool)
    ensures
        r == text_before(a@, b@),
{
    let x = chars_of(a);
    let y = chars_of(b);
    let mut i: usize = 0;
    while i < x.len() && i < y.len() && x[i] == y[i]
        invariant
            x@ == a@,
            y@ == b@,
            i <= x@.len(),
            i <= y@.len(),
            a@.take(i as int) =~= b@.take(i as int),
        decreases x.len() - i,
    {
        assert(a@.take(i + 1) =~= a@.take(i as int).push(a@[i as int]));
        assert(b@.take(i + 1) =~= b@.take(i as int).push(b@[i as int]));
        i = i + 1;
    }
    let r = i < y.len() && (i == x.len() || x[i] < y[i]);
    proof {
        if r {
            assert(a@.take(i as int) == b@.take(i as int));
        } else if text_before(a@, b@) {
            let k = choose|k: int|
                {
                    &&& 0 <= k < b@.len()
                    &&& k <= a@.len()
                    &&& #[trigger] a@.take(k) == b@.take(k)
                    &&& k < a@.len() ==> a@[k] < b@[k]
                };
            if k < i {
                assert(a@.take(i as int)[k] == b@.take(i as int)[k]);
            } else if k > i {
                assert(a@.take(k)[i as int] == b@.take(k)[i as int]);
            }
        }
    }
    r
}

/// Whether a text occurs in another.
pub open spec fn occurs(s: Seq<char>, part: Seq<char>) -> bool {
    exists|i: int| 0 <= i <= s.len() && #[trigger] begins_with(s.skip(i), part)
}

/// Whether one string occurs in another.
pub fn contains(s: &str, part: &str) -> (r: bool)
    ensures
        r == occurs(s@, part@),
{
    let chars = chars_of(s);
    let wanted = chars_of(part);
    let mut i: usize = 0;
    while i <= chars.len()
        invariant
            chars@ == s@,
            wanted@ == part@,
            i <= chars@.len() + 1,
            forall|k: int| 0 <= k < i ==> !begins_with(#[trigger] s@.skip(k), part@),
        decreases chars.len() + 1 - i,
    {
        let rest = text_of(vstd::slice::slice_subrange(chars.as_slice(), i, chars.len()));
        assert(rest@ =~= s@.skip(i as int));
        if strip_prefix(&rest, part).is_some() {
            return true;
        }
        if i == chars.len() {
            return false;
        }
        i = i + 1;
    }
    false
}

/// The lines that a text ends, without the carriage return that may stand in
/// front of the line feed.
pub open spec fn closed_lines(s: Seq<char>) -> Seq<Seq<char>>
    decreases s.len(),
{
    if s.len() == 0 {
        Seq::empty()
    } else if s.last() == '\n' {
        closed_lines(s.drop_last()).push(without_return(last_line(s.drop_last())))
    } else {
        closed_lines(s.drop_last())
    }
}

/// What follows the last line that a text ends.
pub open spec fn last_line(s: Seq<char>) -> Seq<char>
    decreases s.len(),
{
    if s.len() == 0 || s.last() == '\n' {
        Seq::empty()
    } else {
        last_line(s.drop_last()).push(s.last())
    }
}

/// A text without a carriage return at its end.
pub open spec fn without_return(s: Seq<char>) -> Seq<char> {
    if s.len() > 0 && s.last() == '\r' {
        s.drop_last()
    } else {
        s
    }
}

/// The lines of a text. A line that nothing ends counts if there is anything in
/// it.
pub open spec fn text_lines(s: Seq<char>) -> Seq<Seq<char>> {
    if last_line(s).len() > 0 {
        closed_lines(s).push(last_line(s))
    } else {
        closed_lines(s)
    }
}

/// A text without a line break.
pub open spec fn one_line(s: Seq<char>) -> bool {
    forall|i: int| 0 <= i < s.len() ==> #[trigger] s[i] != '\n'
}

/// A line that nothing ends holds no line break.
proof fn last_line_is_one_line(s: Seq<char>)
    ensures
        one_line(last_line(s)),
    decreases s.len(),
{
    if s.len() > 0 {
        last_line_is_one_line(s.drop_last());
    }
}

/// Lines that are ended hold no line break.
proof fn closed_lines_are_one_line(s: Seq<char>)
    ensures
        forall|i: int| 0 <= i < closed_lines(s).len() ==> one_line(#[trigger] closed_lines(s)[i]),
    decreases s.len(),
{
    if s.len() > 0 {
        let rest = s.drop_last();
        closed_lines_are_one_line(rest);
        last_line_is_one_line(rest);
        assert forall|i: int| 0 <= i < closed_lines(s).len() implies one_line(
            #[trigger] closed_lines(s)[i],
        ) by {
            if i < closed_lines(rest).len() {
                assert(one_line(closed_lines(rest)[i]));
            }
        }
    }
}

/// No line of a text holds a line break.
pub proof fn lines_are_one_line(s: Seq<char>)
    ensures
        forall|i: int| 0 <= i < text_lines(s).len() ==> one_line(#[trigger] text_lines(s)[i]),
{
    closed_lines_are_one_line(s);
    last_line_is_one_line(s);
}

/// Lines put one after the other, with no line break between them, are one line.
pub proof fn joined_is_one_line(parts: Seq<Seq<char>>, separator: Seq<char>)
    requires
        one_line(separator),
        forall|i: int| 0 <= i < parts.len() ==> one_line(#[trigger] parts[i]),
    ensures
        one_line(joined(parts, separator)),
    decreases parts.len(),
{
    if parts.len() > 1 {
        let rest = parts.drop_last();
        assert forall|i: int| 0 <= i < rest.len() implies one_line(#[trigger] rest[i]) by {
            assert(one_line(parts[i]));
        }
        joined_is_one_line(rest, separator);
        assert(one_line(parts[parts.len() - 1]));
    } else if parts.len() == 1 {
        assert(one_line(parts[0]));
    }
}

/// A number is written on one line.
pub proof fn integer_is_one_line(n: int)
    ensures
        one_line(integer(n)),
{
    if n >= 0 {
        decimal_is_one_line(n as nat);
    } else {
        decimal_is_one_line((-n) as nat);
    }
}

proof fn decimal_is_one_line(n: nat)
    ensures
        one_line(decimal(n)),
    decreases n,
{
    if n >= 10 {
        decimal_is_one_line(n / 10);
    }
}

/// The lines of a string.
pub fn lines(s: &str) -> (r: Vec<String>)
    ensures
        texts(r@) == text_lines(s@),
{
    let chars = chars_of(s);
    let mut r: Vec<String> = Vec::new();
    let mut line: Vec<char> = Vec::new();
    assert(texts(r@) =~= closed_lines(s@.take(0)));
    for i in 0..chars.len()
        invariant
            chars@ == s@,
            texts(r@) == closed_lines(s@.take(i as int)),
            line@ == last_line(s@.take(i as int)),
    {
        let c: char = chars[i];
        let ghost before = s@.take(i as int);
        assert(s@.take(i + 1).drop_last() =~= before);
        assert(s@.take(i + 1).last() == c);
        if c == '\n' {
            let ghost had = r@;
            let mut n: usize = line.len();
            if n > 0 && line[n - 1] == '\r' {
                n = n - 1;
            }
            let text = text_of(vstd::slice::slice_subrange(line.as_slice(), 0, n));
            assert(text@ =~= without_return(line@));
            r.push(text);
            assert(texts(r@) =~= texts(had).push(text@));
            line = Vec::new();
        } else {
            line.push(c);
        }
    }
    assert(s@.take(s@.len() as int) =~= s@);
    if line.len() > 0 {
        let ghost had = r@;
        let text = text_of(line.as_slice());
        r.push(text);
        assert(texts(r@) =~= texts(had).push(text@));
    }
    r
}

/// What follows the prefix, where the string begins with it.
pub fn strip_prefix(s: &str, prefix: &str) -> (r: Option<String>)
    ensures
        r is Some <==> begins_with(s@, prefix@),
        r matches Some(rest) ==> rest@ == s@.skip(prefix@.len() as int),
{
    let chars = chars_of(s);
    let lead = chars_of(prefix);
    if chars.len() < lead.len() {
        return None;
    }
    for i in 0..lead.len()
        invariant
            chars@ == s@,
            lead@ == prefix@,
            lead.len() <= chars.len(),
            s@.take(i as int) =~= prefix@.take(i as int),
    {
        if chars[i] != lead[i] {
            proof {
                if s@.take(prefix@.len() as int) == prefix@ {
                    assert(s@.take(prefix@.len() as int)[i as int] == prefix@[i as int]);
                }
            }
            return None;
        }
        assert(s@.take(i + 1) =~= s@.take(i as int).push(s@[i as int]));
        assert(prefix@.take(i + 1) =~= prefix@.take(i as int).push(prefix@[i as int]));
    }
    assert(prefix@.take(prefix@.len() as int) =~= prefix@);
    Some(text_of(vstd::slice::slice_subrange(chars.as_slice(), lead.len(), chars.len())))
}

} // verus!
