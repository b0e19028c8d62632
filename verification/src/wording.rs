//! What the operations on texts are for.

use vstd::prelude::*;

use crate::text::all_digits;
use crate::text::begins_with;
use crate::text::closed_lines;
use crate::text::decimal;
use crate::text::digit;
use crate::text::digits_value;
use crate::text::integer;
use crate::text::is_white_space;
use crate::text::joined;
use crate::text::last_line;
use crate::text::lowercased;
use crate::text::occurs;
use crate::text::one_line;
use crate::text::padded;
use crate::text::text_before;
use crate::text::text_lines;
use crate::text::trimmed;
use crate::text::uppercased;
use crate::text::without_return;

verus! {

/// Every character of a text is white space.
pub open spec fn is_blank(s: Seq<char>) -> bool {
    forall|i: int| 0 <= i < s.len() ==> is_white_space(#[trigger] s[i])
}

/// White space is what Unicode says it is: the controls that move to the right or
/// to another line, the space, and the spaces and separators beyond ASCII. Letters,
/// digits and signs are none of it.
pub proof fn white_space_is(c: char)
    ensures
        is_white_space(c) <==> {
            ||| '\t' <= c <= '\r'
            ||| c == ' ' || c == '\u{85}' || c == '\u{a0}' || c == '\u{1680}'
            ||| '\u{2000}' <= c <= '\u{200a}'
            ||| c == '\u{2028}' || c == '\u{2029}' || c == '\u{202f}' || c == '\u{205f}' || c
                == '\u{3000}'
        },
{
}

/// Trimming cuts the white space at either end and nothing else: whatever stands
/// between two characters that are none is left as it was.
pub proof fn trimming_leaves_the_middle(lead: Seq<char>, middle: Seq<char>, trail: Seq<char>)
    requires
        is_blank(lead),
        is_blank(trail),
        middle.len() > 0 ==> !is_white_space(middle[0]) && !is_white_space(
            middle[middle.len() - 1],
        ),
    ensures
        trimmed(lead + middle + trail) == middle,
    decreases lead.len() + trail.len(),
{
    let s = lead + middle + trail;
    if lead.len() > 0 {
        assert(s.first() == lead[0]);
        let rest = lead.drop_first();
        assert(s.drop_first() =~= rest + middle + trail);
        assert forall|i: int| 0 <= i < rest.len() implies is_white_space(#[trigger] rest[i]) by {
            assert(rest[i] == lead[i + 1]);
        }
        trimming_leaves_the_middle(rest, middle, trail);
    } else if middle.len() == 0 {
        assert(s =~= trail);
        if trail.len() > 0 {
            let rest = trail.drop_first();
            assert(s.first() == trail[0]);
            assert(s.drop_first() =~= Seq::<char>::empty() + middle + rest);
            assert forall|i: int| 0 <= i < rest.len() implies is_white_space(#[trigger] rest[i]) by {
                assert(rest[i] == trail[i + 1]);
            }
            trimming_leaves_the_middle(Seq::empty(), middle, rest);
        } else {
            assert(s =~= middle);
        }
    } else {
        assert(s.first() == middle[0]);
        if trail.len() > 0 {
            assert(s.last() == trail[trail.len() - 1]);
            let rest = trail.drop_last();
            assert(s.drop_last() =~= lead + middle + rest);
            assert forall|i: int| 0 <= i < rest.len() implies is_white_space(#[trigger] rest[i]) by {
                assert(rest[i] == trail[i]);
            }
            trimming_leaves_the_middle(lead, middle, rest);
        } else {
            assert(s =~= middle);
        }
    }
}

/// What is left of a text that is trimmed begins and ends with no white space, and
/// stands in the text.
pub proof fn what_is_trimmed_is_tight(s: Seq<char>)
    ensures
        trimmed(s).len() > 0 ==> !is_white_space(trimmed(s)[0]) && !is_white_space(
            trimmed(s)[trimmed(s).len() - 1],
        ),
        exists|lead: Seq<char>, trail: Seq<char>|
            s == #[trigger] (lead + trimmed(s) + trail) && is_blank(lead) && is_blank(trail),
    decreases s.len(),
{
    let none = Seq::<char>::empty();
    if s.len() == 0 {
        assert(s =~= none + trimmed(s) + none);
    } else if is_white_space(s.first()) {
        what_is_trimmed_is_tight(s.drop_first());
        let (lead, trail) = choose|lead: Seq<char>, trail: Seq<char>|
            s.drop_first() == #[trigger] (lead + trimmed(s.drop_first()) + trail) && is_blank(lead)
                && is_blank(trail);
        let longer = seq![s.first()] + lead;
        assert(s =~= seq![s.first()] + s.drop_first());
        assert(s =~= longer + trimmed(s) + trail);
        assert(is_blank(longer));
    } else if is_white_space(s.last()) {
        what_is_trimmed_is_tight(s.drop_last());
        let (lead, trail) = choose|lead: Seq<char>, trail: Seq<char>|
            s.drop_last() == #[trigger] (lead + trimmed(s.drop_last()) + trail) && is_blank(lead)
                && is_blank(trail);
        let longer = trail.push(s.last());
        assert(s =~= s.drop_last().push(s.last()));
        assert(s =~= lead + trimmed(s) + longer);
        assert(is_blank(longer));
    } else {
        assert(s =~= none + trimmed(s) + none);
    }
}

/// Lines, each ended.
pub open spec fn written_lines(lines: Seq<Seq<char>>) -> Seq<char>
    decreases lines.len(),
{
    if lines.len() == 0 {
        Seq::empty()
    } else {
        (written_lines(lines.drop_last()) + lines.last()).push('\n')
    }
}

/// A line as it can stand in a text: without a line break, and not ended by a
/// carriage return, which would count as part of the break.
pub open spec fn is_plain(line: Seq<char>) -> bool {
    one_line(line) && (line.len() > 0 ==> line[line.len() - 1] != '\r')
}

/// A line that is begun after ended ones is the last line.
proof fn a_line_is_begun(s: Seq<char>, line: Seq<char>)
    requires
        s.len() == 0 || s.last() == '\n',
        one_line(line),
    ensures
        closed_lines(s + line) == closed_lines(s),
        last_line(s + line) == line,
    decreases line.len(),
{
    if line.len() == 0 {
        assert(s + line =~= s);
        assert(last_line(s) =~= line);
    } else {
        let less = line.drop_last();
        assert(one_line(less)) by {
            assert forall|i: int| 0 <= i < less.len() implies #[trigger] less[i] != '\n' by {
                assert(less[i] == line[i]);
            }
        }
        a_line_is_begun(s, less);
        assert((s + line).drop_last() =~= s + less);
        assert((s + line).last() == line[line.len() - 1]);
        assert(last_line(s + line) =~= line);
    }
}

proof fn ended_lines_are_closed(lines: Seq<Seq<char>>)
    requires
        forall|i: int| 0 <= i < lines.len() ==> is_plain(#[trigger] lines[i]),
    ensures
        closed_lines(written_lines(lines)) == lines,
        last_line(written_lines(lines)).len() == 0,
        lines.len() > 0 ==> written_lines(lines).len() > 0 && written_lines(lines).last() == '\n',
    decreases lines.len(),
{
    if lines.len() > 0 {
        let rest = lines.drop_last();
        let line = lines[lines.len() - 1];
        assert forall|i: int| 0 <= i < rest.len() implies is_plain(#[trigger] rest[i]) by {
            assert(rest[i] == lines[i]);
        }
        ended_lines_are_closed(rest);
        assert(rest.len() == 0 ==> written_lines(rest).len() == 0);
        a_line_is_begun(written_lines(rest), line);
        let s = written_lines(lines);
        assert(s.drop_last() =~= written_lines(rest) + line);
        assert(without_return(line) == line);
        assert(closed_lines(s) =~= lines);
    }
}

/// Lines that are written, each ended, read back as those lines, whether or not
/// the last is ended too.
pub proof fn lines_read_back(lines: Seq<Seq<char>>, open: Seq<char>)
    requires
        forall|i: int| 0 <= i < lines.len() ==> is_plain(#[trigger] lines[i]),
        one_line(open),
    ensures
        text_lines(written_lines(lines)) == lines,
        open.len() > 0 ==> text_lines(written_lines(lines) + open) == lines.push(open),
{
    ended_lines_are_closed(lines);
    assert(lines.len() == 0 ==> written_lines(lines).len() == 0);
    a_line_is_begun(written_lines(lines), open);
}

/// Changing case changes letters of ASCII alone, one for one, and what was changed
/// to lower case and then to upper case is in upper case.
pub proof fn case_is_of_letters(s: Seq<char>, i: int)
    requires
        0 <= i < s.len(),
    ensures
        lowercased(s).len() == s.len(),
        uppercased(s).len() == s.len(),
        'A' <= s[i] <= 'Z' ==> lowercased(s)[i] as int == s[i] as int + 32 && uppercased(s)[i]
            == s[i],
        'a' <= s[i] <= 'z' ==> uppercased(s)[i] as int == s[i] as int - 32 && lowercased(s)[i]
            == s[i],
        !('A' <= s[i] <= 'Z') && !('a' <= s[i] <= 'z') ==> lowercased(s)[i] == s[i]
            && uppercased(s)[i] == s[i],
{
}

/// A digit counts for its value, in its place; zeros in front count for nothing.
pub proof fn digits_count_in_their_place(s: Seq<char>, d: nat)
    requires
        d < 10,
    ensures
        digits_value(s.push(digit(d))) == digits_value(s) * 10 + d,
        digit(d) as int == '0' as int + d,
        digits_value(seq!['0'] + s) == digits_value(s),
    decreases s.len(),
{
    assert(s.push(digit(d)).drop_last() =~= s);
    let zero = seq!['0'] + s;
    if s.len() == 0 {
        assert(zero.drop_last() =~= s);
        assert(zero.last() == '0');
    } else {
        digits_count_in_their_place(s.drop_last(), d);
        assert(zero.drop_last() =~= seq!['0'] + s.drop_last());
        assert(zero.last() == s.last());
    }
}

/// A number is written with its digits and no zero in front, and a negative one
/// with a sign in front of what is written of the other.
pub proof fn numbers_are_written_plainly(n: nat)
    ensures
        decimal(n).len() > 0,
        all_digits(decimal(n)),
        n > 0 ==> decimal(n)[0] != '0',
        digits_value(decimal(n)) == n,
        integer(n as int) == decimal(n),
        n > 0 ==> integer(-(n as int)) == seq!['-'] + decimal(n),
{
    crate::text::decimal_reads_back(n);
    no_zero_in_front(n);
}

proof fn no_zero_in_front(n: nat)
    ensures
        decimal(n).len() > 0,
        n > 0 ==> decimal(n)[0] != '0',
    decreases n,
{
    if n >= 10 {
        no_zero_in_front(n / 10);
        assert(decimal(n)[0] == decimal(n / 10)[0]);
    }
}

/// A text begins with another exactly when it is that text with more behind it.
pub proof fn beginning_is(s: Seq<char>, prefix: Seq<char>, rest: Seq<char>)
    ensures
        begins_with(prefix + rest, prefix),
        (prefix + rest).skip(prefix.len() as int) == rest,
        begins_with(s, prefix) ==> s == prefix + s.skip(prefix.len() as int),
        occurs(s + prefix + rest, prefix),
{
    assert((prefix + rest).take(prefix.len() as int) =~= prefix);
    assert((prefix + rest).skip(prefix.len() as int) =~= rest);
    if begins_with(s, prefix) {
        assert(s =~= s.take(prefix.len() as int) + s.skip(prefix.len() as int));
    }
    assert((s + prefix + rest).skip(s.len() as int) =~= prefix + rest);
    assert(begins_with((s + prefix + rest).skip(s.len() as int), prefix));
}

/// Where a text occurs in another, it stands there.
pub proof fn an_occurrence_is_there(s: Seq<char>, part: Seq<char>)
    requires
        occurs(s, part),
    ensures
        exists|i: int|
            0 <= i <= s.len() - part.len() && #[trigger] s.subrange(i, i + part.len()) == part,
{
    let i = choose|i: int| 0 <= i <= s.len() && #[trigger] begins_with(s.skip(i), part);
    assert(s.subrange(i, i + part.len()) =~= s.skip(i).take(part.len() as int));
}

/// Putting texts together takes each of them whole, in order, with the separator
/// between neighbours and nowhere else.
pub proof fn joining_is(parts: Seq<Seq<char>>, x: Seq<char>, separator: Seq<char>)
    ensures
        joined(Seq::<Seq<char>>::empty(), separator) == Seq::<char>::empty(),
        joined(seq![x], separator) == x,
        parts.len() > 0 ==> joined(parts.push(x), separator) == joined(parts, separator)
            + separator + x,
{
    assert(parts.push(x).drop_last() =~= parts);
}

/// A text that is brought to a width is that text with spaces behind it, just as
/// wide as asked, or as it was where it is wider.
pub proof fn padding_is(s: Seq<char>, width: nat)
    ensures
        begins_with(padded(s, width), s),
        padded(s, width).len() == (if s.len() >= width {
            s.len()
        } else {
            width
        }),
        forall|i: int| s.len() <= i < padded(s, width).len() ==> #[trigger] padded(s, width)[i] == ' ',
{
    assert(padded(s, width).take(s.len() as int) =~= s);
}

/// The order of texts is that of their first difference; a text comes before any
/// that it begins.
pub proof fn order_is_of_the_first_difference(lead: Seq<char>, a: Seq<char>, b: Seq<char>)
    requires
        a.len() > 0 && b.len() > 0 ==> a[0] != b[0],
    ensures
        text_before(lead + a, lead + b) <==> b.len() > 0 && (a.len() == 0 || a[0] < b[0]),
{
    let x = lead + a;
    let y = lead + b;
    let n = lead.len() as int;
    assert(x.take(n) =~= lead && y.take(n) =~= lead);
    if text_before(x, y) {
        let k = choose|k: int|
            {
                &&& 0 <= k < y.len()
                &&& k <= x.len()
                &&& #[trigger] x.take(k) == y.take(k)
                &&& k < x.len() ==> x[k] < y[k]
            };
        if k > n {
            assert(x.take(k)[n] == y.take(k)[n]);
        }
        if k < n {
            assert(x[k] == y[k]);
        }
    }
}

/// Lines that are written begin as the first of them does.
pub proof fn begins_with_the_first(lines: Seq<Seq<char>>)
    requires
        lines.len() > 0,
        lines[0].len() > 0,
    ensures
        written_lines(lines).len() > 0,
        written_lines(lines)[0] == lines[0][0],
    decreases lines.len(),
{
    if lines.len() > 1 {
        begins_with_the_first(lines.drop_last());
    } else {
        assert(written_lines(lines.drop_last()) =~= Seq::<char>::empty());
    }
}

/// A carriage return right before a line break belongs to the break.
pub proof fn a_return_belongs_to_the_break(lines: Seq<Seq<char>>, line: Seq<char>)
    requires
        forall|i: int| 0 <= i < lines.len() ==> is_plain(#[trigger] lines[i]),
        one_line(line),
    ensures
        text_lines(written_lines(lines) + line + seq!['\r', '\n']) == lines.push(line),
{
    let s = written_lines(lines);
    let with = line.push('\r');
    ended_lines_are_closed(lines);
    assert(lines.len() == 0 ==> s.len() == 0);
    assert(one_line(with)) by {
        assert forall|i: int| 0 <= i < with.len() implies #[trigger] with[i] != '\n' by {
            if i < line.len() {
                assert(with[i] == line[i]);
            }
        }
    }
    a_line_is_begun(s, with);
    let t = s + line + seq!['\r', '\n'];
    assert(t =~= (s + with).push('\n'));
    assert(t.drop_last() =~= s + with);
    assert(without_return(with) =~= line);
}

} // verus!
