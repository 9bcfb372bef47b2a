use vstd::prelude::*;

use crate::text::decimal;

verus! {

// The local wall clock, read through `chrono`.

/// A `strftime` conversion that prints a number of the date or time.
pub open spec fn is_numeric_time_spec(c: char) -> bool {
    c == 'Y' || c == 'm' || c == 'd' || c == 'H' || c == 'M' || c == 'S'
}

/// A format whose only conversions are the numeric ones above: every `%`
/// is followed by one of them.
pub open spec fn is_numeric_time_format(f: Seq<char>) -> bool {
    forall|i: int| #![trigger f[i]] 0 <= i < f.len() && f[i] == '%' ==> i + 1 < f.len() && is_numeric_time_spec(f[i + 1])
}

/// `v` in decimal with at least `width` digits, zeros in front.
pub open spec fn zero_padded(v: nat, width: nat) -> Seq<char> {
    let d = decimal(v);
    if d.len() < width {
        Seq::new((width - d.len()) as nat, |_i: int| '0') + d
    } else {
        d
    }
}

/// A month, day, hour, minute or second: two digits.
pub open spec fn two_digits(v: nat) -> Seq<char> {
    zero_padded(v, 2)
}

/// A year: four digits from 0 to 9999, otherwise a sign and at least four
/// digits.
pub open spec fn year_text(y: int) -> Seq<char> {
    if 0 <= y && y <= 9999 {
        zero_padded(y as nat, 4)
    } else if y < 0 {
        seq!['-'] + zero_padded((-y) as nat, 4)
    } else {
        seq!['+'] + zero_padded(y as nat, 4)
    }
}

/// A decimal digit.
pub open spec fn is_digit(c: char) -> bool {
    '0' <= c && c <= '9'
}

/// Every character of a decimal numeral is a digit.
pub proof fn lemma_decimal_digits(n: nat)
    ensures
        forall|i: int| 0 <= i < decimal(n).len() ==> is_digit(#[trigger] decimal(n)[i]),
    decreases n,
{
    if n >= 10 {
        lemma_decimal_digits(n / 10);
        let p = decimal(n / 10);
        assert forall|i: int| 0 <= i < decimal(n).len() implies is_digit(#[trigger] decimal(n)[i]) by {
            if i < p.len() {
                assert(decimal(n)[i] == p[i]);
            }
        }
    }
}

/// Every character of a zero-padded numeral is a digit.
pub proof fn lemma_zero_padded_digits(v: nat, width: nat)
    ensures
        forall|i: int| 0 <= i < zero_padded(v, width).len() ==> is_digit(#[trigger] zero_padded(v, width)[i]),
{
    lemma_decimal_digits(v);
    let d = decimal(v);
    if d.len() < width {
        let z = Seq::new((width - d.len()) as nat, |_i: int| '0');
        assert forall|i: int| 0 <= i < zero_padded(v, width).len() implies is_digit(#[trigger] zero_padded(v, width)[i]) by {
            if i >= z.len() {
                assert(zero_padded(v, width)[i] == d[i - z.len()]);
            }
        }
    }
}

/// A month, day, hour, minute and second that a clock can show (a leap
/// second is written as 60).
pub open spec fn is_clock_reading(mo: nat, d: nat, h: nat, mi: nat, s: nat) -> bool {
    1 <= mo <= 12 && 1 <= d <= 31 && h <= 23 && mi <= 59 && s <= 60
}

/// What the numeric conversion `c` writes for the given date and time.
pub open spec fn field_text(c: char, y: int, mo: nat, d: nat, h: nat, mi: nat, s: nat) -> Seq<char> {
    if c == 'Y' {
        year_text(y)
    } else if c == 'm' {
        two_digits(mo)
    } else if c == 'd' {
        two_digits(d)
    } else if c == 'H' {
        two_digits(h)
    } else if c == 'M' {
        two_digits(mi)
    } else {
        two_digits(s)
    }
}

/// The format written out for the given date and time: each conversion
/// replaced by its field, every other character copied.
#[verifier::opaque]
pub open spec fn render(f: Seq<char>, y: int, mo: nat, d: nat, h: nat, mi: nat, s: nat) -> Seq<char>
    decreases f.len(),
{
    if f.len() == 0 {
        seq![]
    } else if f[0] == '%' && f.len() >= 2 {
        field_text(f[1], y, mo, d, h, mi, s) + render(f.skip(2), y, mo, d, h, mi, s)
    } else {
        seq![f[0]] + render(f.skip(1), y, mo, d, h, mi, s)
    }
}

/// `out` is the format rendered for some date and time that a clock shows.
pub open spec fn is_rendering_at_some_time(f: Seq<char>, out: Seq<char>) -> bool {
    exists|y: int, mo: nat, d: nat, h: nat, mi: nat, s: nat|
        is_clock_reading(mo, d, h, mi, s) && out == #[trigger] render(f, y, mo, d, h, mi, s)
}

/// A conversion at the front is written as its field.
pub proof fn lemma_render_field(c: char, rest: Seq<char>, y: int, mo: nat, d: nat, h: nat, mi: nat, s: nat)
    ensures
        render(seq!['%', c] + rest, y, mo, d, h, mi, s) == field_text(c, y, mo, d, h, mi, s) + render(
            rest,
            y,
            mo,
            d,
            h,
            mi,
            s,
        ),
{
    reveal(render);
    assert((seq!['%', c] + rest).skip(2) =~= rest);
}

/// Nothing is written for an empty format.
pub proof fn lemma_render_empty(y: int, mo: nat, d: nat, h: nat, mi: nat, s: nat)
    ensures
        render(seq![], y, mo, d, h, mi, s) == Seq::<char>::empty(),
{
    reveal(render);
}

/// Any other character at the front is copied.
pub proof fn lemma_render_literal(c: char, rest: Seq<char>, y: int, mo: nat, d: nat, h: nat, mi: nat, s: nat)
    requires
        c != '%',
    ensures
        render(seq![c] + rest, y, mo, d, h, mi, s) == seq![c] + render(rest, y, mo, d, h, mi, s),
{
    reveal(render);
    assert((seq![c] + rest).skip(1) =~= rest);
}

/// Calls `chrono::Local::now()` and writes it with `DateTime::format`.
/// With only numeric conversions in the format the writing cannot fail.
/// Claims what `chrono`'s formatting code shows of every outcome: the text
/// is the format rendered for some date and time of the clock (each
/// conversion zero-padded, a year outside 0 to 9999 with its sign). Which
/// date and time depends on the clock and the time zone and is not claimed.
#[verifier::external_body]
pub(crate) fn local_time_text(format: &str) -> (res: String)
    requires
        is_numeric_time_format(format@),
    ensures
        is_rendering_at_some_time(format@, res@),
{
    chrono::Local::now().format(format).to_string()
}

/// The fraction of a second as RFC 3339 writes it with as few digits as
/// keep it exact: none, or a `.` and three, six or nine digits.
pub open spec fn fraction_text(nano: nat) -> Seq<char> {
    if nano == 0 {
        seq![]
    } else if nano % 1_000_000 == 0 {
        seq!['.'] + zero_padded(nano / 1_000_000, 3)
    } else if nano % 1000 == 0 {
        seq!['.'] + zero_padded(nano / 1000, 6)
    } else {
        seq!['.'] + zero_padded(nano, 9)
    }
}

/// A date and time with its offset from UTC, written as RFC 3339:
/// `YYYY-MM-DDTHH:MM:SS`, the fraction of a second, then the sign of the
/// offset (`+` east of UTC or at it) and its hours and minutes.
pub open spec fn rfc3339_text(
    y: int,
    mo: nat,
    d: nat,
    h: nat,
    mi: nat,
    s: nat,
    nano: nat,
    east: bool,
    oh: nat,
    om: nat,
) -> Seq<char> {
    year_text(y) + seq!['-'] + two_digits(mo) + seq!['-'] + two_digits(d) + seq!['T'] + two_digits(h) + seq![':']
        + two_digits(mi) + seq![':'] + two_digits(s) + fraction_text(nano) + seq![if east { '+' } else { '-' }]
        + two_digits(oh) + seq![':'] + two_digits(om)
}

/// `out` is some date and time that a clock shows, with an offset of less
/// than a day, written as RFC 3339.
pub open spec fn is_rfc3339_at_some_time(out: Seq<char>) -> bool {
    exists|y: int, mo: nat, d: nat, h: nat, mi: nat, s: nat, nano: nat, east: bool, oh: nat, om: nat|
        is_clock_reading(mo, d, h, mi, s) && nano < 1_000_000_000 && oh <= 24 && om <= 59 && out
            == #[trigger] rfc3339_text(y, mo, d, h, mi, s, nano, east, oh, om)
}

/// Calls `chrono::Local::now()` and writes it with `DateTime::to_rfc3339`.
/// Claims what `chrono`'s `write_rfc3339` shows of every outcome: the text
/// is some date and time with its offset in RFC 3339, the fraction of a
/// second written as `SecondsFormat::AutoSi` does. Which date, time and
/// offset depends on the clock and the time zone and is not claimed.
#[verifier::external_body]
pub(crate) fn local_time_rfc3339() -> (res: String)
    ensures
        is_rfc3339_at_some_time(res@),
{
    chrono::Local::now().to_rfc3339()
}

} // verus!
