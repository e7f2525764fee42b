//! Texts, numbers in texts, and dates.

use vstd::prelude::*;

use crate::date::{
    compact, day_number, days_before_month, days_in_month, iso, utc_day_number, valid, year_text,
    Date,
};
use crate::text::{
    contains, decimal, decimal_int, ends_with, find_char, is_digit, is_space, lower, lower_char,
    occurs_at, precedes, starts_with, trim, trim_end, trim_start, upper_char, zero_padded,
};

verus! {

/// The number that a row of digits stands for.
pub open spec fn number_in(s: Seq<char>) -> int
    decreases s.len(),
{
    if s.len() == 0 {
        0
    } else {
        10 * number_in(s.drop_last()) + (s.last() as int - '0' as int)
    }
}

/// Only digits.
pub open spec fn digits_only(s: Seq<char>) -> bool {
    forall|i: int| 0 <= i < s.len() ==> '0' <= #[trigger] s[i] <= '9'
}

/// The decimal notation of a number has only digits, is read back as the number,
/// and has no leading zero but for 0 itself.
pub proof fn lemma_decimal_reads_back(n: nat)
    ensures
        decimal(n).len() > 0,
        digits_only(decimal(n)),
        number_in(decimal(n)) == n,
        n > 0 ==> decimal(n)[0] != '0',
        decimal_int(n as int) == decimal(n),
        n > 0 ==> decimal_int(-n) == seq!['-'] + decimal(n),
    decreases n,
{
    reveal_with_fuel(number_in, 2);
    if n < 10 {
        let s = decimal(n);
        assert(s.drop_last() =~= Seq::<char>::empty());
    } else {
        lemma_decimal_reads_back(n / 10);
        let s = decimal(n);
        assert(s.drop_last() =~= decimal(n / 10));
        assert(s[0] == decimal(n / 10)[0]);
        assert forall|i: int| 0 <= i < s.len() implies '0' <= #[trigger] s[i] <= '9' by {
            if i < s.len() - 1 {
                assert(s[i] == decimal(n / 10)[i]);
            }
        }
    }
}

/// Zeros in front change neither the number nor that there are only digits.
pub proof fn lemma_padding_keeps_number(s: Seq<char>, width: int)
    requires
        digits_only(s),
    ensures
        digits_only(zero_padded(s, width)),
        number_in(zero_padded(s, width)) == number_in(s),
        zero_padded(s, width).len() == (if s.len() < width {
            width
        } else {
            s.len() as int
        }),
    decreases width - s.len(),
{
    if s.len() < width {
        lemma_zero_in_front(s);
        lemma_padding_keeps_number(seq!['0'] + s, width);
    }
}

proof fn lemma_zero_in_front(s: Seq<char>)
    requires
        digits_only(s),
    ensures
        digits_only(seq!['0'] + s),
        number_in(seq!['0'] + s) == number_in(s),
    decreases s.len(),
{
    let t = seq!['0'] + s;
    reveal_with_fuel(number_in, 2);
    if s.len() == 0 {
        assert(t.drop_last() =~= Seq::<char>::empty());
    } else {
        assert(digits_only(s.drop_last()));
        lemma_zero_in_front(s.drop_last());
        assert(t.drop_last() =~= seq!['0'] + s.drop_last());
    }
}

proof fn lemma_number_below(s: Seq<char>, n: nat)
    requires
        digits_only(s),
        s == decimal(n),
    ensures
        n < 10 ==> s.len() == 1,
        10 <= n < 100 ==> s.len() == 2,
        100 <= n < 1000 ==> s.len() == 3,
        1000 <= n < 10000 ==> s.len() == 4,
{
    reveal_with_fuel(decimal, 5);
}

/// A day of a year in four digits is written `YYYY-MM-DD`.
pub proof fn lemma_iso_shape(d: Date)
    requires
        valid(d),
        0 <= d.year <= 9999,
    ensures
        iso(d).len() == 10,
        iso(d)[4] == '-',
        iso(d)[7] == '-',
        digits_only(iso(d).subrange(0, 4)) && number_in(iso(d).subrange(0, 4)) == d.year,
        digits_only(iso(d).subrange(5, 7)) && number_in(iso(d).subrange(5, 7)) == d.month,
        digits_only(iso(d).subrange(8, 10)) && number_in(iso(d).subrange(8, 10)) == d.day,
        compact(d) == iso(d).subrange(0, 4) + iso(d).subrange(5, 7) + iso(d).subrange(8, 10),
{
    let y = d.year as nat;
    let m = d.month as nat;
    let n = d.day as nat;
    lemma_decimal_reads_back(y);
    lemma_decimal_reads_back(m);
    lemma_decimal_reads_back(n);
    lemma_number_below(decimal(y), y);
    lemma_number_below(decimal(m), m);
    lemma_number_below(decimal(n), n);
    lemma_padding_keeps_number(decimal(y), 4);
    lemma_padding_keeps_number(decimal(m), 2);
    lemma_padding_keeps_number(decimal(n), 2);
    assert(iso(d).subrange(0, 4) =~= zero_padded(decimal(y), 4));
    assert(iso(d).subrange(5, 7) =~= zero_padded(decimal(m), 2));
    assert(iso(d).subrange(8, 10) =~= zero_padded(decimal(n), 2));
}

/// A year outside four digits is written with its sign.
pub proof fn lemma_far_years_signed(year: int)
    ensures
        year > 9999 ==> year_text(year)[0] == '+' && number_in(year_text(year).skip(1)) == year,
        year < 0 ==> year_text(year)[0] == '-' && number_in(year_text(year).skip(1)) == -year
            && year_text(year).len() >= 5,
{
    if year > 9999 {
        lemma_decimal_reads_back(year as nat);
        lemma_padding_keeps_number(decimal(year as nat), 4);
        assert(year_text(year).skip(1) =~= zero_padded(decimal(year as nat), 4));
    }
    if year < 0 {
        lemma_decimal_reads_back((-year) as nat);
        lemma_padding_keeps_number(decimal((-year) as nat), 4);
        assert(year_text(year).skip(1) =~= zero_padded(decimal((-year) as nat), 4));
    }
}

/// The number of a day counts the days: the next day has the next number, over
/// the ends of months and years, and the epoch is the day of the time 0.
pub proof fn lemma_days_are_counted(d: Date)
    requires
        valid(d),
    ensures
        d.day < days_in_month(d.year as int, d.month as int) ==> day_number(
            Date { day: (d.day + 1) as u32, ..d },
        ) == day_number(d) + 1,
        d.day == days_in_month(d.year as int, d.month as int) && d.month < 12 ==> day_number(
            Date { month: (d.month + 1) as u32, day: 1, ..d },
        ) == day_number(d) + 1,
        d.month == 12 && d.day == 31 ==> day_number(
            Date { year: (d.year + 1) as i32, month: 1, day: 1 },
        ) == day_number(d) + 1,
        utc_day_number(0) == day_number(Date { year: 1970, month: 1, day: 1 }),
{
    reveal_with_fuel(days_before_month, 14);
}

/// The months have their usual lengths; February has a day more in a year that
/// four divides, but for full centuries that 400 does not divide.
pub proof fn lemma_month_lengths(year: int)
    ensures
        forall|m: int|
            m == 1 || m == 3 || m == 5 || m == 7 || m == 8 || m == 10 || m == 12
                ==> #[trigger] days_in_month(year, m) == 31,
        forall|m: int|
            m == 4 || m == 6 || m == 9 || m == 11 ==> #[trigger] days_in_month(year, m) == 30,
        days_in_month(year, 2) == 28 || days_in_month(year, 2) == 29,
        year % 400 == 0 ==> days_in_month(year, 2) == 29,
        year % 4 != 0 ==> days_in_month(year, 2) == 28,
        year % 100 == 0 && year % 400 != 0 ==> days_in_month(year, 2) == 28,
        year % 4 == 0 && year % 100 != 0 ==> days_in_month(year, 2) == 29,
{
}

/// A time counts seconds: a day later is the next day, and less than a day after
/// midnight is the same day.
pub proof fn lemma_day_of_time(ts: int, seconds: int)
    requires
        0 <= seconds < 86400,
        ts % 86400 == 0,
    ensures
        utc_day_number(ts + seconds) == utc_day_number(ts),
        utc_day_number(ts + 86400) == utc_day_number(ts) + 1,
        utc_day_number(ts - 1) == utc_day_number(ts) - 1,
{
}

/// Texts are ordered by the first character in which they differ; a text comes
/// before what it begins.
pub proof fn lemma_order_by_first_difference(p: Seq<char>, a: Seq<char>, b: Seq<char>)
    ensures
        a.len() > 0 && b.len() > 0 && a[0] < b[0] ==> precedes(p + a, p + b),
        b.len() > 0 ==> precedes(p, p + b),
        !precedes(p, p),
    decreases p.len(),
{
    if p.len() > 0 {
        lemma_order_by_first_difference(p.skip(1), a, b);
        assert((p + a).skip(1) =~= p.skip(1) + a);
        assert((p + b).skip(1) =~= p.skip(1) + b);
    } else {
        assert(p + a =~= a);
        assert(p + b =~= b);
    }
}

/// The characters that are trimmed hold the blank, the tab and the ends of lines;
/// no letter, digit, bracket or other visible ASCII character is one.
pub proof fn lemma_spaces(c: char)
    ensures
        is_space(' ') && is_space('\t') && is_space('\n') && is_space('\r'),
        '!' <= c <= '~' ==> !is_space(c),
{
}

/// Only whitespace.
pub open spec fn blank(s: Seq<char>) -> bool {
    forall|i: int| 0 <= i < s.len() ==> is_space(#[trigger] s[i])
}

/// Trimming takes the whitespace at either end and nothing else.
pub proof fn lemma_trim_takes_ends(a: Seq<char>, s: Seq<char>, b: Seq<char>)
    requires
        blank(a),
        blank(b),
        s.len() > 0 ==> !is_space(s[0]) && !is_space(s.last()),
    ensures
        trim(a + s + b) == s,
{
    lemma_trim_start_takes(a, s + b);
    assert(a + s + b =~= a + (s + b));
    if s.len() == 0 {
        assert(s + b =~= b);
        lemma_trim_start_takes(b, s);
        assert(b + s =~= b);
        assert(trim_start(s) =~= s);
        lemma_trim_end_takes(s, Seq::empty());
        assert(s + Seq::<char>::empty() =~= s);
    } else {
        assert((s + b)[0] == s[0]);
        lemma_trim_end_takes(s, b);
    }
}

proof fn lemma_trim_start_takes(a: Seq<char>, s: Seq<char>)
    requires
        blank(a),
    ensures
        trim_start(a + s) == trim_start(s),
    decreases a.len(),
{
    if a.len() == 0 {
        assert(a + s =~= s);
    } else {
        let t = a + s;
        assert(t[0] == a[0]);
        assert(t.skip(1) =~= a.skip(1) + s);
        assert(blank(a.skip(1)));
        lemma_trim_start_takes(a.skip(1), s);
    }
}

proof fn lemma_trim_end_takes(s: Seq<char>, b: Seq<char>)
    requires
        blank(b),
    ensures
        trim_end(s + b) == trim_end(s),
    decreases b.len(),
{
    if b.len() == 0 {
        assert(s + b =~= s);
    } else {
        let t = s + b;
        assert(t.last() == b.last());
        assert(t.drop_last() =~= s + b.drop_last());
        assert(blank(b.drop_last()));
        lemma_trim_end_takes(s, b.drop_last());
    }
}

/// A text begins with its beginning, ends with its end and holds its middle.
pub proof fn lemma_parts_of_text(a: Seq<char>, p: Seq<char>, b: Seq<char>)
    ensures
        starts_with(p + b, p),
        ends_with(a + p, p),
        contains(a + p + b, p),
        occurs_at(a + p + b, p, a.len() as int),
{
    assert((p + b).subrange(0, p.len() as int) =~= p);
    assert((a + p).subrange(a.len() as int, (a.len() + p.len()) as int) =~= p);
    assert((a + p + b).subrange(a.len() as int, (a.len() + p.len()) as int) =~= p);
    assert(occurs_at(a + p + b, p, a.len() as int));
}

/// What begins, ends or stands in a text is a part of it.
pub proof fn lemma_texts_of_part(s: Seq<char>, p: Seq<char>)
    ensures
        starts_with(s, p) ==> s == p + s.skip(p.len() as int),
        ends_with(s, p) ==> s == s.take(s.len() - p.len()) + p,
{
    if starts_with(s, p) {
        assert(s =~= s.subrange(0, p.len() as int) + s.skip(p.len() as int));
    }
    if ends_with(s, p) {
        assert(s =~= s.take(s.len() - p.len()) + s.subrange(s.len() - p.len(), s.len() as int));
    }
}

/// The place of a character is that of its first occurrence.
pub proof fn lemma_first_place(a: Seq<char>, c: char, b: Seq<char>, i: int)
    requires
        forall|j: int| 0 <= j < a.len() ==> #[trigger] a[j] != c,
        0 <= i <= a.len(),
    ensures
        find_char(a + seq![c] + b, c, i) == a.len(),
        find_char(a, c, i) == a.len(),
    decreases a.len() - i,
{
    let s = a + seq![c] + b;
    if i < a.len() {
        assert(s[i] == a[i]);
        lemma_first_place(a, c, b, i + 1);
    } else {
        assert(s[i] == c);
    }
}

/// Lower case pairs each capital letter with its small one, thirty-two code
/// points behind it, and keeps the rest; upper case undoes it.
pub proof fn lemma_cases(s: Seq<char>, c: char)
    ensures
        lower(s).len() == s.len(),
        'A' <= c <= 'Z' ==> lower_char(c) as int == c as int + 32 && upper_char(lower_char(c)) == c,
        'a' <= c <= 'z' ==> upper_char(c) as int == c as int - 32 && lower_char(upper_char(c)) == c,
        !('A' <= c <= 'Z') ==> lower_char(c) == c,
        !('a' <= c <= 'z') ==> upper_char(c) == c,
        lower_char('A') == 'a' && lower_char('Z') == 'z',
        forall|i: int| 0 <= i < s.len() ==> #[trigger] lower(s)[i] == lower_char(s[i]),
        is_digit(c) <==> '0' <= c <= '9',
{
}

} // verus!
