//! Calendar dates: parsing of canonical ISO dates, the validity rules of
//! the Gregorian calendar, and the day of week, which only the calendar
//! library computes.
use vstd::prelude::*;

use crate::strutil::{all_digits, digit_val, digits_value, parse_u32_chars, sub_vec};

verus! {

/// A day of the week.
#[derive(Clone, Copy, Debug, PartialEq, Eq, Structural)]
pub enum Weekday {
    Mon,
    Tue,
    Wed,
    Thu,
    Fri,
    Sat,
    Sun,
}

/// Short English name of a weekday, as the series keys show it.
pub open spec fn spec_short_name(w: Weekday) -> Seq<char> {
    match w {
        Weekday::Mon => "Mon"@,
        Weekday::Tue => "Tue"@,
        Weekday::Wed => "Wed"@,
        Weekday::Thu => "Thu"@,
        Weekday::Fri => "Fri"@,
        Weekday::Sat => "Sat"@,
        Weekday::Sun => "Sun"@,
    }
}

/// Rank of a weekday's short name in the alphabetical order of the seven
/// names, which is the order the series keys sort equal dates by.
pub open spec fn spec_weekday_rank(w: Weekday) -> int {
    match w {
        Weekday::Fri => 0,
        Weekday::Mon => 1,
        Weekday::Sat => 2,
        Weekday::Sun => 3,
        Weekday::Thu => 4,
        Weekday::Tue => 5,
        Weekday::Wed => 6,
    }
}

impl Weekday {
    /// Short English name of the day.
    pub fn short_name(&self) -> (r: &'static str)
        ensures
            r@ == spec_short_name(*self),
    {
        match self {
            Weekday::Mon => "Mon",
            Weekday::Tue => "Tue",
            Weekday::Wed => "Wed",
            Weekday::Thu => "Thu",
            Weekday::Fri => "Fri",
            Weekday::Sat => "Sat",
            Weekday::Sun => "Sun",
        }
    }

    /// Rank of the day's short name in the alphabetical order of the
    /// seven names.
    pub fn rank(&self) -> (r: u32)
        ensures
            r as int == spec_weekday_rank(*self),
    {
        match self {
            Weekday::Fri => 0,
            Weekday::Mon => 1,
            Weekday::Sat => 2,
            Weekday::Sun => 3,
            Weekday::Thu => 4,
            Weekday::Tue => 5,
            Weekday::Wed => 6,
        }
    }
}

/// The weekday ranks order the short names alphabetically: a lower rank
/// is an earlier name.
pub proof fn lemma_weekday_rank_is_name_order(w1: Weekday, w2: Weekday)
    requires
        spec_weekday_rank(w1) < spec_weekday_rank(w2),
    ensures
        crate::strutil::lex_lt(spec_short_name(w1), spec_short_name(w2)),
{
    reveal_strlit("Mon");
    reveal_strlit("Tue");
    reveal_strlit("Wed");
    reveal_strlit("Thu");
    reveal_strlit("Fri");
    reveal_strlit("Sat");
    reveal_strlit("Sun");
    reveal_with_fuel(crate::strutil::lex_lt, 4);
}

/// A leap year of the Gregorian calendar.
pub open spec fn spec_is_leap_year(y: int) -> bool {
    y % 4 == 0 && (y % 100 != 0 || y % 400 == 0)
}

/// Days in a month of the Gregorian calendar.
pub open spec fn spec_days_in_month(y: int, m: int) -> int
    recommends
        1 <= m <= 12,
{
    if m == 2 {
        if spec_is_leap_year(y) {
            29
        } else {
            28
        }
    } else if m == 4 || m == 6 || m == 9 || m == 11 {
        30
    } else {
        31
    }
}

/// A calendar date this library accepts: a four-digit year and a real
/// day of a real month.
pub open spec fn spec_valid_ymd(y: int, m: int, d: int) -> bool {
    &&& 0 <= y <= 9999
    &&& 1 <= m <= 12
    &&& 1 <= d <= spec_days_in_month(y, m)
}

/// Days in a month.
pub fn days_in_month(y: u32, m: u32) -> (r: u32)
    requires
        1 <= m <= 12,
    ensures
        r as int == spec_days_in_month(y as int, m as int),
{
    if m == 2 {
        if (y % 4 == 0 && (y % 100 != 0 || y % 400 == 0)) {
            29
        } else {
            28
        }
    } else if m == 4 || m == 6 || m == 9 || m == 11 {
        30
    } else {
        31
    }
}

/// Year, month and day read from a canonical ISO date: exactly ten
/// characters, four year digits, two month digits and two day digits,
/// separated by dashes. The calendar validity of the triple is a
/// separate question.
pub open spec fn spec_parse_iso(s: Seq<char>) -> Option<(int, int, int)> {
    if s.len() == 10 && all_digits(s.subrange(0, 4)) && s[4] == '-' && all_digits(
        s.subrange(5, 7),
    ) && s[7] == '-' && all_digits(s.subrange(8, 10)) {
        Some(
            (
                digits_value(s.subrange(0, 4)) as int,
                digits_value(s.subrange(5, 7)) as int,
                digits_value(s.subrange(8, 10)) as int,
            ),
        )
    } else {
        None
    }
}

/// Ten to the given power.
pub open spec fn pow10(n: nat) -> nat
    decreases n,
{
    if n == 0 {
        1
    } else {
        10 * pow10((n - 1) as nat)
    }
}

/// A digit string's value is below ten to its length.
pub proof fn lemma_digits_value_bound(s: Seq<char>)
    requires
        all_digits(s),
    ensures
        digits_value(s) < pow10(s.len()),
    decreases s.len(),
{
    if s.len() > 0 {
        lemma_digits_value_bound(s.drop_last());
    }
}

/// Ten to any power is positive.
pub proof fn lemma_pow10_pos(n: nat)
    ensures
        pow10(n) >= 1,
    decreases n,
{
    if n > 0 {
        lemma_pow10_pos((n - 1) as nat);
    }
}

/// A digit string's value, read from the front: the leading digit
/// weighted by ten to the length of the rest, plus the rest.
#[verifier::rlimit(50)]
pub proof fn lemma_digits_value_first(s: Seq<char>)
    requires
        s.len() > 0,
        all_digits(s),
    ensures
        digits_value(s) == digit_val(s[0]) * pow10((s.len() - 1) as nat) + digits_value(
            s.drop_first(),
        ),
    decreases s.len(),
{
    if s.len() == 1 {
        assert(s.drop_last() =~= Seq::<char>::empty());
        assert(s.drop_first() =~= Seq::<char>::empty());
        assert(s.last() == s[0]);
        assert(pow10(0) == 1);
        assert(digits_value(Seq::<char>::empty()) == 0);
        assert(digits_value(s) == digits_value(s.drop_last()) * 10 + digit_val(s.last()));
        assert(digits_value(s) == digit_val(s[0]));
        assert(digit_val(s[0]) * pow10(0) == digit_val(s[0])) by (nonlinear_arith)
            requires
                pow10(0) == 1,
        ;
    } else {
        let dl = s.drop_last();
        assert(dl[0] == s[0]);
        assert(all_digits(dl)) by {
            assert(forall|i: int| 0 <= i < dl.len() ==> #[trigger] dl[i] == s[i]);
        }
        lemma_digits_value_first(dl);
        assert(dl.drop_first() =~= s.drop_first().drop_last());
        assert(s.drop_first().last() == s.last());
        assert(all_digits(s.drop_first())) by {
            assert(forall|i: int|
                0 <= i < s.drop_first().len() ==> #[trigger] s.drop_first()[i] == s[i + 1]);
        }
        let d0 = digit_val(s[0]);
        let p = pow10((s.len() - 2) as nat);
        let v = digits_value(dl.drop_first());
        let dlast = digit_val(s.last());
        assert(digits_value(s) == digits_value(dl) * 10 + dlast);
        assert(digits_value(dl) == d0 * p + v);
        assert(digits_value(s.drop_first()) == digits_value(s.drop_first().drop_last()) * 10
            + digit_val(s.drop_first().last()));
        assert(digits_value(s.drop_first()) == v * 10 + dlast);
        assert((d0 * p + v) * 10 == d0 * (10 * p) + v * 10) by (nonlinear_arith);
        assert(digits_value(s) == d0 * (10 * p) + v * 10 + dlast);
        assert(digits_value(s) == d0 * (10 * p) + digits_value(s.drop_first()));
        assert(pow10((s.len() - 1) as nat) == 10 * p);
        assert(d0 * pow10((s.len() - 1) as nat) == d0 * (10 * p));
    }
}

/// For digit strings of one length, lexicographic order is numeric
/// order.
pub proof fn lemma_digits_lex(a: Seq<char>, b: Seq<char>)
    requires
        a.len() == b.len(),
        all_digits(a),
        all_digits(b),
    ensures
        crate::strutil::lex_lt(a, b) == (digits_value(a) < digits_value(b)),
    decreases a.len(),
{
    if a.len() > 0 {
        assert(all_digits(a.drop_first())) by {
            assert(forall|i: int|
                0 <= i < a.drop_first().len() ==> #[trigger] a.drop_first()[i] == a[i + 1]);
        }
        assert(all_digits(b.drop_first())) by {
            assert(forall|i: int|
                0 <= i < b.drop_first().len() ==> #[trigger] b.drop_first()[i] == b[i + 1]);
        }
        lemma_digits_value_first(a);
        lemma_digits_value_first(b);
        lemma_digits_value_bound(a.drop_first());
        lemma_digits_value_bound(b.drop_first());
        lemma_pow10_pos((a.len() - 1) as nat);
        let p = pow10((a.len() - 1) as nat);
        let da = digit_val(a[0]);
        let db = digit_val(b[0]);
        if (a[0] as u32) < (b[0] as u32) {
            assert(da + 1 <= db);
            assert(da * p + p <= db * p) by (nonlinear_arith)
                requires
                    da + 1 <= db,
                    p >= 1,
            ;
        } else if a[0] == b[0] {
            lemma_digits_lex(a.drop_first(), b.drop_first());
        } else {
            if a[0] as u32 == b[0] as u32 {
                vstd::utf8::char_u32_cast(a[0], a[0] as u32);
                vstd::utf8::char_u32_cast(b[0], b[0] as u32);
                assert(false);
            }
            assert(db + 1 <= da);
            assert(db * p + p <= da * p) by (nonlinear_arith)
                requires
                    db + 1 <= da,
                    p >= 1,
            ;
        }
    }
}

/// Canonical ISO dates sort lexically-chronologically: comparing two of
/// them character by character compares the days they name.
pub proof fn lemma_iso_date_order_is_lex(a: Seq<char>, b: Seq<char>)
    requires
        spec_parse_iso(a) is Some,
        spec_parse_iso(b) is Some,
    ensures
        ({
            let ta = spec_parse_iso(a)->Some_0;
            let tb = spec_parse_iso(b)->Some_0;
            crate::strutil::lex_lt(a, b) == (ta.0 * 10000 + ta.1 * 100 + ta.2 < tb.0 * 10000
                + tb.1 * 100 + tb.2)
        }),
{
    let ta = spec_parse_iso(a)->Some_0;
    let tb = spec_parse_iso(b)->Some_0;
    let ya = a.subrange(0, 4);
    let yb = b.subrange(0, 4);
    let ma = a.subrange(5, 7);
    let mb = b.subrange(5, 7);
    let da = a.subrange(8, 10);
    let db = b.subrange(8, 10);
    let ra = a.subrange(4, 10);
    let rb = b.subrange(4, 10);
    let sa = a.subrange(7, 10);
    let sb = b.subrange(7, 10);
    assert(pow10(0) == 1);
    assert(pow10(1) == 10);
    assert(pow10(2) == 100);
    assert(pow10(3) == 1000);
    assert(pow10(4) == 10000);
    lemma_digits_value_bound(ya);
    lemma_digits_value_bound(yb);
    lemma_digits_value_bound(ma);
    lemma_digits_value_bound(mb);
    lemma_digits_value_bound(da);
    lemma_digits_value_bound(db);
    lemma_digits_lex(ya, yb);
    lemma_digits_lex(yb, ya);
    lemma_digits_lex(ma, mb);
    lemma_digits_lex(mb, ma);
    lemma_digits_lex(da, db);
    lemma_digits_lex(db, da);
    lemma_lex_parts(a, b);
    assert(ta.0 == digits_value(ya) && ta.1 == digits_value(ma) && ta.2 == digits_value(da));
    assert(tb.0 == digits_value(yb) && tb.1 == digits_value(mb) && tb.2 == digits_value(db));
    assert(ta.1 * 100 <= 99 * 100 && tb.1 * 100 <= 99 * 100);
    if ya == yb {
        assert(digits_value(ya) == digits_value(yb));
        if ma == mb {
            assert(digits_value(ma) == digits_value(mb));
        } else {
            crate::strutil::lemma_lex_trichotomy(ma, mb);
            assert(digits_value(ma) != digits_value(mb));
            if digits_value(ma) < digits_value(mb) {
                assert(ta.1 * 100 + 100 <= tb.1 * 100);
            } else {
                assert(tb.1 * 100 + 100 <= ta.1 * 100);
            }
        }
    } else {
        crate::strutil::lemma_lex_trichotomy(ya, yb);
        assert(digits_value(ya) != digits_value(yb));
        if digits_value(ya) < digits_value(yb) {
            assert(ta.0 * 10000 + 10000 <= tb.0 * 10000);
        } else {
            assert(tb.0 * 10000 + 10000 <= ta.0 * 10000);
        }
    }
}

/// Comparing two canonical ISO dates comes down to the year strings,
/// then the month strings, then the day strings.
proof fn lemma_lex_parts(a: Seq<char>, b: Seq<char>)
    requires
        spec_parse_iso(a) is Some,
        spec_parse_iso(b) is Some,
    ensures
        ({
            let ya = a.subrange(0, 4);
            let yb = b.subrange(0, 4);
            let ma = a.subrange(5, 7);
            let mb = b.subrange(5, 7);
            let da = a.subrange(8, 10);
            let db = b.subrange(8, 10);
            crate::strutil::lex_lt(a, b) == (if ya != yb {
                crate::strutil::lex_lt(ya, yb)
            } else if ma != mb {
                crate::strutil::lex_lt(ma, mb)
            } else {
                crate::strutil::lex_lt(da, db)
            })
        }),
{
    let ya = a.subrange(0, 4);
    let yb = b.subrange(0, 4);
    let ma = a.subrange(5, 7);
    let mb = b.subrange(5, 7);
    let da = a.subrange(8, 10);
    let db = b.subrange(8, 10);
    let ra = a.subrange(4, 10);
    let rb = b.subrange(4, 10);
    let sa = a.subrange(7, 10);
    let sb = b.subrange(7, 10);
    assert(a =~= ya + ra);
    assert(b =~= yb + rb);
    crate::strutil::lemma_lex_concat(ya, yb, ra, rb);
    assert(ra[0] == '-' && rb[0] == '-');
    assert(ra.drop_first() =~= ma + sa);
    assert(rb.drop_first() =~= mb + sb);
    crate::strutil::lemma_lex_concat(ma, mb, sa, sb);
    assert(sa[0] == '-' && sb[0] == '-');
    assert(sa.drop_first() =~= da);
    assert(sb.drop_first() =~= db);
    assert(crate::strutil::lex_lt(ra, rb) == crate::strutil::lex_lt(ra.drop_first(),
        rb.drop_first()));
    assert(crate::strutil::lex_lt(sa, sb) == crate::strutil::lex_lt(da, db));
    if ma == mb {
        assert(crate::strutil::lex_lt(ma + sa, mb + sb) == crate::strutil::lex_lt(sa, sb));
    }
}

/// Parse a canonical ISO date into its year, month and day numbers.
pub fn parse_iso_chars(s: &Vec<char>) -> (r: Option<(u32, u32, u32)>)
    ensures
        match r {
            Some(t) => spec_parse_iso(s@) == Some((t.0 as int, t.1 as int, t.2 as int)),
            None => spec_parse_iso(s@) is None,
        },
{
    if s.len() != 10 {
        return None;
    }
    if !(s[4] == '-') {
        return None;
    }
    if !(s[7] == '-') {
        return None;
    }
    let ys = sub_vec(s, 0, 4);
    let ms = sub_vec(s, 5, 7);
    let ds = sub_vec(s, 8, 10);
    proof {
        assert(pow10(0) == 1);
        assert(pow10(1) == 10);
        assert(pow10(2) == 100);
        assert(pow10(3) == 1000);
        assert(pow10(4) == 10000);
        if all_digits(ys@) {
            lemma_digits_value_bound(ys@);
        }
        if all_digits(ms@) {
            lemma_digits_value_bound(ms@);
        }
        if all_digits(ds@) {
            lemma_digits_value_bound(ds@);
        }
    }
    let y = match parse_u32_chars(&ys) {
        Some(v) => v,
        None => {
            proof {
                if all_digits(ys@) {
                    assert(digits_value(ys@) <= u32::MAX);
                }
            }
            return None;
        },
    };
    let m = match parse_u32_chars(&ms) {
        Some(v) => v,
        None => {
            proof {
                if all_digits(ms@) {
                    assert(digits_value(ms@) <= u32::MAX);
                }
            }
            return None;
        },
    };
    let d = match parse_u32_chars(&ds) {
        Some(v) => v,
        None => {
            proof {
                if all_digits(ds@) {
                    assert(digits_value(ds@) <= u32::MAX);
                }
            }
            return None;
        },
    };
    Some((y, m, d))
}

/// Number of the weekday of a calendar date, 0 for Monday through 6 for
/// Sunday: what the calendar library answers, a function of the date
/// alone.
pub uninterp spec fn weekday_index_of(y: int, m: int, d: int) -> int;

/// Relies on `chrono::NaiveDate::from_ymd_opt`, which accepts every real
/// calendar date in this year range, and on
/// `chrono::Weekday::num_days_from_monday`, which numbers the days 0
/// (Monday) through 6 (Sunday).
#[verifier::external_body]
fn weekday_number(y: u32, m: u32, d: u32) -> (r: u8)
    requires
        spec_valid_ymd(y as int, m as int, d as int),
    ensures
        r < 7,
        r as int == weekday_index_of(y as int, m as int, d as int),
{
    match chrono::NaiveDate::from_ymd_opt(y as i32, m, d) {
        Some(date) => chrono::Datelike::weekday(&date).num_days_from_monday() as u8,
        None => 0,
    }
}

/// The weekday carrying the given number, 0 for Monday through 6 for
/// Sunday.
pub open spec fn spec_weekday_of_index(i: int) -> Weekday {
    if i == 0 {
        Weekday::Mon
    } else if i == 1 {
        Weekday::Tue
    } else if i == 2 {
        Weekday::Wed
    } else if i == 3 {
        Weekday::Thu
    } else if i == 4 {
        Weekday::Fri
    } else if i == 5 {
        Weekday::Sat
    } else {
        Weekday::Sun
    }
}

/// Weekday of a calendar date.
pub fn weekday_for_date(y: u32, m: u32, d: u32) -> (r: Weekday)
    requires
        spec_valid_ymd(y as int, m as int, d as int),
    ensures
        r == spec_weekday_of_index(weekday_index_of(y as int, m as int, d as int)),
{
    let n = weekday_number(y, m, d);
    match n {
        0 => Weekday::Mon,
        1 => Weekday::Tue,
        2 => Weekday::Wed,
        3 => Weekday::Thu,
        4 => Weekday::Fri,
        5 => Weekday::Sat,
        _ => Weekday::Sun,
    }
}

} // verus!
