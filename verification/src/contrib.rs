//! The contribution calendar: human-readable month/day names, tooltip
//! parsing, the date-count reconciler, and the ordered series it builds.
use vstd::pervasive::VecAdditionalExecFns;
use vstd::prelude::*;
use vstd::string::StringExecFns;

use crate::dates::{
    days_in_month, parse_iso_chars, spec_parse_iso, spec_short_name, spec_valid_ymd,
    spec_weekday_of_index, spec_weekday_rank, weekday_for_date, weekday_index_of, Weekday,
};
use crate::strutil::{
    chars_eq, chars_vec, find_sub, parse_u32_chars, spec_find, spec_normalize, spec_parse_u32,
    str_eq, string_from_chars, sub_vec, normalize_chars,
};

verus! {

/// Full English name of a month number, empty outside 1 through 12.
pub open spec fn spec_month_name(m: int) -> Seq<char> {
    if m == 1 { "January"@ }
    else if m == 2 { "February"@ }
    else if m == 3 { "March"@ }
    else if m == 4 { "April"@ }
    else if m == 5 { "May"@ }
    else if m == 6 { "June"@ }
    else if m == 7 { "July"@ }
    else if m == 8 { "August"@ }
    else if m == 9 { "September"@ }
    else if m == 10 { "October"@ }
    else if m == 11 { "November"@ }
    else if m == 12 { "December"@ }
    else { Seq::empty() }
}

/// Ordinal form of a day of the month, empty outside 1 through 31. The
/// suffix table is irregular: 1st, 2nd, 3rd and 21st, 22nd, 23rd and
/// 31st, with a uniform `th` everywhere else, 11th through 13th
/// included.
pub open spec fn spec_ordinal(d: int) -> Seq<char> {
    if d == 1 { "1st"@ }
    else if d == 2 { "2nd"@ }
    else if d == 3 { "3rd"@ }
    else if d == 4 { "4th"@ }
    else if d == 5 { "5th"@ }
    else if d == 6 { "6th"@ }
    else if d == 7 { "7th"@ }
    else if d == 8 { "8th"@ }
    else if d == 9 { "9th"@ }
    else if d == 10 { "10th"@ }
    else if d == 11 { "11th"@ }
    else if d == 12 { "12th"@ }
    else if d == 13 { "13th"@ }
    else if d == 14 { "14th"@ }
    else if d == 15 { "15th"@ }
    else if d == 16 { "16th"@ }
    else if d == 17 { "17th"@ }
    else if d == 18 { "18th"@ }
    else if d == 19 { "19th"@ }
    else if d == 20 { "20th"@ }
    else if d == 21 { "21st"@ }
    else if d == 22 { "22nd"@ }
    else if d == 23 { "23rd"@ }
    else if d == 24 { "24th"@ }
    else if d == 25 { "25th"@ }
    else if d == 26 { "26th"@ }
    else if d == 27 { "27th"@ }
    else if d == 28 { "28th"@ }
    else if d == 29 { "29th"@ }
    else if d == 30 { "30th"@ }
    else if d == 31 { "31st"@ }
    else { Seq::empty() }
}

/// Full English name of a month number.
pub fn month_name(m: u32) -> (r: Option<&'static str>)
    ensures
        match r {
            Some(s) => 1 <= m <= 12 && s@ == spec_month_name(m as int),
            None => !(1 <= m <= 12),
        },
{
    match m {
        1 => Some("January"),
        2 => Some("February"),
        3 => Some("March"),
        4 => Some("April"),
        5 => Some("May"),
        6 => Some("June"),
        7 => Some("July"),
        8 => Some("August"),
        9 => Some("September"),
        10 => Some("October"),
        11 => Some("November"),
        12 => Some("December"),
        _ => None,
    }
}

/// Ordinal form of a day of the month, with its irregular suffix table.
pub fn ordinal(d: u32) -> (r: Option<&'static str>)
    ensures
        match r {
            Some(s) => 1 <= d <= 31 && s@ == spec_ordinal(d as int),
            None => !(1 <= d <= 31),
        },
{
    match d {
        1 => Some("1st"),
        2 => Some("2nd"),
        3 => Some("3rd"),
        4 => Some("4th"),
        5 => Some("5th"),
        6 => Some("6th"),
        7 => Some("7th"),
        8 => Some("8th"),
        9 => Some("9th"),
        10 => Some("10th"),
        11 => Some("11th"),
        12 => Some("12th"),
        13 => Some("13th"),
        14 => Some("14th"),
        15 => Some("15th"),
        16 => Some("16th"),
        17 => Some("17th"),
        18 => Some("18th"),
        19 => Some("19th"),
        20 => Some("20th"),
        21 => Some("21st"),
        22 => Some("22nd"),
        23 => Some("23rd"),
        24 => Some("24th"),
        25 => Some("25th"),
        26 => Some("26th"),
        27 => Some("27th"),
        28 => Some("28th"),
        29 => Some("29th"),
        30 => Some("30th"),
        31 => Some("31st"),
        _ => None,
    }
}

/// The human date form of a month and day, `June 3rd`.
pub open spec fn spec_human_date(m: int, d: int) -> Result<Seq<char>, Seq<char>> {
    if !(1 <= m <= 12) {
        Err("invalid month"@)
    } else if !(1 <= d <= 31) {
        Err("invalid day"@)
    } else {
        Ok(spec_month_name(m) + " "@ + spec_ordinal(d))
    }
}

/// Human date of a month and day number: the full month name and the
/// ordinal day, or which of the two was out of range.
pub fn human_date(month: u32, day: u32) -> (r: Result<String, &'static str>)
    ensures
        match r {
            Ok(s) => spec_human_date(month as int, day as int) == Ok::<Seq<char>, Seq<char>>(s@),
            Err(e) => spec_human_date(month as int, day as int) == Err::<Seq<char>, Seq<char>>(e@),
        },
{
    let m: &'static str = match month_name(month) {
        Some(x) => x,
        None => {
            return Err("invalid month");
        },
    };
    let d: &'static str = match ordinal(day) {
        Some(x) => x,
        None => {
            return Err("invalid day");
        },
    };
    let mut out: String = String::from_str(m);
    out.append(" ");
    out.append(d);
    Ok(out)
}

/// The address of a user's profile page, where the contribution
/// calendar is shown.
pub fn github_user_url(user: &str) -> (r: String)
    ensures
        r@ == "https://github.com/"@ + user@,
{
    let mut out: String = String::from_str("https://github.com/");
    out.append(user);
    out
}

/// One parsed tooltip: the human date key, used verbatim, and the
/// authoritative count.
pub struct TooltipFact {
    pub human_date: String,
    pub count: u32,
}

impl View for TooltipFact {
    type V = (Seq<char>, u32);

    open spec fn view(&self) -> (Seq<char>, u32) {
        (self.human_date@, self.count)
    }
}

/// The tooltip text parsed after normalization: the singular form `1
/// contribution on <date>` counts one; otherwise the text left of
/// ` contributions on ` counts, with the literal `No` counting zero;
/// the date right of the split is the key, verbatim. Text of any other
/// shape parses to nothing.
pub open spec fn spec_parse_tooltip(raw: Seq<char>) -> Option<(Seq<char>, u32)> {
    let t = spec_normalize(raw);
    if spec_find(t, "1 contribution "@) is Some {
        match spec_find(t, " contribution on "@) {
            Some(i) => Some((t.subrange(i + " contribution on "@.len(), t.len() as int), 1u32)),
            None => None,
        }
    } else {
        match spec_find(t, " contributions on "@) {
            Some(i) => {
                let left = t.subrange(0, i);
                let right = t.subrange(i + " contributions on "@.len(), t.len() as int);
                if left == "No"@ {
                    Some((right, 0u32))
                } else {
                    match spec_parse_u32(left) {
                        Some(n) => Some((right, n)),
                        None => None,
                    }
                }
            },
            None => None,
        }
    }
}

/// Parse one tooltip text into its fact, if it has the expected shape.
pub fn parse_tooltip(text: &str) -> (r: Option<TooltipFact>)
    ensures
        match r {
            Some(f) => spec_parse_tooltip(text@) == Some((f.human_date@, f.count)),
            None => spec_parse_tooltip(text@) is None,
        },
{
    let raw = chars_vec(text);
    let t = normalize_chars(&raw);
    let pat_single_mark = chars_vec("1 contribution ");
    if find_sub(&t, &pat_single_mark).is_some() {
        let pat_single = chars_vec(" contribution on ");
        match find_sub(&t, &pat_single) {
            Some(i) => {
                proof {
                    crate::strutil::lemma_find_first(t@, pat_single@);
                    assert(crate::strutil::match_at(t@, pat_single@, i as int));
                    assert(i + pat_single@.len() <= t@.len());
                }
                let tlen: usize = t.len();
                let plen: usize = pat_single.len();
                let rest = sub_vec(&t, i + plen, tlen);
                Some(TooltipFact { human_date: string_from_chars(&rest), count: 1 })
            },
            None => None,
        }
    } else {
        let pat_plural = chars_vec(" contributions on ");
        match find_sub(&t, &pat_plural) {
            Some(i) => {
                proof {
                    crate::strutil::lemma_find_first(t@, pat_plural@);
                    assert(crate::strutil::match_at(t@, pat_plural@, i as int));
                    assert(i + pat_plural@.len() <= t@.len());
                }
                let tlen: usize = t.len();
                let plen: usize = pat_plural.len();
                let left = sub_vec(&t, 0, i);
                let rest = sub_vec(&t, i + plen, tlen);
                let no = chars_vec("No");
                if chars_eq(&left, &no) {
                    Some(TooltipFact { human_date: string_from_chars(&rest), count: 0 })
                } else {
                    match parse_u32_chars(&left) {
                        Some(n) => Some(
                            TooltipFact { human_date: string_from_chars(&rest), count: n },
                        ),
                        None => None,
                    }
                }
            },
            None => None,
        }
    }
}

/// Count under a key in the tooltip table, the last entry winning, as
/// repeated inserts into a mapping would leave it.
pub open spec fn spec_lookup(table: Seq<(Seq<char>, u32)>, key: Seq<char>) -> Option<u32>
    decreases table.len(),
{
    if table.len() == 0 {
        None
    } else if table.last().0 == key {
        Some(table.last().1)
    } else {
        spec_lookup(table.drop_last(), key)
    }
}

/// Look a human date up in the tooltip table.
pub fn lookup_tooltip(table: &Vec<TooltipFact>, key: &str) -> (r: Option<u32>)
    ensures
        r == spec_lookup(table@.map_values(|f: TooltipFact| f@), key@),
{
    let ghost tv = table@.map_values(|f: TooltipFact| f@);
    let n: usize = table.len();
    let mut found: Option<u32> = None;
    let mut i: usize = 0;
    while i < n
        invariant
            n == table@.len(),
            tv == table@.map_values(|f: TooltipFact| f@),
            i <= n,
            found == spec_lookup(tv.take(i as int), key@),
        decreases n - i,
    {
        proof {
            assert(tv.take((i + 1) as int).drop_last() =~= tv.take(i as int));
            assert(tv.take((i + 1) as int).last() == tv[i as int]);
            assert(tv[i as int] == table@[i as int]@);
        }
        if str_eq(table[i].human_date.as_str(), key) {
            found = Some(table[i].count);
        }
        i += 1;
    }
    proof {
        assert(tv.take(n as int) =~= tv);
    }
    found
}

/// The tooltip table built from the texts in order: each text that
/// parses contributes its fact, and the rest contribute nothing.
pub open spec fn spec_tooltip_table(texts: Seq<Seq<char>>) -> Seq<(Seq<char>, u32)>
    decreases texts.len(),
{
    if texts.len() == 0 {
        Seq::empty()
    } else {
        let prev = spec_tooltip_table(texts.drop_last());
        match spec_parse_tooltip(texts.last()) {
            Some(p) => prev.push(p),
            None => prev,
        }
    }
}

/// Build the tooltip table from the tooltip texts.
pub fn build_tooltip_table(texts: &Vec<String>) -> (r: Vec<TooltipFact>)
    ensures
        r@.map_values(|f: TooltipFact| f@) == spec_tooltip_table(
            texts@.map_values(|s: String| s@),
        ),
{
    let ghost sv = texts@.map_values(|s: String| s@);
    let n: usize = texts.len();
    let mut out: Vec<TooltipFact> = Vec::new();
    let mut i: usize = 0;
    proof {
        assert(sv.take(0) =~= Seq::<Seq<char>>::empty());
        assert(out@.map_values(|f: TooltipFact| f@) =~= spec_tooltip_table(sv.take(0)));
    }
    while i < n
        invariant
            n == texts@.len(),
            sv == texts@.map_values(|s: String| s@),
            i <= n,
            out@.map_values(|f: TooltipFact| f@) == spec_tooltip_table(sv.take(i as int)),
        decreases n - i,
    {
        proof {
            assert(sv.take((i + 1) as int).drop_last() =~= sv.take(i as int));
            assert(sv.take((i + 1) as int).last() == sv[i as int]);
            assert(sv[i as int] == texts@[i as int]@);
        }
        match parse_tooltip(texts[i].as_str()) {
            Some(f) => {
                let ghost prev = out@.map_values(|f2: TooltipFact| f2@);
                let ghost fv = f@;
                out.push(f);
                proof {
                    assert(out@.map_values(|f2: TooltipFact| f2@) =~= prev.push(fv));
                }
            },
            None => {},
        }
        i += 1;
    }
    proof {
        assert(sv.take(n as int) =~= sv);
    }
    out
}

/// One day cell as the source shows it: its ISO date, its weekday, and
/// the embedded count, which is never trusted once a tooltip exists.
pub struct CalendarDayFact {
    pub iso_date: String,
    pub weekday: Weekday,
    pub count: u32,
}

/// Mathematical form of a day fact or series entry.
pub struct DayFactView {
    pub iso_date: Seq<char>,
    pub weekday: Weekday,
    pub count: u32,
}

impl View for CalendarDayFact {
    type V = DayFactView;

    open spec fn view(&self) -> DayFactView {
        DayFactView { iso_date: self.iso_date@, weekday: self.weekday, count: self.count }
    }
}

/// Mathematical form of a fact list.
pub open spec fn facts_view(s: Seq<CalendarDayFact>) -> Seq<DayFactView> {
    s.map_values(|f: CalendarDayFact| f@)
}

/// The entry's ISO date is canonical and names a real calendar day.
pub open spec fn spec_fact_valid(e: DayFactView) -> bool {
    match spec_parse_iso(e.iso_date) {
        Some(t) => spec_valid_ymd(t.0, t.1, t.2),
        None => false,
    }
}

/// Sort key of a series entry: the date first, then the alphabetical
/// rank of the weekday name — exactly the order of the display keys
/// `<isoDate>, <Weekday>`.
pub open spec fn spec_fact_rank(e: DayFactView) -> int {
    match spec_parse_iso(e.iso_date) {
        Some(t) => (t.0 * 10000 + t.1 * 100 + t.2) * 8 + spec_weekday_rank(e.weekday),
        None => 0,
    }
}

/// A well-formed series: every entry names a real day, and the entries
/// ascend strictly by key.
pub open spec fn wf_series(s: Seq<DayFactView>) -> bool {
    &&& forall|i: int| 0 <= i < s.len() ==> spec_fact_valid(#[trigger] s[i])
    &&& forall|i: int, j: int|
        0 <= i < j < s.len() ==> spec_fact_rank(#[trigger] s[i]) < spec_fact_rank(#[trigger] s[j])
}

/// Position at which a key belongs in the series: the first index whose
/// entry's key is at least the given one, or the length.
pub open spec fn spec_insert_pos(s: Seq<DayFactView>, r: int) -> int
    decreases s.len(),
{
    if s.len() == 0 {
        0
    } else if spec_fact_rank(s[0]) >= r {
        0
    } else {
        1 + spec_insert_pos(s.drop_first(), r)
    }
}

/// What the insert position means.
pub proof fn lemma_insert_pos(s: Seq<DayFactView>, r: int)
    ensures
        0 <= spec_insert_pos(s, r) <= s.len(),
        forall|i: int| 0 <= i < spec_insert_pos(s, r) ==> spec_fact_rank(#[trigger] s[i]) < r,
        spec_insert_pos(s, r) < s.len() ==> spec_fact_rank(s[spec_insert_pos(s, r)]) >= r,
    decreases s.len(),
{
    if s.len() > 0 && spec_fact_rank(s[0]) < r {
        lemma_insert_pos(s.drop_first(), r);
        let p = spec_insert_pos(s, r);
        assert forall|i: int| 0 <= i < p implies spec_fact_rank(#[trigger] s[i]) < r by {
            if i > 0 {
                assert(s.drop_first()[i - 1] == s[i]);
                assert(spec_fact_rank(s.drop_first()[i - 1]) < r);
            }
        }
        if p < s.len() {
            assert(s.drop_first()[p - 1] == s[p]);
        }
    }
}

/// The insert position is the only index that splits the keys this way.
pub proof fn lemma_insert_pos_unique(s: Seq<DayFactView>, r: int, p: int)
    requires
        0 <= p <= s.len(),
        forall|i: int| 0 <= i < p ==> spec_fact_rank(#[trigger] s[i]) < r,
        p < s.len() ==> spec_fact_rank(s[p]) >= r,
    ensures
        spec_insert_pos(s, r) == p,
    decreases s.len(),
{
    if s.len() == 0 {
    } else if spec_fact_rank(s[0]) >= r {
        if p > 0 {
            assert(spec_fact_rank(s[0]) < r);
        }
    } else {
        assert(p > 0);
        assert forall|i: int| 0 <= i < p - 1 implies spec_fact_rank(
            #[trigger] s.drop_first()[i],
        ) < r by {
            assert(s.drop_first()[i] == s[i + 1]);
        }
        if p - 1 < s.len() - 1 {
            assert(s.drop_first()[p - 1] == s[p]);
        }
        lemma_insert_pos_unique(s.drop_first(), r, p - 1);
    }
}

/// The series after an entry is put in: an entry with the same key is
/// replaced in place, and otherwise the new entry takes its position,
/// as one insert into an ordered mapping would leave it.
pub open spec fn spec_series_insert(s: Seq<DayFactView>, e: DayFactView) -> Seq<DayFactView> {
    let p = spec_insert_pos(s, spec_fact_rank(e));
    if p < s.len() && spec_fact_rank(s[p]) == spec_fact_rank(e) {
        s.update(p, e)
    } else {
        s.insert(p, e)
    }
}

/// Putting a valid entry into a well-formed series keeps it well-formed.
#[verifier::rlimit(50)]
pub proof fn lemma_series_insert_wf(s: Seq<DayFactView>, e: DayFactView)
    requires
        wf_series(s),
        spec_fact_valid(e),
    ensures
        wf_series(spec_series_insert(s, e)),
{
    let r = spec_fact_rank(e);
    let p = spec_insert_pos(s, r);
    lemma_insert_pos(s, r);
    if p < s.len() && spec_fact_rank(s[p]) == r {
        let out = s.update(p, e);
        assert forall|i: int| 0 <= i < out.len() implies spec_fact_valid(#[trigger] out[i]) by {
            if i != p {
                assert(out[i] == s[i]);
            }
        }
        assert forall|i: int, j: int| 0 <= i < j < out.len() implies spec_fact_rank(
            #[trigger] out[i],
        ) < spec_fact_rank(#[trigger] out[j]) by {
            assert(spec_fact_rank(out[i]) == spec_fact_rank(s[i]));
            assert(spec_fact_rank(out[j]) == spec_fact_rank(s[j]));
        }
    } else {
        let out = s.insert(p, e);
        s.insert_ensures(p, e);
        assert forall|i: int| 0 <= i < out.len() implies spec_fact_valid(#[trigger] out[i]) by {
            if i < p {
                assert(out[i] == s[i]);
            } else if i == p {
                assert(out[i] == e);
            } else {
                assert(out[i] == s[i - 1]);
            }
        }
        assert forall|i: int, j: int| 0 <= i < j < out.len() implies spec_fact_rank(
            #[trigger] out[i],
        ) < spec_fact_rank(#[trigger] out[j]) by {
            if p < s.len() {
                assert(spec_fact_rank(s[p]) > r);
            }
            if j < p {
                assert(out[i] == s[i] && out[j] == s[j]);
            } else if j == p {
                assert(out[j] == e);
                assert(out[i] == s[i] && spec_fact_rank(s[i]) < r);
            } else {
                assert(out[j] == s[j - 1]);
                if i < p {
                    assert(out[i] == s[i]);
                    if j - 1 == p {
                    } else {
                        assert(spec_fact_rank(s[p]) >= r);
                    }
                } else if i == p {
                    assert(out[i] == e);
                    assert(spec_fact_rank(s[j - 1]) >= spec_fact_rank(s[p]));
                } else {
                    assert(out[i] == s[i - 1]);
                }
            }
        }
    }
}

/// Sort key of a valid entry, computed from its date and weekday.
fn fact_rank(f: &CalendarDayFact) -> (r: u32)
    requires
        spec_fact_valid(f@),
    ensures
        r as int == spec_fact_rank(f@),
{
    let cs = chars_vec(f.iso_date.as_str());
    let parsed = parse_iso_chars(&cs);
    proof {
        crate::dates::lemma_digits_value_bound(f.iso_date@.subrange(0, 4));
        crate::dates::lemma_digits_value_bound(f.iso_date@.subrange(5, 7));
        crate::dates::lemma_digits_value_bound(f.iso_date@.subrange(8, 10));
        assert(crate::dates::pow10(4) == 10000 && crate::dates::pow10(2) == 100) by {
            assert(crate::dates::pow10(0) == 1);
            assert(crate::dates::pow10(1) == 10);
            assert(crate::dates::pow10(2) == 100);
            assert(crate::dates::pow10(3) == 1000);
        }
    }
    match parsed {
        Some(t) => {
            let (y, m, d) = t;
            (y * 10000 + m * 100 + d) * 8 + f.weekday.rank()
        },
        None => 0,
    }
}

/// First position whose entry's key is at least the given one.
fn find_insert_pos(days: &Vec<CalendarDayFact>, rk: u32) -> (p: usize)
    requires
        forall|i: int|
            0 <= i < days@.len() ==> spec_fact_valid(#[trigger] facts_view(days@)[i]),
    ensures
        p <= days@.len(),
        forall|i: int| 0 <= i < p ==> spec_fact_rank(#[trigger] facts_view(days@)[i]) < rk as int,
        p < days@.len() ==> spec_fact_rank(facts_view(days@)[p as int]) >= rk as int,
{
    let ghost sv = facts_view(days@);
    let n: usize = days.len();
    let mut p: usize = 0;
    while p < n
        invariant
            n == days@.len(),
            sv == facts_view(days@),
            forall|i: int| 0 <= i < n ==> spec_fact_valid(#[trigger] sv[i]),
            p <= n,
            forall|i: int| 0 <= i < p ==> spec_fact_rank(#[trigger] sv[i]) < rk as int,
        decreases n - p,
    {
        proof {
            assert(sv[p as int] == days@[p as int]@);
        }
        if fact_rank(&days[p]) >= rk {
            return p;
        }
        p += 1;
    }
    p
}

/// Put one entry into the series, keeping it ordered by key.
fn series_insert(days: &mut Vec<CalendarDayFact>, e: CalendarDayFact)
    requires
        wf_series(facts_view(old(days)@)),
        spec_fact_valid(e@),
    ensures
        facts_view(final(days)@) == spec_series_insert(facts_view(old(days)@), e@),
        wf_series(facts_view(final(days)@)),
{
    let ghost sv = facts_view(days@);
    let ghost ev = e@;
    let rk = fact_rank(&e);
    let n: usize = days.len();
    let p = find_insert_pos(days, rk);
    proof {
        lemma_insert_pos_unique(sv, rk as int, p as int);
        lemma_series_insert_wf(sv, ev);
    }
    if p < n {
        proof {
            assert(sv[p as int] == days@[p as int]@);
        }
        let cur = fact_rank(&days[p]);
        if cur == rk {
            days.set(p, e);
            proof {
                assert(facts_view(days@) =~= sv.update(p as int, ev));
            }
            return ;
        }
    }
    days.insert(p, e);
    proof {
        assert(facts_view(days@) =~= sv.insert(p as int, ev));
    }
}

/// A per-day defect found while reconciling, reported and never fatal
/// to the batch.
pub enum ReconcileIssue {
    /// The day's human date matched no tooltip, so its count is unknown
    /// and the day is left out of the series rather than guessed.
    NoTooltipMatch { iso_date: String, human_date: String },
    /// The day's date is not a canonical date of the calendar.
    InvalidDate { iso_date: String },
}

/// Mathematical form of a reconciliation defect.
pub enum IssueView {
    NoTooltipMatch { iso_date: Seq<char>, human_date: Seq<char> },
    InvalidDate { iso_date: Seq<char> },
}

impl View for ReconcileIssue {
    type V = IssueView;

    open spec fn view(&self) -> IssueView {
        match self {
            ReconcileIssue::NoTooltipMatch { iso_date, human_date } => IssueView::NoTooltipMatch {
                iso_date: iso_date@,
                human_date: human_date@,
            },
            ReconcileIssue::InvalidDate { iso_date } => IssueView::InvalidDate {
                iso_date: iso_date@,
            },
        }
    }
}

/// Mathematical form of an issue list.
pub open spec fn issues_view(s: Seq<ReconcileIssue>) -> Seq<IssueView> {
    s.map_values(|i: ReconcileIssue| i@)
}

/// One reconciliation step: an empty date is passed over; a date that is
/// not canonical or not a real day is reported; a day whose human date
/// has a tooltip takes the tooltip's count into the series, the
/// embedded cell count never trusted; a day without one is reported.
pub open spec fn spec_reconcile_step(
    series: Seq<DayFactView>,
    issues: Seq<IssueView>,
    c: DayFactView,
    table: Seq<(Seq<char>, u32)>,
) -> (Seq<DayFactView>, Seq<IssueView>) {
    if c.iso_date.len() == 0 {
        (series, issues)
    } else {
        match spec_parse_iso(c.iso_date) {
            Some(t) => if spec_valid_ymd(t.0, t.1, t.2) {
                let hd = spec_month_name(t.1) + " "@ + spec_ordinal(t.2);
                match spec_lookup(table, hd) {
                    Some(cnt) => (
                        spec_series_insert(
                            series,
                            DayFactView { iso_date: c.iso_date, weekday: c.weekday, count: cnt },
                        ),
                        issues,
                    ),
                    None => (
                        series,
                        issues.push(
                            IssueView::NoTooltipMatch { iso_date: c.iso_date, human_date: hd },
                        ),
                    ),
                }
            } else {
                (series, issues.push(IssueView::InvalidDate { iso_date: c.iso_date }))
            },
            None => (series, issues.push(IssueView::InvalidDate { iso_date: c.iso_date })),
        }
    }
}

/// The whole reconciliation, cell by cell in document order.
pub open spec fn spec_reconcile_seq(
    cells: Seq<DayFactView>,
    table: Seq<(Seq<char>, u32)>,
) -> (Seq<DayFactView>, Seq<IssueView>)
    decreases cells.len(),
{
    if cells.len() == 0 {
        (Seq::empty(), Seq::empty())
    } else {
        let prev = spec_reconcile_seq(cells.drop_last(), table);
        spec_reconcile_step(prev.0, prev.1, cells.last(), table)
    }
}

/// Every series the reconciliation builds is well-formed.
pub proof fn lemma_reconcile_wf(cells: Seq<DayFactView>, table: Seq<(Seq<char>, u32)>)
    ensures
        wf_series(spec_reconcile_seq(cells, table).0),
    decreases cells.len(),
{
    if cells.len() == 0 {
        assert(wf_series(Seq::<DayFactView>::empty()));
    } else {
        lemma_reconcile_wf(cells.drop_last(), table);
        let prev = spec_reconcile_seq(cells.drop_last(), table);
        let c = cells.last();
        if c.iso_date.len() > 0 {
            match spec_parse_iso(c.iso_date) {
                Some(t) => {
                    if spec_valid_ymd(t.0, t.1, t.2) {
                        let hd = spec_month_name(t.1) + " "@ + spec_ordinal(t.2);
                        match spec_lookup(table, hd) {
                            Some(cnt) => {
                                let e = DayFactView {
                                    iso_date: c.iso_date,
                                    weekday: c.weekday,
                                    count: cnt,
                                };
                                assert(spec_fact_valid(e));
                                lemma_series_insert_wf(prev.0, e);
                            },
                            None => {},
                        }
                    }
                },
                None => {},
            }
        }
    }
}

/// Duplicate of one day fact.
fn clone_fact(f: &CalendarDayFact) -> (r: CalendarDayFact)
    ensures
        r@ == f@,
{
    CalendarDayFact { iso_date: f.iso_date.clone(), weekday: f.weekday, count: f.count }
}

/// The display key of a series entry: `<isoDate>, <Weekday>`.
pub open spec fn spec_key_string(e: DayFactView) -> Seq<char> {
    e.iso_date + ", "@ + spec_short_name(e.weekday)
}

impl CalendarDayFact {
    /// The display key of this entry.
    pub fn key_string(&self) -> (r: String)
        ensures
            r@ == spec_key_string(self@),
    {
        let mut out: String = String::from_str(self.iso_date.as_str());
        out.append(", ");
        out.append(self.weekday.short_name());
        out
    }
}

/// The day fact of one calendar cell: the date as given, the weekday the
/// calendar computes for it when it is a real day, and the cell's count
/// left at zero, as nothing ever trusts it.
pub open spec fn spec_cell_fact(s: Seq<char>) -> DayFactView {
    DayFactView {
        iso_date: s,
        weekday: match spec_parse_iso(s) {
            Some(t) => if spec_valid_ymd(t.0, t.1, t.2) {
                spec_weekday_of_index(weekday_index_of(t.0, t.1, t.2))
            } else {
                Weekday::Mon
            },
            None => Weekday::Mon,
        },
        count: 0,
    }
}

/// Build the day fact of one cell's date attribute.
pub fn day_fact_from_cell(date: &str) -> (r: CalendarDayFact)
    ensures
        r@ == spec_cell_fact(date@),
{
    let cs = chars_vec(date);
    let mut weekday = Weekday::Mon;
    match parse_iso_chars(&cs) {
        Some(t) => {
            let (y, m, d) = t;
            proof {
                crate::dates::lemma_digits_value_bound(date@.subrange(0, 4));
                assert(crate::dates::pow10(4) == 10000) by {
                    assert(crate::dates::pow10(0) == 1);
                    assert(crate::dates::pow10(1) == 10);
                    assert(crate::dates::pow10(2) == 100);
                    assert(crate::dates::pow10(3) == 1000);
                }
            }
            let mut ok = false;
            if 1 <= m && m <= 12 {
                if 1 <= d && d <= days_in_month(y, m) {
                    ok = true;
                }
            }
            if ok {
                weekday = weekday_for_date(y, m, d);
            }
        },
        None => {},
    }
    CalendarDayFact { iso_date: String::from_str(date), weekday, count: 0 }
}

/// Build the day facts of all cells, in document order.
pub fn cell_facts(dates: &Vec<String>) -> (r: Vec<CalendarDayFact>)
    ensures
        facts_view(r@) == dates@.map_values(|s: String| s@).map_values(
            |s: Seq<char>| spec_cell_fact(s),
        ),
{
    let ghost dv = dates@.map_values(|s: String| s@).map_values(|s: Seq<char>| spec_cell_fact(s));
    let n: usize = dates.len();
    let mut out: Vec<CalendarDayFact> = Vec::new();
    let mut i: usize = 0;
    proof {
        assert(facts_view(out@) =~= dv.take(0));
    }
    while i < n
        invariant
            n == dates@.len(),
            dv == dates@.map_values(|s: String| s@).map_values(|s: Seq<char>| spec_cell_fact(s)),
            i <= n,
            facts_view(out@) == dv.take(i as int),
        decreases n - i,
    {
        let f = day_fact_from_cell(dates[i].as_str());
        let ghost prev = facts_view(out@);
        let ghost fv = f@;
        out.push(f);
        proof {
            assert(dv[i as int] == spec_cell_fact(dates@[i as int]@));
            assert(facts_view(out@) =~= prev.push(fv));
            assert(dv.take((i + 1) as int) =~= dv.take(i as int).push(dv[i as int]));
        }
        i += 1;
    }
    proof {
        assert(dv.take(n as int) =~= dv);
    }
    out
}

/// The reconciled series: one count per day, ordered ascending by its
/// display key.
pub struct Contributions {
    days: Vec<CalendarDayFact>,
}

impl View for Contributions {
    type V = Seq<DayFactView>;

    closed spec fn view(&self) -> Seq<DayFactView> {
        facts_view(self.days@)
    }
}

impl Contributions {
    /// The series is well-formed: every entry a real day, keys strictly
    /// ascending.
    pub open spec fn wf(&self) -> bool {
        wf_series(self@)
    }

    /// Reconcile the cell set against the tooltip set: the series holds
    /// the tooltip count of every day both sides know, and the issue
    /// list reports each day neither guessed nor kept.
    pub fn reconcile(cells: &Vec<CalendarDayFact>, tooltips: &Vec<TooltipFact>) -> (r: (
        Contributions,
        Vec<ReconcileIssue>,
    ))
        ensures
            ({
                let res = spec_reconcile_seq(
                    facts_view(cells@),
                    tooltips@.map_values(|f: TooltipFact| f@),
                );
                &&& r.0@ == res.0
                &&& issues_view(r.1@) == res.1
                &&& r.0.wf()
            }),
    {
        let ghost cv = facts_view(cells@);
        let ghost tv = tooltips@.map_values(|f: TooltipFact| f@);
        let n: usize = cells.len();
        let mut days: Vec<CalendarDayFact> = Vec::new();
        let mut issues: Vec<ReconcileIssue> = Vec::new();
        let mut i: usize = 0;
        proof {
            assert(cv.take(0) =~= Seq::<DayFactView>::empty());
            assert(facts_view(days@) =~= Seq::<DayFactView>::empty());
            assert(issues_view(issues@) =~= Seq::<IssueView>::empty());
        }
        while i < n
            invariant
                n == cells@.len(),
                cv == facts_view(cells@),
                tv == tooltips@.map_values(|f: TooltipFact| f@),
                i <= n,
                (facts_view(days@), issues_view(issues@)) == spec_reconcile_seq(
                    cv.take(i as int),
                    tv,
                ),
                wf_series(facts_view(days@)),
            decreases n - i,
        {
            proof {
                assert(cv.take((i + 1) as int).drop_last() =~= cv.take(i as int));
                assert(cv.take((i + 1) as int).last() == cv[i as int]);
                assert(cv[i as int] == cells@[i as int]@);
            }
            let c = &cells[i];
            if c.iso_date.as_str().is_empty() {
            } else {
                let cs = chars_vec(c.iso_date.as_str());
                match parse_iso_chars(&cs) {
                    Some(t) => {
                        let (y, m, d) = t;
                        proof {
                            crate::dates::lemma_digits_value_bound(c.iso_date@.subrange(0, 4));
                            assert(crate::dates::pow10(4) == 10000) by {
                                assert(crate::dates::pow10(0) == 1);
                                assert(crate::dates::pow10(1) == 10);
                                assert(crate::dates::pow10(2) == 100);
                                assert(crate::dates::pow10(3) == 1000);
                            }
                        }
                        let mut ok = false;
                        if 1 <= m && m <= 12 {
                            if 1 <= d && d <= days_in_month(y, m) {
                                ok = true;
                            }
                        }
                        proof {
                            assert(ok == spec_valid_ymd(y as int, m as int, d as int));
                        }
                        if ok {
                            match human_date(m, d) {
                                Ok(hd) => {
                                    match lookup_tooltip(tooltips, hd.as_str()) {
                                        Some(cnt) => {
                                            let e = CalendarDayFact {
                                                iso_date: c.iso_date.clone(),
                                                weekday: c.weekday,
                                                count: cnt,
                                            };
                                            proof {
                                                assert(spec_fact_valid(e@));
                                            }
                                            series_insert(&mut days, e);
                                        },
                                        None => {
                                            issues.push(
                                                ReconcileIssue::NoTooltipMatch {
                                                    iso_date: c.iso_date.clone(),
                                                    human_date: hd,
                                                },
                                            );
                                            proof {
                                                assert(issues_view(issues@) =~= issues_view(
                                                    issues@.drop_last(),
                                                ).push(issues@.last()@));
                                            }
                                        },
                                    }
                                },
                                Err(_) => {
                                    proof {
                                        assert(false);
                                    }
                                },
                            }
                        } else {
                            issues.push(
                                ReconcileIssue::InvalidDate { iso_date: c.iso_date.clone() },
                            );
                            proof {
                                assert(issues_view(issues@) =~= issues_view(
                                    issues@.drop_last(),
                                ).push(issues@.last()@));
                            }
                        }
                    },
                    None => {
                        issues.push(ReconcileIssue::InvalidDate { iso_date: c.iso_date.clone() });
                        proof {
                            assert(issues_view(issues@) =~= issues_view(issues@.drop_last()).push(
                                issues@.last()@,
                            ));
                        }
                    },
                }
            }
            i += 1;
        }
        proof {
            assert(cv.take(n as int) =~= cv);
        }
        (Contributions { days }, issues)
    }

    /// Reconcile straight from the extracted page texts: the tooltip
    /// texts parsed into the table, the cell dates turned into day
    /// facts, then the two sides matched.
    pub fn from_document_parts(tooltip_texts: &Vec<String>, cell_dates: &Vec<String>) -> (r: (
        Contributions,
        Vec<ReconcileIssue>,
    ))
        ensures
            ({
                let res = spec_reconcile_seq(
                    cell_dates@.map_values(|s: String| s@).map_values(
                        |s: Seq<char>| spec_cell_fact(s),
                    ),
                    spec_tooltip_table(tooltip_texts@.map_values(|s: String| s@)),
                );
                &&& r.0@ == res.0
                &&& issues_view(r.1@) == res.1
                &&& r.0.wf()
            }),
    {
        let table = build_tooltip_table(tooltip_texts);
        let cells = cell_facts(cell_dates);
        Contributions::reconcile(&cells, &table)
    }

    /// The whole series, in key order.
    pub fn entries(&self) -> (r: &Vec<CalendarDayFact>)
        ensures
            facts_view(r@) == self@,
    {
        &self.days
    }

    /// The latest `days` entries of the series, in key order: the whole
    /// series when `days` is not smaller than its length, and the empty
    /// series when `days` is zero.
    pub fn latest(&self, days: u32) -> (r: Contributions)
        requires
            self.wf(),
        ensures
            r@ == (if days as int >= self@.len() {
                self@
            } else {
                self@.subrange(self@.len() - days as int, self@.len() as int)
            }),
            r.wf(),
    {
        let n: usize = self.days.len();
        let start: usize = if (days as usize) >= n {
            0
        } else {
            n - (days as usize)
        };
        let mut out: Vec<CalendarDayFact> = Vec::new();
        let mut i: usize = start;
        proof {
            assert(facts_view(out@) =~= self@.subrange(start as int, start as int));
        }
        while i < n
            invariant
                n == self.days@.len(),
                self@ == facts_view(self.days@),
                start <= i <= n,
                facts_view(out@) == self@.subrange(start as int, i as int),
            decreases n - i,
        {
            let f = clone_fact(&self.days[i]);
            let ghost prev = facts_view(out@);
            let ghost fv = f@;
            out.push(f);
            proof {
                assert(self@[i as int] == self.days@[i as int]@);
                assert(facts_view(out@) =~= prev.push(fv));
                assert(self@.subrange(start as int, (i + 1) as int) =~= self@.subrange(
                    start as int,
                    i as int,
                ).push(self@[i as int]));
            }
            i += 1;
        }
        proof {
            if days as int >= self@.len() {
                assert(self@.subrange(start as int, n as int) =~= self@);
            }
            assert forall|a: int| 0 <= a < facts_view(out@).len() implies spec_fact_valid(
                #[trigger] facts_view(out@)[a],
            ) by {
                assert(facts_view(out@)[a] == self@[start + a]);
            }
            assert forall|a: int, b: int| 0 <= a < b < facts_view(out@).len() implies
                spec_fact_rank(#[trigger] facts_view(out@)[a]) < spec_fact_rank(
                #[trigger] facts_view(out@)[b],
            ) by {
                assert(facts_view(out@)[a] == self@[start + a]);
                assert(facts_view(out@)[b] == self@[start + b]);
            }
        }
        Contributions { days: out }
    }

    /// The series as display pairs: the key `<isoDate>, <Weekday>` and
    /// the reconciled count, in key order.
    pub fn to_pairs(&self) -> (r: Vec<(String, u32)>)
        ensures
            r@.map_values(|p: (String, u32)| (p.0@, p.1)) == self@.map_values(
                |e: DayFactView| (spec_key_string(e), e.count),
            ),
    {
        let ghost goal = self@.map_values(|e: DayFactView| (spec_key_string(e), e.count));
        let n: usize = self.days.len();
        let mut out: Vec<(String, u32)> = Vec::new();
        let mut i: usize = 0;
        proof {
            assert(out@.map_values(|p: (String, u32)| (p.0@, p.1)) =~= goal.take(0));
        }
        while i < n
            invariant
                n == self.days@.len(),
                self@ == facts_view(self.days@),
                goal == self@.map_values(|e: DayFactView| (spec_key_string(e), e.count)),
                i <= n,
                out@.map_values(|p: (String, u32)| (p.0@, p.1)) == goal.take(i as int),
            decreases n - i,
        {
            let key = self.days[i].key_string();
            let cnt = self.days[i].count;
            let ghost prev = out@.map_values(|p: (String, u32)| (p.0@, p.1));
            let ghost kv = key@;
            out.push((key, cnt));
            proof {
                assert(self@[i as int] == self.days@[i as int]@);
                assert(goal[i as int] == (spec_key_string(self@[i as int]), self@[i as int].count));
                assert(out@.map_values(|p: (String, u32)| (p.0@, p.1)) =~= prev.push(
                    (kv, cnt),
                ));
                assert(goal.take((i + 1) as int) =~= goal.take(i as int).push(goal[i as int]));
            }
            i += 1;
        }
        proof {
            assert(goal.take(n as int) =~= goal);
        }
        out
    }
}

/// In a well-formed series the ISO dates never descend: the numeric key
/// order the series keeps is the lexicographic order of the canonical
/// dates, which is their chronological order.
pub proof fn lemma_series_dates_ascend(s: Seq<DayFactView>)
    requires
        wf_series(s),
    ensures
        forall|i: int, j: int|
            0 <= i < j < s.len() ==> crate::strutil::lex_lt(
                #[trigger] s[i].iso_date,
                #[trigger] s[j].iso_date,
            ) || s[i].iso_date == s[j].iso_date,
{
    assert forall|i: int, j: int| 0 <= i < j < s.len() implies crate::strutil::lex_lt(
        #[trigger] s[i].iso_date,
        #[trigger] s[j].iso_date,
    ) || s[i].iso_date == s[j].iso_date by {
        let a = s[i].iso_date;
        let b = s[j].iso_date;
        assert(spec_fact_valid(s[i]) && spec_fact_valid(s[j]));
        assert(spec_fact_rank(s[i]) < spec_fact_rank(s[j]));
        let ta = spec_parse_iso(a)->Some_0;
        let tb = spec_parse_iso(b)->Some_0;
        let na = ta.0 * 10000 + ta.1 * 100 + ta.2;
        let nb = tb.0 * 10000 + tb.1 * 100 + tb.2;
        assert(0 <= spec_weekday_rank(s[i].weekday) <= 6);
        assert(0 <= spec_weekday_rank(s[j].weekday) <= 6);
        assert(na <= nb);
        crate::dates::lemma_iso_date_order_is_lex(a, b);
        if na == nb {
            crate::dates::lemma_iso_date_order_is_lex(b, a);
            crate::strutil::lemma_lex_trichotomy(a, b);
        }
    }
}

/// In a well-formed series the display keys `<isoDate>, <Weekday>`
/// strictly ascend in lexicographic order: the order stored is exactly
/// the order an ordered mapping on the keys would show.
pub proof fn lemma_series_keys_ascend(s: Seq<DayFactView>)
    requires
        wf_series(s),
    ensures
        forall|i: int, j: int|
            0 <= i < j < s.len() ==> crate::strutil::lex_lt(
                spec_key_string(#[trigger] s[i]),
                spec_key_string(#[trigger] s[j]),
            ),
{
    assert forall|i: int, j: int| 0 <= i < j < s.len() implies crate::strutil::lex_lt(
        spec_key_string(#[trigger] s[i]),
        spec_key_string(#[trigger] s[j]),
    ) by {
        let a = s[i].iso_date;
        let b = s[j].iso_date;
        assert(spec_fact_valid(s[i]) && spec_fact_valid(s[j]));
        assert(spec_fact_rank(s[i]) < spec_fact_rank(s[j]));
        let ta = spec_parse_iso(a)->Some_0;
        let tb = spec_parse_iso(b)->Some_0;
        let na = ta.0 * 10000 + ta.1 * 100 + ta.2;
        let nb = tb.0 * 10000 + tb.1 * 100 + tb.2;
        assert(0 <= spec_weekday_rank(s[i].weekday) <= 6);
        assert(0 <= spec_weekday_rank(s[j].weekday) <= 6);
        assert(na <= nb);
        crate::dates::lemma_iso_date_order_is_lex(a, b);
        let sufa = ", "@ + spec_short_name(s[i].weekday);
        let sufb = ", "@ + spec_short_name(s[j].weekday);
        assert(spec_key_string(s[i]) == a + sufa);
        assert(spec_key_string(s[j]) == b + sufb);
        crate::strutil::lemma_lex_concat(a, b, sufa, sufb);
        if na == nb {
            crate::dates::lemma_iso_date_order_is_lex(b, a);
            crate::strutil::lemma_lex_trichotomy(a, b);
            assert(a == b);
            assert(spec_weekday_rank(s[i].weekday) < spec_weekday_rank(s[j].weekday));
            crate::dates::lemma_weekday_rank_is_name_order(s[i].weekday, s[j].weekday);
            crate::strutil::lemma_lex_concat(
                ", "@,
                ", "@,
                spec_short_name(s[i].weekday),
                spec_short_name(s[j].weekday),
            );
        }
    }
}

/// Reconciling the same cell set and tooltip set twice yields the same
/// series and the same diagnostics: the result is a function of the two
/// sets alone.
pub proof fn lemma_reconcile_idempotent(
    cells: Seq<DayFactView>,
    table: Seq<(Seq<char>, u32)>,
    first: (Seq<DayFactView>, Seq<IssueView>),
    second: (Seq<DayFactView>, Seq<IssueView>),
)
    requires
        first == spec_reconcile_seq(cells, table),
        second == spec_reconcile_seq(cells, table),
    ensures
        first == second,
{
}

} // verus!
