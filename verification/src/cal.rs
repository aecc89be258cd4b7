use vstd::prelude::*;

use crate::chars::{chars_to_string, str_to_chars};
use crate::numfmt::{dec_str, push_dec_chars};

verus! {

/// A month of the Gregorian calendar.
#[derive(Debug, PartialEq, Eq, Clone, Copy)]
pub enum Month {
    January,
    February,
    March,
    April,
    May,
    June,
    July,
    August,
    September,
    October,
    November,
    December,
}

/// A calendar day, held as plain year, month and day numbers.
#[derive(Debug, PartialEq, Eq, Clone, Copy)]
pub struct Date {
    pub year: i32,
    pub month: u32,
    pub day: u32,
}

impl Month {
    /// The month's one-based number.
    pub open spec fn num(&self) -> int {
        match self {
            Month::January => 1,
            Month::February => 2,
            Month::March => 3,
            Month::April => 4,
            Month::May => 5,
            Month::June => 6,
            Month::July => 7,
            Month::August => 8,
            Month::September => 9,
            Month::October => 10,
            Month::November => 11,
            Month::December => 12,
        }
    }

    /// The month's English name.
    pub open spec fn spec_name(&self) -> Seq<char> {
        match self {
            Month::January => "January"@,
            Month::February => "February"@,
            Month::March => "March"@,
            Month::April => "April"@,
            Month::May => "May"@,
            Month::June => "June"@,
            Month::July => "July"@,
            Month::August => "August"@,
            Month::September => "September"@,
            Month::October => "October"@,
            Month::November => "November"@,
            Month::December => "December"@,
        }
    }

    /// The month's one-based number.
    pub fn number(&self) -> (n: u32)
        ensures
            n as int == self.num(),
            1 <= n <= 12,
    {
        match self {
            Month::January => 1,
            Month::February => 2,
            Month::March => 3,
            Month::April => 4,
            Month::May => 5,
            Month::June => 6,
            Month::July => 7,
            Month::August => 8,
            Month::September => 9,
            Month::October => 10,
            Month::November => 11,
            Month::December => 12,
        }
    }

    /// The month's English name.
    pub fn name(&self) -> (s: String)
        ensures
            s@ == self.spec_name(),
    {
        match self {
            Month::January => String::from_str("January"),
            Month::February => String::from_str("February"),
            Month::March => String::from_str("March"),
            Month::April => String::from_str("April"),
            Month::May => String::from_str("May"),
            Month::June => String::from_str("June"),
            Month::July => String::from_str("July"),
            Month::August => String::from_str("August"),
            Month::September => String::from_str("September"),
            Month::October => String::from_str("October"),
            Month::November => String::from_str("November"),
            Month::December => String::from_str("December"),
        }
    }
}

// ---------------------------------------------------------------------------
// Reading a month name or number.
// ---------------------------------------------------------------------------

/// `c` matches the lower-case pattern character `p` ignoring ASCII case.
pub open spec fn ci_eq(c: char, p: char) -> bool {
    c == p || (65 <= c as u32 <= 90 && (c as u32) + 32 == p as u32)
}

/// `s` is a prefix of the lower-case pattern `pat`, ignoring ASCII case.
pub open spec fn ci_prefix(s: Seq<char>, pat: Seq<char>) -> bool {
    s.len() <= pat.len() && forall|i: int| 0 <= i < s.len() ==> ci_eq(#[trigger] s[i], pat[i])
}

/// `s` equals the lower-case pattern `pat`, ignoring ASCII case.
pub open spec fn ci_exact(s: Seq<char>, pat: Seq<char>) -> bool {
    s.len() == pat.len() && ci_prefix(s, pat)
}

/// The abbreviations that name more than one month.
pub open spec fn ambiguous(s: Seq<char>) -> bool {
    ci_exact(s, "j"@) || ci_exact(s, "ju"@) || ci_exact(s, "a"@) || ci_exact(s, "m"@) || ci_exact(
        s,
        "ma"@,
    )
}

/// The month `s` names: a case-insensitive prefix of its English name, or
/// its number written out, tried in calendar order.
pub open spec fn spec_month_match(s: Seq<char>) -> Option<Month> {
    if ci_prefix(s, "january"@) || s == "1"@ {
        Some(Month::January)
    } else if ci_prefix(s, "february"@) || s == "2"@ {
        Some(Month::February)
    } else if ci_prefix(s, "march"@) || s == "3"@ {
        Some(Month::March)
    } else if ci_prefix(s, "april"@) || s == "4"@ {
        Some(Month::April)
    } else if ci_prefix(s, "may"@) || s == "5"@ {
        Some(Month::May)
    } else if ci_prefix(s, "june"@) || s == "6"@ {
        Some(Month::June)
    } else if ci_prefix(s, "july"@) || s == "7"@ {
        Some(Month::July)
    } else if ci_prefix(s, "august"@) || s == "8"@ {
        Some(Month::August)
    } else if ci_prefix(s, "september"@) || s == "9"@ {
        Some(Month::September)
    } else if ci_prefix(s, "october"@) || s == "10"@ {
        Some(Month::October)
    } else if ci_prefix(s, "november"@) || s == "11"@ {
        Some(Month::November)
    } else if ci_prefix(s, "december"@) || s == "12"@ {
        Some(Month::December)
    } else {
        None
    }
}

/// Why a month argument was rejected, with the offending input.
pub enum MonthErrorModel {
    Ambiguous(Seq<char>),
    Unrecognized(Seq<char>),
}

/// The exact message for each month error.
pub open spec fn month_err_message(e: MonthErrorModel) -> Seq<char> {
    match e {
        MonthErrorModel::Ambiguous(s) => "Ambiguous abbreviation '"@ + s + "'"@,
        MonthErrorModel::Unrecognized(s) => "Unreckognized string '"@ + s + "'"@,
    }
}

/// What reading a month argument yields.
pub open spec fn spec_month_from_str(s: Seq<char>) -> Result<Month, MonthErrorModel> {
    if ambiguous(s) {
        Err(MonthErrorModel::Ambiguous(s))
    } else {
        match spec_month_match(s) {
            Some(m) => Ok(m),
            None => Err(MonthErrorModel::Unrecognized(s)),
        }
    }
}

/// The error a month argument is rejected with.
#[derive(Clone, PartialEq, Eq, Debug)]
pub struct ParseMonthError {
    pub msg: String,
}

/// Whether `c` matches `p` ignoring ASCII case.
fn ci_eq_char(c: char, p: char) -> (b: bool)
    ensures
        b == ci_eq(c, p),
{
    c == p || (65 <= c as u32 && c as u32 <= 90 && c as u32 + 32 == p as u32)
}

/// Whether `s` is a case-insensitive prefix of `pat`.
fn ci_prefix_str(s: &Vec<char>, pat: &str) -> (b: bool)
    ensures
        b == ci_prefix(s@, pat@),
{
    let pv = str_to_chars(pat);
    let n = s.len();
    if n > pv.len() {
        return false;
    }
    let mut i: usize = 0;
    while i < n
        invariant
            n == s@.len(),
            n <= pv@.len(),
            pv@ == pat@,
            i <= n,
            forall|j: int| 0 <= j < i ==> ci_eq(#[trigger] s@[j], pat@[j]),
        decreases n - i,
    {
        if !ci_eq_char(s[i], pv[i]) {
            return false;
        }
        i = i + 1;
    }
    true
}

/// Whether `s` equals `pat` ignoring ASCII case.
fn ci_exact_str(s: &Vec<char>, pat: &str) -> (b: bool)
    ensures
        b == ci_exact(s@, pat@),
{
    let pv = str_to_chars(pat);
    s.len() == pv.len() && ci_prefix_str(s, pat)
}

/// Whether `s` holds exactly the characters of `pat`.
fn eq_str(s: &Vec<char>, pat: &str) -> (b: bool)
    ensures
        b == (s@ == pat@),
{
    let pv = str_to_chars(pat);
    let n = s.len();
    if n != pv.len() {
        proof {
            assert(s@ != pat@);
        }
        return false;
    }
    let mut i: usize = 0;
    while i < n
        invariant
            n == s@.len(),
            n == pv@.len(),
            pv@ == pat@,
            i <= n,
            forall|j: int| 0 <= j < i ==> #[trigger] s@[j] == pat@[j],
        decreases n - i,
    {
        if s[i] != pv[i] {
            proof {
                assert(s@ != pat@);
            }
            return false;
        }
        i = i + 1;
    }
    proof {
        assert(s@ =~= pat@);
    }
    true
}

impl Month {
    /// Reads a month from its English name, any unambiguous case-insensitive
    /// prefix of it, or its number written out.
    pub fn from_str(input: &str) -> (r: Result<Month, ParseMonthError>)
        ensures
            match r {
                Ok(m) => spec_month_from_str(input@) == Ok::<Month, MonthErrorModel>(m),
                Err(e) => {
                    &&& spec_month_from_str(input@) is Err
                    &&& e.msg@ == month_err_message(spec_month_from_str(input@)->Err_0)
                },
            },
    {
        let cs = str_to_chars(input);
        if ci_exact_str(&cs, "j") || ci_exact_str(&cs, "ju") || ci_exact_str(&cs, "a")
            || ci_exact_str(&cs, "m") || ci_exact_str(&cs, "ma") {
            let mut msg = String::from_str("Ambiguous abbreviation '");
            msg.append(input);
            msg.append("'");
            return Err(ParseMonthError { msg });
        }
        if ci_prefix_str(&cs, "january") || eq_str(&cs, "1") {
            Ok(Month::January)
        } else if ci_prefix_str(&cs, "february") || eq_str(&cs, "2") {
            Ok(Month::February)
        } else if ci_prefix_str(&cs, "march") || eq_str(&cs, "3") {
            Ok(Month::March)
        } else if ci_prefix_str(&cs, "april") || eq_str(&cs, "4") {
            Ok(Month::April)
        } else if ci_prefix_str(&cs, "may") || eq_str(&cs, "5") {
            Ok(Month::May)
        } else if ci_prefix_str(&cs, "june") || eq_str(&cs, "6") {
            Ok(Month::June)
        } else if ci_prefix_str(&cs, "july") || eq_str(&cs, "7") {
            Ok(Month::July)
        } else if ci_prefix_str(&cs, "august") || eq_str(&cs, "8") {
            Ok(Month::August)
        } else if ci_prefix_str(&cs, "september") || eq_str(&cs, "9") {
            Ok(Month::September)
        } else if ci_prefix_str(&cs, "october") || eq_str(&cs, "10") {
            Ok(Month::October)
        } else if ci_prefix_str(&cs, "november") || eq_str(&cs, "11") {
            Ok(Month::November)
        } else if ci_prefix_str(&cs, "december") || eq_str(&cs, "12") {
            Ok(Month::December)
        } else {
            let mut msg = String::from_str("Unreckognized string '");
            msg.append(input);
            msg.append("'");
            Err(ParseMonthError { msg })
        }
    }
}

// ---------------------------------------------------------------------------
// Day arithmetic.
// ---------------------------------------------------------------------------

/// A Gregorian leap year.
pub open spec fn is_leap_year(y: int) -> bool {
    (y % 4 == 0 && y % 100 != 0) || y % 400 == 0
}

/// How many days the month has.
pub open spec fn spec_days_in_month(y: int, m: int) -> int {
    if m == 2 {
        if is_leap_year(y) {
            29
        } else {
            28
        }
    } else if m == 4 || m == 6 || m == 9 || m == 11 {
        30
    } else {
        31
    }
}

/// How many days the month has.
pub fn days_in_month(year: i32, month: u32) -> (d: u32)
    requires
        1 <= year,
        1 <= month <= 12,
    ensures
        d as int == spec_days_in_month(year as int, month as int),
        28 <= d <= 31,
{
    if month == 2 {
        if (year % 4 == 0 && year % 100 != 0) || year % 400 == 0 {
            29
        } else {
            28
        }
    } else if month == 4 || month == 6 || month == 9 || month == 11 {
        30
    } else {
        31
    }
}

/// The last day of the month, as a date.
pub fn last_day_in_month(year: i32, month: &Month) -> (d: Date)
    requires
        1 <= year <= 9999,
    ensures
        d.year == year,
        d.month as int == month.num(),
        d.day as int == spec_days_in_month(year as int, month.num()),
{
    let m = month.number();
    Date { year, month: m, day: days_in_month(year, m) }
}

/// The anchor value of each month in the day-of-week formula.
pub open spec fn month_anchor(m: int) -> int {
    if m == 1 {
        0
    } else if m == 2 {
        3
    } else if m == 3 {
        2
    } else if m == 4 {
        5
    } else if m == 5 {
        0
    } else if m == 6 {
        3
    } else if m == 7 {
        5
    } else if m == 8 {
        1
    } else if m == 9 {
        4
    } else if m == 10 {
        6
    } else if m == 11 {
        2
    } else {
        4
    }
}

/// The day of the week of a Gregorian date, with Sunday as zero.
pub open spec fn spec_weekday_sunday0(y: int, m: int, d: int) -> int {
    let yy = if m < 3 {
        y - 1
    } else {
        y
    };
    (yy + yy / 4 - yy / 100 + yy / 400 + month_anchor(m) + d) % 7
}

/// The day of the week, with Sunday as zero.
pub fn weekday_sunday0(year: i32, month: u32, day: u32) -> (w: u32)
    requires
        1 <= year <= 9999,
        1 <= month <= 12,
        1 <= day <= 31,
    ensures
        w as int == spec_weekday_sunday0(year as int, month as int, day as int),
        w < 7,
{
    let yy: i64 = if month < 3 {
        year as i64 - 1
    } else {
        year as i64
    };
    let anchor: i64 = if month == 1 {
        0
    } else if month == 2 {
        3
    } else if month == 3 {
        2
    } else if month == 4 {
        5
    } else if month == 5 {
        0
    } else if month == 6 {
        3
    } else if month == 7 {
        5
    } else if month == 8 {
        1
    } else if month == 9 {
        4
    } else if month == 10 {
        6
    } else if month == 11 {
        2
    } else {
        4
    };
    let sum: i64 = yy + yy / 4 - yy / 100 + yy / 400 + anchor + day as i64;
    proof {
        assert(0 <= yy / 100 <= yy / 4 <= yy);
        assert(sum >= 0);
    }
    (sum % 7) as u32
}

// ---------------------------------------------------------------------------
// Laying out one month.
// ---------------------------------------------------------------------------

/// `n` spaces.
pub open spec fn spaces(n: nat) -> Seq<char> {
    Seq::new(n, |i: int| ' ')
}

/// `s` centred in a field of `width` characters, the spare space split with
/// the smaller half on the left.
pub open spec fn center_in(s: Seq<char>, width: int) -> Seq<char> {
    if s.len() >= width {
        s
    } else {
        let pad = width - s.len();
        spaces((pad / 2) as nat) + s + spaces((pad - pad / 2) as nat)
    }
}

/// The month title: the name, and the year after it when asked for.
pub open spec fn title_of(month: Month, year: int, print_year: bool) -> Seq<char> {
    if print_year {
        month.spec_name() + seq![' '] + dec_str(year as nat)
    } else {
        month.spec_name()
    }
}

/// A day number right-aligned in two characters.
pub open spec fn day_cell(d: int) -> Seq<char> {
    if d < 10 {
        seq![' '] + dec_str(d as nat)
    } else {
        dec_str(d as nat)
    }
}

/// The text wrapped in the terminal's reverse-video and reset sequences.
pub open spec fn reverse_video_of(s: Seq<char>) -> Seq<char> {
    seq!['\u{1b}', '[', '7', 'm'] + s + seq!['\u{1b}', '[', '0', 'm']
}

/// Relies on `ansi_term::Style::paint` with `reverse`: displaying the
/// painted text writes the SGR reverse-video prefix, the text, and the SGR
/// reset suffix.
#[verifier::external_body]
fn reverse_video(s: &str) -> (r: String)
    ensures
        r@ == reverse_video_of(s@),
{
    ansi_term::Style::new().reverse().paint(s).to_string()
}

/// Cell `j` of the six-week grid: the day it carries, highlighted when it
/// is `today`, or blank outside the month.
pub open spec fn grid_cell(year: int, mnum: int, last: int, off: int, today: Date, j: int) -> Seq<
    char,
> {
    let d = j - off + 1;
    if 1 <= d <= last {
        if today.year == year && today.month == mnum && today.day == d {
            reverse_video_of(day_cell(d))
        } else {
            day_cell(d)
        }
    } else {
        "  "@
    }
}

/// Week `w` of the grid: its seven cells joined with single spaces, and two
/// trailing spaces.
pub open spec fn week_row(year: int, mnum: int, last: int, off: int, today: Date, w: int) -> Seq<
    char,
> {
    grid_cell(year, mnum, last, off, today, 7 * w) + " "@ + grid_cell(
        year,
        mnum,
        last,
        off,
        today,
        7 * w + 1,
    ) + " "@ + grid_cell(year, mnum, last, off, today, 7 * w + 2) + " "@ + grid_cell(
        year,
        mnum,
        last,
        off,
        today,
        7 * w + 3,
    ) + " "@ + grid_cell(year, mnum, last, off, today, 7 * w + 4) + " "@ + grid_cell(
        year,
        mnum,
        last,
        off,
        today,
        7 * w + 5,
    ) + " "@ + grid_cell(year, mnum, last, off, today, 7 * w + 6) + "  "@
}

/// The title line: the title centred over the day columns, and two trailing
/// spaces.
pub open spec fn title_line(month: Month, year: int, print_year: bool) -> Seq<char> {
    center_in(title_of(month, year, print_year), 20) + "  "@
}

/// Pushes `n` spaces onto `out`.
pub(crate) fn push_spaces(out: &mut Vec<char>, n: usize)
    ensures
        final(out)@ == old(out)@ + spaces(n as nat),
{
    let mut k: usize = 0;
    while k < n
        invariant
            k <= n,
            out@ == old(out)@ + spaces(k as nat),
        decreases n - k,
    {
        out.push(' ');
        proof {
            assert(out@ =~= old(out)@ + spaces((k + 1) as nat));
        }
        k = k + 1;
    }
}

/// One cell of the grid as printable text.
fn cell_string(year: i32, mnum: u32, last: u32, off: u32, today: &Date, j: u32) -> (s: String)
    requires
        off < 7,
        j < 42,
        1 <= last <= 31,
    ensures
        s@ == grid_cell(year as int, mnum as int, last as int, off as int, *today, j as int),
{
    let d: i64 = j as i64 - off as i64 + 1;
    if 1 <= d && d <= last as i64 {
        let mut cell: Vec<char> = Vec::new();
        if d < 10 {
            cell.push(' ');
        }
        push_dec_chars(&mut cell, d as usize);
        proof {
            assert(cell@ =~= day_cell(d as int));
        }
        let cs = chars_to_string(&cell);
        if today.year == year && today.month == mnum && today.day as i64 == d {
            reverse_video(cs.as_str())
        } else {
            cs
        }
    } else {
        String::from_str("  ")
    }
}

/// Lays out one month as the eight lines of a calendar page: the centred
/// title, the weekday header, and six week rows of two-character day cells,
/// with `today` shown in reverse video.
pub fn format_month(year: i32, month: &Month, print_year: bool, today: Date) -> (r: Vec<String>)
    requires
        1 <= year <= 9999,
    ensures
        ({
            let mnum = month.num();
            let off = spec_weekday_sunday0(year as int, mnum, 1);
            let last = spec_days_in_month(year as int, mnum);
            &&& r.deep_view().len() == 8
            &&& r.deep_view()[0] == title_line(*month, year as int, print_year)
            &&& r.deep_view()[1] == "Su Mo Tu We Th Fr Sa  "@
            &&& forall|w: int|
                0 <= w < 6 ==> r.deep_view()[w + 2] == week_row(
                    year as int,
                    mnum,
                    last,
                    off,
                    today,
                    w,
                )
        }),
{
    let mnum = month.number();
    let off = weekday_sunday0(year, mnum, 1);
    let last = days_in_month(year, mnum);

    // The centred title.
    let mut title: Vec<char> = Vec::new();
    let name = month.name();
    let mut k: usize = 0;
    let namev = str_to_chars(name.as_str());
    while k < namev.len()
        invariant
            k <= namev@.len(),
            namev@ == month.spec_name(),
            title@ == namev@.subrange(0, k as int),
        decreases namev@.len() - k,
    {
        title.push(namev[k]);
        proof {
            assert(title@ =~= namev@.subrange(0, k + 1));
        }
        k = k + 1;
    }
    proof {
        assert(title@ =~= month.spec_name());
    }
    if print_year {
        title.push(' ');
        push_dec_chars(&mut title, year as usize);
        proof {
            assert(title@ =~= title_of(*month, year as int, print_year));
        }
    }
    let tl = title.len();
    let mut first: Vec<char> = Vec::new();
    if tl < 20 {
        let pad = 20 - tl;
        let left = pad / 2;
        push_spaces(&mut first, left);
        let mut k2: usize = 0;
        while k2 < tl
            invariant
                k2 <= tl,
                tl == title@.len(),
                first@ == spaces(((20 - tl) / 2) as nat) + title@.subrange(0, k2 as int),
            decreases tl - k2,
        {
            first.push(title[k2]);
            proof {
                assert(first@ =~= spaces(((20 - tl) / 2) as nat) + title@.subrange(0, k2 + 1));
            }
            k2 = k2 + 1;
        }
        push_spaces(&mut first, pad - left);
        proof {
            assert(title@.subrange(0, tl as int) =~= title@);
            assert(first@ =~= center_in(title@, 20));
        }
    } else {
        let mut k2: usize = 0;
        while k2 < tl
            invariant
                k2 <= tl,
                tl == title@.len(),
                first@ == title@.subrange(0, k2 as int),
            decreases tl - k2,
        {
            first.push(title[k2]);
            proof {
                assert(first@ =~= title@.subrange(0, k2 + 1));
            }
            k2 = k2 + 1;
        }
        proof {
            assert(first@ =~= title@);
        }
    }
    let mut first_line = chars_to_string(&first);
    first_line.append("  ");

    let mut r: Vec<String> = Vec::new();
    r.push(first_line);
    r.push(String::from_str("Su Mo Tu We Th Fr Sa  "));
    proof {
        assert(r.deep_view()[0] =~= title_line(*month, year as int, print_year));
    }
    let mut w: usize = 0;
    while w < 6
        invariant
            w <= 6,
            1 <= year <= 9999,
            mnum as int == month.num(),
            1 <= mnum <= 12,
            off < 7,
            off as int == spec_weekday_sunday0(year as int, month.num(), 1),
            1 <= last <= 31,
            last as int == spec_days_in_month(year as int, month.num()),
            r.deep_view().len() == w + 2,
            r.deep_view()[0] == title_line(*month, year as int, print_year),
            r.deep_view()[1] == "Su Mo Tu We Th Fr Sa  "@,
            forall|v: int|
                0 <= v < w ==> r.deep_view()[v + 2] == week_row(
                    year as int,
                    month.num(),
                    last as int,
                    off as int,
                    today,
                    v,
                ),
        decreases 6 - w,
    {
        let base = (w as u32) * 7;
        let mut row = cell_string(year, mnum, last, off, &today, base);
        row.append(" ");
        let c1 = cell_string(year, mnum, last, off, &today, base + 1);
        row.append(c1.as_str());
        row.append(" ");
        let c2 = cell_string(year, mnum, last, off, &today, base + 2);
        row.append(c2.as_str());
        row.append(" ");
        let c3 = cell_string(year, mnum, last, off, &today, base + 3);
        row.append(c3.as_str());
        row.append(" ");
        let c4 = cell_string(year, mnum, last, off, &today, base + 4);
        row.append(c4.as_str());
        row.append(" ");
        let c5 = cell_string(year, mnum, last, off, &today, base + 5);
        row.append(c5.as_str());
        row.append(" ");
        let c6 = cell_string(year, mnum, last, off, &today, base + 6);
        row.append(c6.as_str());
        row.append("  ");
        proof {
            assert(row@ == week_row(
                year as int,
                month.num(),
                last as int,
                off as int,
                today,
                w as int,
            ));
        }
        r.push(row);
        w = w + 1;
    }
    r
}

} // verus!
