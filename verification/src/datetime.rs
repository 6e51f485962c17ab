//! Calendar date-times: the plain-value model of a parsed date-time, the renderings
//! the library produces, normalisation of the export's dates, and Pacific display.

use vstd::prelude::*;

use chrono::{Datelike, TimeZone, Timelike};

use crate::models::opt_text;
use crate::text::{
    chars_of, lemma_concat_eq, lemma_concat_less, lemma_find_from_occurs, text_less, copy_from, copy_range, ends_with_chars, find_chars, find_first, find_from,
    has_suffix, occurs_at, replace_all, replace_chars, string_of, trim_chars, trim_ws,
};

verus! {

/// The earliest year a calendar date can have.
pub const MIN_YEAR: i32 = -262143;

/// The latest year a calendar date can have.
pub const MAX_YEAR: i32 = 262142;

/// A calendar date and time of day with no time zone attached.
/// A `nanosecond` of at least one second marks a leap second (only at second 59).
#[derive(Clone, Copy, Debug, PartialEq, Eq, Structural)]
pub struct DateTimeFields {
    pub year: i32,
    pub month: u32,
    pub day: u32,
    pub hour: u32,
    pub minute: u32,
    pub second: u32,
    pub nanosecond: u32,
}

/// Leap years of the proleptic Gregorian calendar.
pub open spec fn is_leap_year(y: int) -> bool {
    (y % 4 == 0 && y % 100 != 0) || y % 400 == 0
}

/// Number of days of month `m` (1 to 12) in year `y`.
pub open spec fn days_in_month(y: int, m: int) -> int {
    if m == 2 {
        if is_leap_year(y) { 29 } else { 28 }
    } else if m == 4 || m == 6 || m == 9 || m == 11 {
        30
    } else {
        31
    }
}

impl DateTimeFields {
    /// The fields name an existing calendar date and time of day.
    pub open spec fn valid(self) -> bool {
        &&& MIN_YEAR <= self.year <= MAX_YEAR
        &&& 1 <= self.month <= 12
        &&& 1 <= self.day <= days_in_month(self.year as int, self.month as int)
        &&& self.hour < 24
        &&& self.minute < 60
        &&& self.second < 60
        &&& self.nanosecond < 2_000_000_000
        &&& self.nanosecond >= 1_000_000_000 ==> self.second == 59
    }

    /// The second as written out: 60 during a leap second.
    pub open spec fn shown_second(self) -> int {
        self.second + self.nanosecond / 1_000_000_000
    }
}

/// The character for a decimal digit.
pub open spec fn digit_char(d: int) -> char {
    (48 + d) as char
}

/// Decimal digits of `n`, most significant first, without leading zeros.
pub open spec fn decimal_digits(n: nat) -> Seq<char>
    decreases n,
{
    if n < 10 {
        seq![digit_char(n as int)]
    } else {
        decimal_digits(n / 10).push(digit_char((n % 10) as int))
    }
}

/// `s` with zeros in front up to `width` characters.
pub open spec fn zero_pad(s: Seq<char>, width: nat) -> Seq<char>
    decreases width,
{
    if s.len() >= width || width == 0 {
        s
    } else {
        seq!['0'] + zero_pad(s, (width - 1) as nat)
    }
}

/// A number below 100 as two digits.
pub open spec fn two_digits(v: int) -> Seq<char> {
    seq![digit_char(v / 10), digit_char(v % 10)]
}

/// A year as written in a rendered date: four digits from 0 to 9999, otherwise a sign
/// followed by at least four digits.
pub open spec fn year_text(y: int) -> Seq<char> {
    if 0 <= y <= 9999 {
        zero_pad(decimal_digits(y as nat), 4)
    } else if y < 0 {
        seq!['-'] + zero_pad(decimal_digits((-y) as nat), 4)
    } else {
        seq!['+'] + zero_pad(decimal_digits(y as nat), 4)
    }
}

/// `YYYY-MM-DD HH:MM:SS`: the form in which the library stores every date.
pub open spec fn iso_text(f: DateTimeFields) -> Seq<char> {
    year_text(f.year as int) + seq!['-'] + two_digits(f.month as int) + seq!['-'] + two_digits(
        f.day as int,
    ) + seq![' '] + two_digits(f.hour as int) + seq![':'] + two_digits(f.minute as int) + seq![
        ':',
    ] + two_digits(f.shown_second())
}

/// `MM/DD/YYYY HH:MM`: the form in which dates are shown.
pub open spec fn us_text(f: DateTimeFields) -> Seq<char> {
    two_digits(f.month as int) + seq!['/'] + two_digits(f.day as int) + seq!['/'] + year_text(
        f.year as int,
    ) + seq![' '] + two_digits(f.hour as int) + seq![':'] + two_digits(f.minute as int)
}

/// What `chrono::NaiveDateTime::parse_from_str` makes of `text` under the strftime
/// `layout`, if anything.
pub uninterp spec fn naive_parse(text: Seq<char>, layout: Seq<char>) -> Option<DateTimeFields>;

/// The wall-clock reading in the `US/Pacific` zone of `chrono-tz` at the UTC instant `utc`.
pub uninterp spec fn pacific_wall_clock(utc: DateTimeFields) -> DateTimeFields;

/// `chrono::NaiveDateTime::parse_from_str`. The contract says the outcome is a function of
/// the text and the layout alone, that a parsed date-time is a valid calendar date-time
/// (a `NaiveDateTime` cannot hold anything else), and that under `%Y-%m-%d %H:%M:%S` the
/// text chrono itself writes for a valid date-time of a year from 0 to 9999 reads back as
/// the same moment to the second (a written second 60 reads back as a leap second).
/// Which other texts parse under which layouts is left to chrono.
#[verifier::external_body]
fn parse_date_time(text: &str, layout: &str) -> (r: Option<DateTimeFields>)
    ensures
        r == naive_parse(text@, layout@),
        r matches Some(f) ==> f.valid(),
        (layout@ == "%Y-%m-%d %H:%M:%S"@ && exists|f: DateTimeFields|
            #![trigger iso_text(f)]
            f.valid() && 0 <= f.year <= 9999 && text@ == iso_text(f)) ==> r is Some,
        r matches Some(g) ==> forall|f: DateTimeFields|
            #![trigger iso_text(f)]
            layout@ == "%Y-%m-%d %H:%M:%S"@ && f.valid() && 0 <= f.year <= 9999 && text@
                == iso_text(f) ==> written_same(f, g),
{
    match chrono::NaiveDateTime::parse_from_str(text, layout) {
        Ok(dt) => Some(DateTimeFields {
            year: dt.year(),
            month: dt.month(),
            day: dt.day(),
            hour: dt.hour(),
            minute: dt.minute(),
            second: dt.second(),
            nanosecond: dt.nanosecond(),
        }),
        Err(_) => None,
    }
}

/// Renders a UTC date-time with chrono's `DateTime<Utc>::format`. The contract states
/// chrono's rendering of `%Y-%m-%d %H:%M:%S`, the only layout it is used with: the year as
/// chrono's `%Y` writes it, the other fields as two digits, a leap second as 60.
#[verifier::external_body]
fn render_utc(f: &DateTimeFields, layout: &str) -> (s: String)
    requires
        f.valid(),
        layout@ == "%Y-%m-%d %H:%M:%S"@,
    ensures
        s@ == iso_text(*f),
{
    let date = chrono::NaiveDate::from_ymd_opt(f.year, f.month, f.day).unwrap();
    let naive = date.and_hms_nano_opt(f.hour, f.minute, f.second, f.nanosecond).unwrap();
    chrono::Utc.from_utc_datetime(&naive).format(layout).to_string()
}

/// Converts a UTC date-time to the `US/Pacific` zone of `chrono-tz` (`with_timezone`) and
/// renders it with `format`. The zone's rules are not restated: the contract names the
/// local reading (`pacific_wall_clock`) and states chrono's rendering of
/// `%m/%d/%Y %H:%M`, the only layout it is used with.
#[verifier::external_body]
fn render_pacific(utc: &DateTimeFields, layout: &str) -> (s: String)
    requires
        utc.valid(),
        layout@ == "%m/%d/%Y %H:%M"@,
    ensures
        s@ == us_text(pacific_wall_clock(*utc)),
{
    let date = chrono::NaiveDate::from_ymd_opt(utc.year, utc.month, utc.day).unwrap();
    let naive = date.and_hms_nano_opt(utc.hour, utc.minute, utc.second, utc.nanosecond).unwrap();
    let local = chrono::Utc.from_utc_datetime(&naive).with_timezone(&chrono_tz::US::Pacific);
    local.format(layout).to_string()
}

/// The narrow no-break space the export writes before "AM"/"PM".
pub open spec fn narrow_nbsp() -> Seq<char> {
    seq!['\u{202F}']
}

/// A date as written in the export, reduced to what the layouts describe: narrow
/// no-break spaces and the word " at " become plain spaces, everything up to the first
/// ", " goes (the weekday), a trailing " UTC" goes, and surrounding white space goes.
pub open spec fn google_clean(raw: Seq<char>) -> Seq<char> {
    let spaced = replace_all(
        replace_all(raw, narrow_nbsp(), seq![' ']),
        seq![' ', 'a', 't', ' '],
        seq![' '],
    );
    let date_part = match find_first(spaced, seq![',', ' ']) {
        Some(p) => spaced.skip(p + 2),
        None => spaced,
    };
    let no_zone = if has_suffix(date_part, seq![' ', 'U', 'T', 'C']) {
        date_part.take(date_part.len() - 4)
    } else {
        date_part
    };
    trim_ws(no_zone)
}

/// The stored form of an export date: the cleaned text parsed with a zero-padded day,
/// else with a space-padded day, and rendered as `YYYY-MM-DD HH:MM:SS`.
pub open spec fn google_date_iso(raw: Seq<char>) -> Option<Seq<char>> {
    let clean = google_clean(raw);
    match naive_parse(clean, "%B %d, %Y %I:%M:%S %p"@) {
        Some(f) => Some(iso_text(f)),
        None => match naive_parse(clean, "%B %e, %Y %I:%M:%S %p"@) {
            Some(f) => Some(iso_text(f)),
            None => None,
        },
    }
}

/// The export's date text reduced to what the layouts describe (see `google_clean`).
pub fn clean_google_date(date_str: &str) -> (r: Vec<char>)
    ensures
        r@ == google_clean(date_str@),
{
    let raw = chars_of(date_str);
    let nbsp: Vec<char> = vec!['\u{202F}'];
    let space: Vec<char> = vec![' '];
    let at_word: Vec<char> = vec![' ', 'a', 't', ' '];
    let comma: Vec<char> = vec![',', ' '];
    let zone: Vec<char> = vec![' ', 'U', 'T', 'C'];
    assert(nbsp@ =~= narrow_nbsp());
    assert(space@ =~= seq![' ']);
    assert(at_word@ =~= seq![' ', 'a', 't', ' ']);
    assert(comma@ =~= seq![',', ' ']);
    assert(zone@ =~= seq![' ', 'U', 'T', 'C']);
    let step1 = replace_chars(&raw, &nbsp, &space);
    let spaced = replace_chars(&step1, &at_word, &space);
    let date_part = match find_chars(&spaced, &comma) {
        Some(p) => {
            proof {
                let pos = p as int;
                assert(find_from(spaced@, comma@, 0) == Some(pos));
                lemma_find_from_occurs(spaced@, comma@, 0);
                assert(occurs_at(spaced@, comma@, pos));
                assert(comma@.len() == 2);
                assert(pos + 2 <= spaced@.len());
            }
            assert(p + 2 <= spaced.len());
            let start: usize = p + 2;
            copy_from(&spaced, start)
        },
        None => copy_from(&spaced, 0),
    };
    assert(spaced@.skip(0) =~= spaced@);
    let no_zone = if ends_with_chars(&date_part, &zone) {
        assert(date_part@.subrange(0, date_part@.len() - 4) =~= date_part@.take(
            date_part@.len() - 4,
        ));
        copy_range(&date_part, 0, date_part.len() - 4)
    } else {
        copy_from(&date_part, 0)
    };
    assert(date_part@.skip(0) =~= date_part@);
    trim_chars(&no_zone)
}

/// The stored text chosen from the readings under the two export layouts: the first
/// reading if there is one, else the second, rendered as `YYYY-MM-DD HH:MM:SS`.
pub open spec fn stored_text_of(
    first: Option<DateTimeFields>,
    second: Option<DateTimeFields>,
) -> Option<Seq<char>> {
    match first {
        Some(f) => Some(iso_text(f)),
        None => match second {
            Some(f) => Some(iso_text(f)),
            None => None,
        },
    }
}

/// Renders the reading of an export date under the zero-padded-day layout (`first`), or
/// else the one under the space-padded-day layout (`second`), as a stored date.
pub fn stored_text_from(first: Option<DateTimeFields>, second: Option<DateTimeFields>) -> (r: Option<String>)
    requires
        first matches Some(f) ==> f.valid(),
        second matches Some(f) ==> f.valid(),
    ensures
        opt_text(r) == stored_text_of(first, second),
        first matches Some(f) ==> (r matches Some(s) && s@ == iso_text(f)),
        first is None ==> (second matches Some(f) ==> (r matches Some(s) && s@ == iso_text(f))),
        first is None && second is None ==> r is None,
{
    match first {
        Some(f) => Some(render_utc(&f, "%Y-%m-%d %H:%M:%S")),
        None => match second {
            Some(f) => Some(render_utc(&f, "%Y-%m-%d %H:%M:%S")),
            None => None,
        },
    }
}

/// Normalises a date from the export ("Tuesday, January 5, 2021 at 3:04:05\u{202F}PM UTC")
/// to `YYYY-MM-DD HH:MM:SS`; `None` when neither layout parses the cleaned text. A result
/// is always the rendering of a valid date-time.
pub fn parse_google_date(date_str: &str) -> (r: Option<String>)
    ensures
        opt_text(r) == google_date_iso(date_str@),
        r matches Some(s) ==> exists|f: DateTimeFields| f.valid() && s@ == iso_text(f),
        naive_parse(google_clean(date_str@), "%B %d, %Y %I:%M:%S %p"@) matches Some(f) ==> (
        r matches Some(s) && s@ == iso_text(f)),
        naive_parse(google_clean(date_str@), "%B %d, %Y %I:%M:%S %p"@) is None ==> (naive_parse(
            google_clean(date_str@),
            "%B %e, %Y %I:%M:%S %p"@,
        ) matches Some(f) ==> (r matches Some(s) && s@ == iso_text(f))),
        naive_parse(google_clean(date_str@), "%B %d, %Y %I:%M:%S %p"@) is None && naive_parse(
            google_clean(date_str@),
            "%B %e, %Y %I:%M:%S %p"@,
        ) is None ==> r is None,
{
    let clean_chars = clean_google_date(date_str);
    let clean = string_of(&clean_chars);
    let first = parse_date_time(clean.as_str(), "%B %d, %Y %I:%M:%S %p");
    let second = match first {
        Some(_) => None,
        None => parse_date_time(clean.as_str(), "%B %e, %Y %I:%M:%S %p"),
    };
    let r = stored_text_from(first, second);
    proof {
        match first {
            Some(f) => {
                assert(f.valid() && iso_text(f) == stored_text_of(first, second)->0);
            },
            None => {
                if let Some(f) = second {
                    assert(f.valid() && iso_text(f) == stored_text_of(first, second)->0);
                }
            },
        }
    }
    r
}

/// How a stored `YYYY-MM-DD HH:MM:SS` date is shown: as Pacific wall-clock time
/// `MM/DD/YYYY HH:MM`, or unchanged when it does not parse as such a date.
pub open spec fn pacific_display(stored: Seq<char>) -> Seq<char> {
    match naive_parse(stored, "%Y-%m-%d %H:%M:%S"@) {
        Some(f) => us_text(pacific_wall_clock(f)),
        None => stored,
    }
}

/// Shows a stored UTC date as US Pacific wall-clock time, or returns it unchanged when
/// it is not a `YYYY-MM-DD HH:MM:SS` date. A date the library stored (a rendering of a
/// valid date-time of a year from 0 to 9999) is always shown as the Pacific reading of
/// the moment it names, never unchanged.
pub fn format_to_pst(iso_str: &str) -> (r: String)
    ensures
        r@ == pacific_display(iso_str@),
        forall|f: DateTimeFields|
            #![trigger iso_text(f)]
            f.valid() && 0 <= f.year <= 9999 && iso_str@ == iso_text(f) ==> {
                &&& naive_parse(iso_str@, "%Y-%m-%d %H:%M:%S"@) matches Some(g)
                &&& written_same(f, g)
                &&& r@ == us_text(pacific_wall_clock(g))
            },
{
    match parse_date_time(iso_str, "%Y-%m-%d %H:%M:%S") {
        Some(f) => render_pacific(&f, "%m/%d/%Y %H:%M"),
        None => iso_str.to_owned(),
    }
}


/// The moment `f` comes strictly before the moment `g`, to the second as written.
pub open spec fn written_before(f: DateTimeFields, g: DateTimeFields) -> bool {
    ||| f.year < g.year
    ||| f.year == g.year && f.month < g.month
    ||| f.year == g.year && f.month == g.month && f.day < g.day
    ||| f.year == g.year && f.month == g.month && f.day == g.day && f.hour < g.hour
    ||| f.year == g.year && f.month == g.month && f.day == g.day && f.hour == g.hour
        && f.minute < g.minute
    ||| f.year == g.year && f.month == g.month && f.day == g.day && f.hour == g.hour
        && f.minute == g.minute && f.shown_second() < g.shown_second()
}

/// `f` and `g` name the same moment, to the second as written.
pub open spec fn written_same(f: DateTimeFields, g: DateTimeFields) -> bool {
    &&& f.year == g.year
    &&& f.month == g.month
    &&& f.day == g.day
    &&& f.hour == g.hour
    &&& f.minute == g.minute
    &&& f.shown_second() == g.shown_second()
}

proof fn lemma_digit_char(d: int)
    requires
        0 <= d <= 9,
    ensures
        digit_char(d) as int == 48 + d,
{
}

/// Two-digit numbers compare as text as they compare as numbers.
proof fn lemma_two_digits(x: int, y: int)
    requires
        0 <= x < 100,
        0 <= y < 100,
    ensures
        two_digits(x).len() == 2,
        text_less(two_digits(x), two_digits(y)) == (x < y),
        (two_digits(x) == two_digits(y)) == (x == y),
{
    lemma_digit_char(x / 10);
    lemma_digit_char(x % 10);
    lemma_digit_char(y / 10);
    lemma_digit_char(y % 10);
    let a = two_digits(x);
    let b = two_digits(y);
    reveal_with_fuel(text_less, 3);
    assert(x < y <==> (x / 10 < y / 10 || (x / 10 == y / 10 && x % 10 < y % 10)));
    assert(a[0] == digit_char(x / 10) && a[1] == digit_char(x % 10));
    assert(b[0] == digit_char(y / 10) && b[1] == digit_char(y % 10));
    assert(a.drop_first() =~= seq![digit_char(x % 10)]);
    assert(b.drop_first() =~= seq![digit_char(y % 10)]);
    assert(a.drop_first().drop_first() =~= Seq::<char>::empty());
    assert(b.drop_first().drop_first() =~= Seq::<char>::empty());
    if a == b {
        assert(a[0] == b[0] && a[1] == b[1]);
    }
    if x == y {
        assert(a =~= b);
    }
}

/// A year from 0 to 9999 is written as its century and its year within the century, two
/// digits each.
proof fn lemma_year_digits(y: int)
    requires
        0 <= y <= 9999,
    ensures
        year_text(y) == two_digits(y / 100) + two_digits(y % 100),
{
    reveal_with_fuel(decimal_digits, 4);
    reveal_with_fuel(zero_pad, 5);
    let n = y as nat;
    if y < 10 {
        assert(decimal_digits(n) =~= seq![digit_char(y)]);
        assert(year_text(y) =~= seq!['0', '0', '0', digit_char(y)]);
        assert(digit_char(0) == '0');
    } else if y < 100 {
        assert(decimal_digits(n / 10) =~= seq![digit_char(y / 10)]);
        assert(year_text(y) =~= seq!['0', '0', digit_char(y / 10), digit_char(y % 10)]);
        assert(digit_char(0) == '0');
    } else if y < 1000 {
        assert((n / 10) / 10 == y / 100);
        assert((n / 10) % 10 == (y % 100) / 10);
        assert(decimal_digits(n / 10 / 10) =~= seq![digit_char(y / 100)]);
        assert(year_text(y) =~= seq!['0', digit_char(y / 100), digit_char((y % 100) / 10), digit_char(y % 10)]);
        assert(digit_char(0) == '0');
    } else {
        assert((n / 10) / 10 == y / 100);
        assert((n / 10) % 10 == (y % 100) / 10);
        assert((n / 10 / 10) / 10 == (y / 100) / 10);
        assert((n / 10 / 10) % 10 == (y / 100) % 10);
        assert(decimal_digits(n / 10 / 10 / 10) =~= seq![digit_char((y / 100) / 10)]);
        assert(year_text(y) =~= seq![
            digit_char((y / 100) / 10),
            digit_char((y / 100) % 10),
            digit_char((y % 100) / 10),
            digit_char(y % 10),
        ]);
    }
    assert(year_text(y) =~= two_digits(y / 100) + two_digits(y % 100));
}

/// Years from 0 to 9999 compare as text as they compare as numbers.
proof fn lemma_year_order(a: int, b: int)
    requires
        0 <= a <= 9999,
        0 <= b <= 9999,
    ensures
        year_text(a).len() == 4,
        year_text(b).len() == 4,
        text_less(year_text(a), year_text(b)) == (a < b),
        (year_text(a) == year_text(b)) == (a == b),
{
    lemma_year_digits(a);
    lemma_year_digits(b);
    lemma_two_digits(a / 100, b / 100);
    lemma_two_digits(a % 100, b % 100);
    lemma_concat_less(two_digits(a / 100), two_digits(a % 100), two_digits(b / 100), two_digits(b % 100));
    lemma_concat_eq(two_digits(a / 100), two_digits(a % 100), two_digits(b / 100), two_digits(b % 100));
}

/// Appending blocks of equal length to texts of equal length: order and equality of the
/// results follow the texts first and the blocks second.
proof fn lemma_extend(p: Seq<char>, q: Seq<char>, x: Seq<char>, y: Seq<char>)
    requires
        p.len() == q.len(),
    ensures
        text_less(p + x, q + y) == (text_less(p, q) || (p == q && text_less(x, y))),
        (p + x == q + y) == (p == q && x == y),
{
    lemma_concat_less(p, x, q, y);
    lemma_concat_eq(p, x, q, y);
}

/// Stored dates sort as text in the order of the moments they name, and two stored dates
/// are the same text exactly when they name the same moment to the second (for years 0
/// to 9999, where the year takes four digits).
pub proof fn lemma_iso_text_order(f: DateTimeFields, g: DateTimeFields)
    requires
        f.valid(),
        g.valid(),
        0 <= f.year <= 9999,
        0 <= g.year <= 9999,
    ensures
        text_less(iso_text(f), iso_text(g)) == written_before(f, g),
        (iso_text(f) == iso_text(g)) == written_same(f, g),
{
    lemma_year_order(f.year as int, g.year as int);
    lemma_two_digits(f.month as int, g.month as int);
    lemma_two_digits(f.day as int, g.day as int);
    lemma_two_digits(f.hour as int, g.hour as int);
    lemma_two_digits(f.minute as int, g.minute as int);
    lemma_two_digits(f.shown_second(), g.shown_second());
    crate::text::lemma_text_less_irreflexive(seq!['-']);
    crate::text::lemma_text_less_irreflexive(seq![' ']);
    crate::text::lemma_text_less_irreflexive(seq![':']);
    let y1 = year_text(f.year as int);
    let y2 = year_text(g.year as int);
    let a1 = y1 + seq!['-'];
    let a2 = y2 + seq!['-'];
    lemma_extend(y1, y2, seq!['-'], seq!['-']);
    let b1 = a1 + two_digits(f.month as int);
    let b2 = a2 + two_digits(g.month as int);
    lemma_extend(a1, a2, two_digits(f.month as int), two_digits(g.month as int));
    let c1 = b1 + seq!['-'];
    let c2 = b2 + seq!['-'];
    lemma_extend(b1, b2, seq!['-'], seq!['-']);
    let d1 = c1 + two_digits(f.day as int);
    let d2 = c2 + two_digits(g.day as int);
    lemma_extend(c1, c2, two_digits(f.day as int), two_digits(g.day as int));
    let e1 = d1 + seq![' '];
    let e2 = d2 + seq![' '];
    lemma_extend(d1, d2, seq![' '], seq![' ']);
    let h1 = e1 + two_digits(f.hour as int);
    let h2 = e2 + two_digits(g.hour as int);
    lemma_extend(e1, e2, two_digits(f.hour as int), two_digits(g.hour as int));
    let i1 = h1 + seq![':'];
    let i2 = h2 + seq![':'];
    lemma_extend(h1, h2, seq![':'], seq![':']);
    let j1 = i1 + two_digits(f.minute as int);
    let j2 = i2 + two_digits(g.minute as int);
    lemma_extend(i1, i2, two_digits(f.minute as int), two_digits(g.minute as int));
    let k1 = j1 + seq![':'];
    let k2 = j2 + seq![':'];
    lemma_extend(j1, j2, seq![':'], seq![':']);
    lemma_extend(k1, k2, two_digits(f.shown_second()), two_digits(g.shown_second()));
    assert(iso_text(f) == k1 + two_digits(f.shown_second()));
    assert(iso_text(g) == k2 + two_digits(g.shown_second()));
}


/// The value of a decimal digit character.
pub open spec fn digit_value(c: char) -> int {
    c as int - 48
}

/// A stored date, for a year from 0 to 9999, is 19 characters: the year in four digits,
/// then month, day, hour, minute and (written) second in two digits each, separated by
/// `-`, `-`, ` `, `:`, `:`; each field reads back as the date-time's own field.
pub proof fn lemma_iso_text_reads_back(f: DateTimeFields)
    requires
        f.valid(),
        0 <= f.year <= 9999,
    ensures
        ({
            let s = iso_text(f);
            &&& s.len() == 19
            &&& s[4] == '-' && s[7] == '-' && s[10] == ' ' && s[13] == ':' && s[16] == ':'
            &&& forall|i: int|
                0 <= i < 19 && i != 4 && i != 7 && i != 10 && i != 13 && i != 16 ==> 0
                    <= digit_value(#[trigger] s[i]) <= 9
            &&& 1000 * digit_value(s[0]) + 100 * digit_value(s[1]) + 10 * digit_value(s[2])
                + digit_value(s[3]) == f.year
            &&& 10 * digit_value(s[5]) + digit_value(s[6]) == f.month
            &&& 10 * digit_value(s[8]) + digit_value(s[9]) == f.day
            &&& 10 * digit_value(s[11]) + digit_value(s[12]) == f.hour
            &&& 10 * digit_value(s[14]) + digit_value(s[15]) == f.minute
            &&& 10 * digit_value(s[17]) + digit_value(s[18]) == f.shown_second()
        }),
{
    let y = f.year as int;
    lemma_year_digits(y);
    let parts = seq![
        digit_char((y / 100) / 10),
        digit_char((y / 100) % 10),
        digit_char((y % 100) / 10),
        digit_char((y % 100) % 10),
        '-',
        digit_char((f.month as int) / 10),
        digit_char((f.month as int) % 10),
        '-',
        digit_char((f.day as int) / 10),
        digit_char((f.day as int) % 10),
        ' ',
        digit_char((f.hour as int) / 10),
        digit_char((f.hour as int) % 10),
        ':',
        digit_char((f.minute as int) / 10),
        digit_char((f.minute as int) % 10),
        ':',
        digit_char(f.shown_second() / 10),
        digit_char(f.shown_second() % 10),
    ];
    assert(iso_text(f) =~= parts);
    lemma_digit_char((y / 100) / 10);
    lemma_digit_char((y / 100) % 10);
    lemma_digit_char((y % 100) / 10);
    lemma_digit_char((y % 100) % 10);
    lemma_digit_char((f.month as int) / 10);
    lemma_digit_char((f.month as int) % 10);
    lemma_digit_char((f.day as int) / 10);
    lemma_digit_char((f.day as int) % 10);
    lemma_digit_char((f.hour as int) / 10);
    lemma_digit_char((f.hour as int) % 10);
    lemma_digit_char((f.minute as int) / 10);
    lemma_digit_char((f.minute as int) % 10);
    lemma_digit_char(f.shown_second() / 10);
    lemma_digit_char(f.shown_second() % 10);
}

/// The stored form of an export date is the rendering of the date-time chrono reads from
/// the cleaned text under the zero-padded-day layout, or else under the space-padded-day
/// layout; there is none when neither layout reads it.
pub proof fn lemma_google_date_is_parsed_reading(raw: Seq<char>)
    ensures
        naive_parse(google_clean(raw), "%B %d, %Y %I:%M:%S %p"@) matches Some(f) ==> google_date_iso(
            raw,
        ) == Some(iso_text(f)),
        naive_parse(google_clean(raw), "%B %d, %Y %I:%M:%S %p"@) is None ==> (naive_parse(
            google_clean(raw),
            "%B %e, %Y %I:%M:%S %p"@,
        ) matches Some(f) ==> google_date_iso(raw) == Some(iso_text(f))),
        naive_parse(google_clean(raw), "%B %d, %Y %I:%M:%S %p"@) is None && naive_parse(
            google_clean(raw),
            "%B %e, %Y %I:%M:%S %p"@,
        ) is None ==> google_date_iso(raw) is None,
{
}

} // verus!
