//! Local wall-clock time: calendar dates, days of the week, and how they are written down.

use crate::text;
use vstd::prelude::*;

verus! {

/// A local date and time, to the minute.
#[derive(Clone, Copy, Debug, PartialEq, Eq, Structural)]
pub struct Moment {
    pub year: i32,
    /// 1 for January to 12 for December.
    pub month: u8,
    /// Day of the month, from 1.
    pub day: u8,
    /// 1 for Monday to 7 for Sunday.
    pub weekday: u32,
    pub hour: u32,
    pub minute: u32,
}

/// Whether `year` has a 29 February in the Gregorian calendar.
pub open spec fn is_leap_year(year: int) -> bool {
    year % 4 == 0 && (year % 100 != 0 || year % 400 == 0)
}

/// How many days `month` has in `year`.
pub open spec fn days_in_month(year: int, month: int) -> int {
    if month == 2 {
        if is_leap_year(year) {
            29
        } else {
            28
        }
    } else if month == 4 || month == 6 || month == 9 || month == 11 {
        30
    } else {
        31
    }
}

/// Whether the three numbers name a day of the Gregorian calendar.
pub open spec fn is_date(year: int, month: int, day: int) -> bool {
    1 <= month <= 12 && 1 <= day <= days_in_month(year, month)
}

/// Days from 1 January of the year 1 to 1 January of `year`.
pub open spec fn days_before_year(year: int) -> int {
    365 * (year - 1) + (year - 1) / 4 - (year - 1) / 100 + (year - 1) / 400
}

/// Days of `year` that precede `month`.
pub open spec fn days_before_month(year: int, month: int) -> int
    decreases month,
{
    if month <= 1 {
        0
    } else {
        days_before_month(year, month - 1) + days_in_month(year, month - 1)
    }
}

/// Days from 1 January 1970 to the given date.
pub open spec fn day_number(year: int, month: int, day: int) -> int {
    days_before_year(year) + days_before_month(year, month) + (day - 1) - 719162
}

/// The day of the week of a day number: 1 for Monday to 7 for Sunday.
pub open spec fn weekday_of(day_number: int) -> int {
    (day_number + 3) % 7 + 1
}

/// The local day on which a clock shows `unix_seconds` at `offset_seconds` east of UTC.
pub open spec fn local_day(unix_seconds: int, offset_seconds: int) -> int {
    (unix_seconds + offset_seconds) / 86400
}

/// Whether a day falls in the years -9999 to 9999.
pub open spec fn is_supported_day(day: int) -> bool {
    day_number(-9999, 1, 1) <= day <= day_number(9999, 12, 31)
}

/// Whether the instant has a local date and time: the offset stays within 25:59:59 and the day
/// is supported, in UTC and locally.
pub open spec fn has_local_time(unix_seconds: int, offset_seconds: int) -> bool {
    &&& -93599 <= offset_seconds <= 93599
    &&& is_supported_day(local_day(unix_seconds, 0))
    &&& is_supported_day(local_day(unix_seconds, offset_seconds))
}

/// Whether the fields are what a clock shows at the given instant and offset.
pub open spec fn clock_shows(
    year: int,
    month: int,
    day: int,
    weekday: int,
    hour: int,
    minute: int,
    unix_seconds: int,
    offset_seconds: int,
) -> bool {
    let local = unix_seconds + offset_seconds;
    &&& is_date(year, month, day)
    &&& day_number(year, month, day) == local_day(unix_seconds, offset_seconds)
    &&& weekday == weekday_of(local_day(unix_seconds, offset_seconds))
    &&& hour == local % 86400 / 3600
    &&& minute == local % 3600 / 60
}

/// `{:02}:{:02}` of an hour and a minute.
pub open spec fn time_of_day(hour: nat, minute: nat) -> Seq<char> {
    text::zero_padded(hour, 2) + seq![':'] + text::zero_padded(minute, 2)
}

/// `{:04}-{:02}-{:02}` of a date.
pub open spec fn iso_date(year: int, month: nat, day: nat) -> Seq<char> {
    text::signed_zero_padded(year, 4) + seq!['-'] + text::zero_padded(month, 2) + seq!['-']
        + text::zero_padded(day, 2)
}

impl Moment {
    /// Whether this is what a clock shows at the given instant and offset.
    pub open spec fn is_at(self, unix_seconds: int, offset_seconds: int) -> bool {
        clock_shows(
            self.year as int,
            self.month as int,
            self.day as int,
            self.weekday as int,
            self.hour as int,
            self.minute as int,
            unix_seconds,
            offset_seconds,
        )
    }

    /// The date as text.
    pub open spec fn date(self) -> Seq<char> {
        iso_date(self.year as int, self.month as nat, self.day as nat)
    }

    /// The date as `YYYY-MM-DD`.
    pub fn today(&self) -> (date: String)
        ensures
            date@ == self.date(),
            date@ == iso_date(self.year as int, self.month as nat, self.day as nat),
    {
        proof {
            reveal_strlit("-");
        }
        let mut date = text::signed_zero_padded_text(self.year, 4);
        date.append("-");
        date.append(text::zero_padded_text(self.month as u32, 2).as_str());
        date.append("-");
        date.append(text::zero_padded_text(self.day as u32, 2).as_str());
        proof {
            assert("-"@ =~= seq!['-']);
        }
        date
    }
}

/// Reads the calendar and clock fields of an instant with `time::OffsetDateTime`: it is built by
/// `from_unix_timestamp`, moved by `checked_to_offset` to the offset that
/// `UtcOffset::from_whole_seconds` makes, and read by `year`, `month`, `day`, `weekday` with
/// `number_from_monday`, `hour` and `minute`.
///
/// The contract claims that this succeeds exactly on the range that the crate supports without
/// its `large-dates` feature, and that the fields are those of the proleptic Gregorian calendar.
#[verifier::external_body]
fn offset_date_time_fields(unix_seconds: i64, offset_seconds: i32) -> (fields: Option<
    (i32, u8, u8, u8, u8, u8),
>)
    ensures
        fields is Some <==> has_local_time(unix_seconds as int, offset_seconds as int),
        fields matches Some((year, month, day, weekday, hour, minute)) ==> clock_shows(
            year as int,
            month as int,
            day as int,
            weekday as int,
            hour as int,
            minute as int,
            unix_seconds as int,
            offset_seconds as int,
        ),
{
    let utc = time::OffsetDateTime::from_unix_timestamp(unix_seconds).ok()?;
    let offset = time::UtcOffset::from_whole_seconds(offset_seconds).ok()?;
    let now = utc.checked_to_offset(offset)?;
    let weekday = now.weekday().number_from_monday();
    Some((now.year(), u8::from(now.month()), now.day(), weekday, now.hour(), now.minute()))
}

/// The local date and time at `unix_seconds` after the epoch, `offset_seconds` east of UTC.
pub fn local_moment(unix_seconds: i64, offset_seconds: i32) -> (moment: Option<Moment>)
    ensures
        moment is Some <==> has_local_time(unix_seconds as int, offset_seconds as int),
        moment matches Some(m) ==> m.is_at(unix_seconds as int, offset_seconds as int),
{
    match offset_date_time_fields(unix_seconds, offset_seconds) {
        Some((year, month, day, weekday, hour, minute)) => Some(
            Moment {
                year,
                month,
                day,
                weekday: weekday as u32,
                hour: hour as u32,
                minute: minute as u32,
            },
        ),
        None => None,
    }
}

/// An hour and a minute as `HH:MM`.
pub fn format_time(hour: u32, minute: u32) -> (time: String)
    ensures
        time@ == time_of_day(hour as nat, minute as nat),
        hour < 100 && minute < 100 ==> {
            &&& time@.len() == 5
            &&& time@[0] as int == 48 + hour as int / 10
            &&& time@[1] as int == 48 + hour as int % 10
            &&& time@[2] == ':'
            &&& time@[3] as int == 48 + minute as int / 10
            &&& time@[4] as int == 48 + minute as int % 10
        },
{
    proof {
        reveal_strlit(":");
        if hour < 100 && minute < 100 {
            lemma_time_of_day_characters(hour as nat, minute as nat);
        }
    }
    let mut time = text::zero_padded_text(hour, 2);
    time.append(":");
    time.append(text::zero_padded_text(minute, 2).as_str());
    proof {
        assert(":"@ =~= seq![':']);
    }
    time
}

/// Different times of day are written differently, whatever the numbers are.
pub proof fn lemma_time_of_day_is_injective(h1: nat, m1: nat, h2: nat, m2: nat)
    ensures
        time_of_day(h1, m1) == time_of_day(h2, m2) <==> h1 == h2 && m1 == m2,
{
    let (a, b) = (text::zero_padded(h1, 2), text::zero_padded(h2, 2));
    let (c, d) = (text::zero_padded(m1, 2), text::zero_padded(m2, 2));
    let (s, t) = (time_of_day(h1, m1), time_of_day(h2, m2));
    text::lemma_zero_padded(h1, 2);
    text::lemma_zero_padded(h2, 2);
    text::lemma_zero_padded(m1, 2);
    text::lemma_zero_padded(m2, 2);
    if s == t {
        if a.len() < b.len() {
            assert(s[a.len() as int] == ':');
            assert(t[a.len() as int] == b[a.len() as int]);
        } else if b.len() < a.len() {
            assert(t[b.len() as int] == ':');
            assert(s[b.len() as int] == a[b.len() as int]);
        }
        assert(a =~= s.subrange(0, a.len() as int));
        assert(b =~= t.subrange(0, a.len() as int));
        assert(c =~= s.subrange(a.len() as int + 1, s.len() as int));
        assert(d =~= t.subrange(a.len() as int + 1, t.len() as int));
    }
}

/// Whether the first date is earlier than the second, field by field.
pub open spec fn is_earlier(y1: int, m1: int, d1: int, y2: int, m2: int, d2: int) -> bool {
    y1 < y2 || (y1 == y2 && (m1 < m2 || (m1 == m2 && d1 < d2)))
}

/// A year is 365 days long, or 366 in a leap year.
proof fn lemma_year_length(year: int)
    ensures
        days_before_year(year + 1) == days_before_year(year) + days_before_month(year, 12) + 31,
{
    reveal_with_fuel(days_before_month, 13);
}

/// Years start in order.
proof fn lemma_years_in_order(y1: int, y2: int)
    requires
        y1 <= y2,
    ensures
        days_before_year(y1) <= days_before_year(y2),
    decreases y2 - y1,
{
    if y1 < y2 {
        lemma_years_in_order(y1, y2 - 1);
        lemma_year_length(y2 - 1);
        reveal_with_fuel(days_before_month, 13);
    }
}

/// Months start in order, and a month ends where the next one starts.
proof fn lemma_months_in_order(year: int, m1: int, m2: int)
    requires
        1 <= m1 < m2 <= 12,
    ensures
        days_before_month(year, m1) + days_in_month(year, m1) <= days_before_month(year, m2),
    decreases m2 - m1,
{
    if m1 + 1 < m2 {
        lemma_months_in_order(year, m1, m2 - 1);
    }
}

/// Day numbers grow with the date, so a day number belongs to one date only.
pub proof fn lemma_day_numbers_follow_the_calendar(
    y1: int,
    m1: int,
    d1: int,
    y2: int,
    m2: int,
    d2: int,
)
    requires
        is_date(y1, m1, d1),
        is_date(y2, m2, d2),
    ensures
        day_number(y1, m1, d1) < day_number(y2, m2, d2) <==> is_earlier(y1, m1, d1, y2, m2, d2),
        day_number(y1, m1, d1) == day_number(y2, m2, d2) <==> y1 == y2 && m1 == m2 && d1 == d2,
{
    lemma_earlier_has_smaller_number(y1, m1, d1, y2, m2, d2);
    lemma_earlier_has_smaller_number(y2, m2, d2, y1, m1, d1);
}

proof fn lemma_earlier_has_smaller_number(y1: int, m1: int, d1: int, y2: int, m2: int, d2: int)
    requires
        is_date(y1, m1, d1),
        is_date(y2, m2, d2),
    ensures
        is_earlier(y1, m1, d1, y2, m2, d2) ==> day_number(y1, m1, d1) < day_number(y2, m2, d2),
{
    if y1 < y2 {
        if m1 < 12 {
            lemma_months_in_order(y1, m1, 12);
        }
        if 1 < m2 {
            lemma_months_in_order(y2, 1, m2);
        }
        lemma_year_length(y1);
        lemma_years_in_order(y1 + 1, y2);
    } else if y1 == y2 && m1 < m2 {
        lemma_months_in_order(y1, m1, m2);
    }
}

/// A clock shows one local date and time at an instant, and its fields are in range.
pub proof fn lemma_clock_reading(a: Moment, b: Moment, unix_seconds: int, offset_seconds: int)
    requires
        a.is_at(unix_seconds, offset_seconds),
        b.is_at(unix_seconds, offset_seconds),
    ensures
        a == b,
        1 <= a.weekday <= 7,
        a.hour < 24,
        a.minute < 60,
{
    lemma_day_numbers_follow_the_calendar(
        a.year as int,
        a.month as int,
        a.day as int,
        b.year as int,
        b.month as int,
        b.day as int,
    );
}

/// Two instants of the same local minute read the same.
pub proof fn lemma_readings_last_a_minute(
    a: Moment,
    b: Moment,
    t1: int,
    t2: int,
    offset_seconds: int,
)
    requires
        a.is_at(t1, offset_seconds),
        b.is_at(t2, offset_seconds),
        (t1 + offset_seconds) / 60 == (t2 + offset_seconds) / 60,
    ensures
        a == b,
{
    lemma_fields_of_a_minute(t1 + offset_seconds);
    lemma_fields_of_a_minute(t2 + offset_seconds);
    lemma_clock_reading(a, b, t1, offset_seconds);
}

/// A reading tells the local minute: it is the sum of its day, hour and minute.
pub proof fn lemma_reading_tells_the_minute(a: Moment, unix_seconds: int, offset_seconds: int)
    requires
        a.is_at(unix_seconds, offset_seconds),
    ensures
        (unix_seconds + offset_seconds) / 60 == day_number(
            a.year as int,
            a.month as int,
            a.day as int,
        ) * 1440 + a.hour * 60 + a.minute,
{
    lemma_fields_of_a_minute(unix_seconds + offset_seconds);
}

/// A whole number of weeks later, the clock shows the same day of the week and time of day.
pub proof fn lemma_weeks_later(
    a: Moment,
    b: Moment,
    unix_seconds: int,
    weeks: int,
    offset_seconds: int,
)
    requires
        a.is_at(unix_seconds, offset_seconds),
        b.is_at(unix_seconds + 604800 * weeks, offset_seconds),
    ensures
        a.weekday == b.weekday,
        a.hour == b.hour,
        a.minute == b.minute,
{
    lemma_shift_by_weeks(unix_seconds + offset_seconds, weeks);
}

proof fn lemma_shift_by_weeks(local: int, weeks: int)
    ensures
        weekday_of((local + 604800 * weeks) / 86400) == weekday_of(local / 86400),
        (local + 604800 * weeks) % 86400 == local % 86400,
        (local + 604800 * weeks) % 3600 == local % 3600,
{
    let x = local + 604800 * weeks;
    vstd::arithmetic::div_mod::lemma_fundamental_div_mod_converse(
        x,
        86400,
        local / 86400 + 7 * weeks,
        local % 86400,
    );
    vstd::arithmetic::div_mod::lemma_fundamental_div_mod_converse(
        x,
        3600,
        local / 3600 + 168 * weeks,
        local % 3600,
    );
    vstd::arithmetic::div_mod::lemma_fundamental_div_mod_converse(
        local / 86400 + 7 * weeks + 3,
        7,
        (local / 86400 + 3) / 7 + weeks,
        (local / 86400 + 3) % 7,
    );
}

/// Day, hour and minute depend on the minute count alone.
proof fn lemma_fields_of_a_minute(local: int)
    ensures
        local / 86400 == local / 60 / 1440,
        local % 86400 / 3600 == local / 60 % 1440 / 60,
        local % 3600 / 60 == local / 60 % 60,
{
}

/// In the years 0 to 9999, written dates stand in dictionary order exactly as the days do in the
/// calendar: to compare the texts is to compare the days.
pub proof fn lemma_date_texts_follow_the_calendar(
    y1: int,
    m1: int,
    d1: int,
    y2: int,
    m2: int,
    d2: int,
)
    requires
        is_date(y1, m1, d1),
        is_date(y2, m2, d2),
        0 <= y1 <= 9999,
        0 <= y2 <= 9999,
    ensures
        text::comes_before(iso_date(y1, m1 as nat, d1 as nat), iso_date(y2, m2 as nat, d2 as nat))
            <==> day_number(y1, m1, d1) < day_number(y2, m2, d2),
{
    let (s, t) = (iso_date(y1, m1 as nat, d1 as nat), iso_date(y2, m2 as nat, d2 as nat));
    lemma_day_numbers_follow_the_calendar(y1, m1, d1, y2, m2, d2);
    lemma_earlier_is_written_before(y1, m1, d1, y2, m2, d2);
    lemma_earlier_is_written_before(y2, m2, d2, y1, m1, d1);
    if text::comes_before(s, t) {
        text::lemma_order_is_irreflexive(s);
        if text::comes_before(t, s) {
            text::lemma_order_is_transitive(s, t, s);
        }
    }
}

/// The ten characters of a date in the years 0 to 9999.
proof fn lemma_date_characters(y: int, m: int, d: int)
    requires
        is_date(y, m, d),
        0 <= y <= 9999,
    ensures
        iso_date(y, m as nat, d as nat) == seq![
            text::digit(y / 1000),
            text::digit(y / 100 % 10),
            text::digit(y / 10 % 10),
            text::digit(y % 10),
            '-',
            text::digit(m / 10),
            text::digit(m % 10),
            '-',
            text::digit(d / 10),
            text::digit(d % 10),
        ],
{
    text::lemma_four_digits(y as nat);
    text::lemma_two_digits(m as nat);
    text::lemma_two_digits(d as nat);
    assert(iso_date(y, m as nat, d as nat) =~= seq![
        text::digit(y / 1000),
        text::digit(y / 100 % 10),
        text::digit(y / 10 % 10),
        text::digit(y % 10),
        '-',
        text::digit(m / 10),
        text::digit(m % 10),
        '-',
        text::digit(d / 10),
        text::digit(d % 10),
    ]);
}

/// Of two numbers below ten thousand, the lesser has the lesser digit where they first differ.
proof fn lemma_lesser_digit_of_four(a: int, b: int)
    requires
        0 <= a < b < 10000,
    ensures
        a / 1000 < b / 1000 || (a / 1000 == b / 1000 && (a / 100 % 10 < b / 100 % 10 || (a / 100
            % 10 == b / 100 % 10 && (a / 10 % 10 < b / 10 % 10 || (a / 10 % 10 == b / 10 % 10 && a
            % 10 < b % 10))))),
{
}

proof fn lemma_earlier_is_written_before(y1: int, m1: int, d1: int, y2: int, m2: int, d2: int)
    requires
        is_date(y1, m1, d1),
        is_date(y2, m2, d2),
        0 <= y1 <= 9999,
        0 <= y2 <= 9999,
    ensures
        is_earlier(y1, m1, d1, y2, m2, d2) ==> text::comes_before(
            iso_date(y1, m1 as nat, d1 as nat),
            iso_date(y2, m2 as nat, d2 as nat),
        ),
{
    let (s, t) = (iso_date(y1, m1 as nat, d1 as nat), iso_date(y2, m2 as nat, d2 as nat));
    lemma_date_characters(y1, m1, d1);
    lemma_date_characters(y2, m2, d2);
    if y1 < y2 {
        lemma_lesser_digit_of_four(y1, y2);
        if y1 / 1000 < y2 / 1000 {
            assert(text::parts_at(s, t, 0));
        } else if y1 / 100 % 10 < y2 / 100 % 10 {
            assert(text::parts_at(s, t, 1));
        } else if y1 / 10 % 10 < y2 / 10 % 10 {
            assert(text::parts_at(s, t, 2));
        } else {
            assert(text::parts_at(s, t, 3));
        }
    } else if y1 == y2 && m1 < m2 {
        if m1 / 10 < m2 / 10 {
            assert(text::parts_at(s, t, 5));
        } else {
            assert(text::parts_at(s, t, 6));
        }
    } else if y1 == y2 && m1 == m2 && d1 < d2 {
        if d1 / 10 < d2 / 10 {
            assert(text::parts_at(s, t, 8));
        } else {
            assert(text::parts_at(s, t, 9));
        }
    }
}

/// A time of day below a hundred hours is written with five characters: two digits of the hour, a
/// colon, and two digits of the minute.
pub proof fn lemma_time_of_day_characters(hour: nat, minute: nat)
    requires
        hour < 100,
        minute < 100,
    ensures
        time_of_day(hour, minute).len() == 5,
        time_of_day(hour, minute)[0] as int == 48 + hour / 10,
        time_of_day(hour, minute)[1] as int == 48 + hour % 10,
        time_of_day(hour, minute)[2] == ':',
        time_of_day(hour, minute)[3] as int == 48 + minute / 10,
        time_of_day(hour, minute)[4] as int == 48 + minute % 10,
{
    text::lemma_two_digits(hour);
    text::lemma_two_digits(minute);
}

/// Whatever the numbers are, a time of day is the hour and the minute, each padded to two digits,
/// on either side of a colon.
pub proof fn lemma_time_of_day_parts(hour: nat, minute: nat)
    ensures
        ({
            let time = time_of_day(hour, minute);
            let k = text::zero_padded(hour, 2).len() as int;
            &&& time.len() == k + 1 + text::zero_padded(minute, 2).len()
            &&& time.subrange(0, k) == text::zero_padded(hour, 2)
            &&& time[k] == ':'
            &&& time.subrange(k + 1, time.len() as int) == text::zero_padded(minute, 2)
        }),
{
    let time = time_of_day(hour, minute);
    let k = text::zero_padded(hour, 2).len() as int;
    assert(time.subrange(0, k) =~= text::zero_padded(hour, 2));
    assert(time.subrange(k + 1, time.len() as int) =~= text::zero_padded(minute, 2));
}

/// A date of the years 0 to 9999 is written with ten characters: four digits of the year, two of
/// the month and two of the day, with a dash between them.
pub proof fn lemma_date_has_ten_characters(y: int, m: nat, d: nat)
    requires
        0 <= y <= 9999,
        m < 100,
        d < 100,
    ensures
        iso_date(y, m, d).len() == 10,
        iso_date(y, m, d)[0] as int == 48 + y / 1000,
        iso_date(y, m, d)[1] as int == 48 + y / 100 % 10,
        iso_date(y, m, d)[2] as int == 48 + y / 10 % 10,
        iso_date(y, m, d)[3] as int == 48 + y % 10,
        iso_date(y, m, d)[4] == '-',
        iso_date(y, m, d)[5] as int == 48 + m / 10,
        iso_date(y, m, d)[6] as int == 48 + m % 10,
        iso_date(y, m, d)[7] == '-',
        iso_date(y, m, d)[8] as int == 48 + d / 10,
        iso_date(y, m, d)[9] as int == 48 + d % 10,
{
    text::lemma_four_digits(y as nat);
    text::lemma_two_digits(m);
    text::lemma_two_digits(d);
}

/// Whatever the numbers are, a date is the year padded to four characters with its sign, a dash,
/// the month, a dash and the day, each of these padded to two digits.
pub proof fn lemma_date_parts(y: int, m: nat, d: nat)
    ensures
        ({
            let date = iso_date(y, m, d);
            let j = text::signed_zero_padded(y, 4).len() as int;
            let k = j + 1 + text::zero_padded(m, 2).len();
            &&& date.len() == k + 1 + text::zero_padded(d, 2).len()
            &&& date.subrange(0, j) == text::signed_zero_padded(y, 4)
            &&& date[j] == '-'
            &&& date.subrange(j + 1, k) == text::zero_padded(m, 2)
            &&& date[k] == '-'
            &&& date.subrange(k + 1, date.len() as int) == text::zero_padded(d, 2)
        }),
{
    let date = iso_date(y, m, d);
    let j = text::signed_zero_padded(y, 4).len() as int;
    let k = j + 1 + text::zero_padded(m, 2).len();
    assert(date.subrange(0, j) =~= text::signed_zero_padded(y, 4));
    assert(date.subrange(j + 1, k) =~= text::zero_padded(m, 2));
    assert(date.subrange(k + 1, date.len() as int) =~= text::zero_padded(d, 2));
}

/// The dates are those of the Gregorian calendar: every month has 28 days, all but February have
/// 30, seven have 31, and February has 29 in every fourth year, but of the full centuries only in
/// every fourth.
pub proof fn lemma_gregorian_dates(y: int, m: int, d: int)
    ensures
        is_date(y, m, d) <==> {
            &&& 1 <= m <= 12
            &&& 1 <= d
            &&& {
                ||| d <= 28
                ||| d == 29 && (m != 2 || (y % 4 == 0 && y % 100 != 0) || y % 400 == 0)
                ||| d == 30 && m != 2
                ||| d == 31 && (m == 1 || m == 3 || m == 5 || m == 7 || m == 8 || m == 10 || m
                    == 12)
            }
        },
{
}

/// Days are counted one by one from 1 January 1970: the day after a date, in the same month, in
/// the next one or in the next year, has the next number.
pub proof fn lemma_days_are_counted_one_by_one(y: int, m: int, d: int)
    requires
        is_date(y, m, d),
    ensures
        day_number(1970, 1, 1) == 0,
        is_date(y, m, d + 1) ==> day_number(y, m, d + 1) == day_number(y, m, d) + 1,
        !is_date(y, m, d + 1) && m < 12 ==> day_number(y, m + 1, 1) == day_number(y, m, d) + 1,
        !is_date(y, m, d + 1) && m == 12 ==> day_number(y + 1, 1, 1) == day_number(y, m, d) + 1,
{
    lemma_year_length(y);
}

/// The days of the week go from 1 to 7 and start again, and 1 January 1970 is a Thursday.
pub proof fn lemma_days_of_the_week_go_round(day: int)
    ensures
        weekday_of(0) == 4,
        1 <= weekday_of(day) <= 7,
        weekday_of(day + 1) == if weekday_of(day) == 7 {
            1
        } else {
            weekday_of(day) + 1
        },
{
}

/// A reading is what plain arithmetic on the local seconds gives: the day that has the number of
/// whole days, and the hours and minutes of what is left.
pub proof fn lemma_reading_by_arithmetic(m: Moment, unix_seconds: int, offset_seconds: int)
    ensures
        m.is_at(unix_seconds, offset_seconds) <==> {
            let local = unix_seconds + offset_seconds;
            let today = day_number(m.year as int, m.month as int, m.day as int);
            &&& is_date(m.year as int, m.month as int, m.day as int)
            &&& m.weekday == weekday_of(today)
            &&& m.hour < 24
            &&& m.minute < 60
            &&& 0 <= local - (today * 86400 + m.hour * 3600 + m.minute * 60) < 60
        },
{
    let local = unix_seconds + offset_seconds;
    let today = day_number(m.year as int, m.month as int, m.day as int);
    lemma_split_of_seconds(local, today, m.hour as int, m.minute as int);
}

/// The split of seconds into days, hours and minutes is unique.
proof fn lemma_split_of_seconds(local: int, day: int, hour: int, minute: int)
    ensures
        day == local / 86400 && hour == local % 86400 / 3600 && minute == local % 3600 / 60 <==> {
            &&& 0 <= hour < 24
            &&& 0 <= minute < 60
            &&& 0 <= local - (day * 86400 + hour * 3600 + minute * 60) < 60
        },
{
    if 0 <= hour < 24 && 0 <= minute < 60 && 0 <= local - (day * 86400 + hour * 3600 + minute * 60)
        < 60 {
        let second = local - (day * 86400 + hour * 3600 + minute * 60);
        let in_hour = minute * 60 + second;
        let in_day = hour * 3600 + in_hour;
        vstd::arithmetic::div_mod::lemma_fundamental_div_mod_converse(local, 86400, day, in_day);
        vstd::arithmetic::div_mod::lemma_fundamental_div_mod_converse(in_day, 3600, hour, in_hour);
        vstd::arithmetic::div_mod::lemma_fundamental_div_mod_converse(
            local,
            3600,
            day * 24 + hour,
            in_hour,
        );
        vstd::arithmetic::div_mod::lemma_fundamental_div_mod_converse(in_hour, 60, minute, second);
    } else if day == local / 86400 && hour == local % 86400 / 3600 && minute == local % 3600 / 60 {
        let in_day = local % 86400;
        vstd::arithmetic::div_mod::lemma_fundamental_div_mod_converse(
            local,
            3600,
            day * 24 + hour,
            in_day % 3600,
        );
    }
}

/// The instants with a local date and time are those of the years -9999 to 9999, in UTC and
/// locally, at an offset of less than 26 hours.
pub proof fn lemma_instants_with_local_time(unix_seconds: int, offset_seconds: int)
    ensures
        has_local_time(unix_seconds, offset_seconds) <==> {
            &&& -93599 <= offset_seconds <= 93599
            &&& -377705116800 <= unix_seconds <= 253402300799
            &&& -377705116800 <= unix_seconds + offset_seconds <= 253402300799
        },
{
    reveal_with_fuel(days_before_month, 13);
    assert(day_number(-9999, 1, 1) == -4371587);
    assert(day_number(9999, 12, 31) == 2932896);
}

/// A local day holds the instants of its 86400 local seconds.
pub proof fn lemma_local_day_holds_its_seconds(unix_seconds: int, offset_seconds: int)
    ensures
        0 <= unix_seconds + offset_seconds - local_day(unix_seconds, offset_seconds) * 86400
            < 86400,
{
}

}
