//! Notifications that the user has scheduled, and the rule by which they fire.

use crate::{calendar, text};
use vstd::prelude::*;

verus! {

/// A scheduled notification: title, message, time of day, days of the week and an optional
/// period of validity.
#[derive(Debug)]
pub struct CustomNotification {
    pub id: String,
    pub label: String,
    pub message: String,
    /// `HH:MM`.
    pub time: String,
    /// 1 for Monday to 7 for Sunday.
    pub days: Vec<u32>,
    pub enabled: bool,
    /// First day of validity, as `YYYY-MM-DD`.
    pub start_date: Option<String>,
    /// Last day of validity, as `YYYY-MM-DD`.
    pub end_date: Option<String>,
}

/// What a [`CustomNotification`] holds.
#[verifier::ext_equal]
pub struct Schedule {
    pub id: Seq<char>,
    pub label: Seq<char>,
    pub message: Seq<char>,
    pub time: Seq<char>,
    pub days: Seq<u32>,
    pub enabled: bool,
    pub start_date: Option<Seq<char>>,
    pub end_date: Option<Seq<char>>,
}

impl View for CustomNotification {
    type V = Schedule;

    open spec fn view(&self) -> Schedule {
        Schedule {
            id: self.id@,
            label: self.label@,
            message: self.message@,
            time: self.time@,
            days: self.days@,
            enabled: self.enabled,
            start_date: text::optional(self.start_date),
            end_date: text::optional(self.end_date),
        }
    }
}

impl Clone for CustomNotification {
    fn clone(&self) -> (copy: Self)
        ensures
            copy@ == self@,
            copy.id@ == self.id@,
            copy.label@ == self.label@,
            copy.message@ == self.message@,
            copy.time@ == self.time@,
            copy.days@ == self.days@,
            copy.enabled == self.enabled,
            text::optional(copy.start_date) == text::optional(self.start_date),
            text::optional(copy.end_date) == text::optional(self.end_date),
    {
        let days = self.days.clone();
        proof {
            assert(days@ =~= self.days@);
        }
        CustomNotification {
            id: self.id.clone(),
            label: self.label.clone(),
            message: self.message.clone(),
            time: self.time.clone(),
            days,
            enabled: self.enabled,
            start_date: self.start_date.clone(),
            end_date: self.end_date.clone(),
        }
    }
}

/// What a list of notifications holds.
pub open spec fn schedules(list: Seq<CustomNotification>) -> Seq<Schedule> {
    list.map_values(|n: CustomNotification| n@)
}

/// A copy of a list of notifications.
pub(crate) fn copy_of(list: &Vec<CustomNotification>) -> (copy: Vec<CustomNotification>)
    ensures
        schedules(copy@) == schedules(list@),
{
    let copy = list.clone();
    proof {
        assert(schedules(copy@) =~= schedules(list@));
    }
    copy
}

impl Schedule {
    /// Whether `today` lies in the period of validity, its first and last day included.
    pub open spec fn is_valid_on(self, today: Seq<char>) -> bool {
        &&& self.start_date matches Some(start) ==> !text::comes_before(today, start)
        &&& self.end_date matches Some(end) ==> !text::comes_before(end, today)
    }

    /// Whether the notification fires on the date `today`, which is the given day of the week,
    /// in the given minute.
    pub open spec fn fires_at(self, today: Seq<char>, day: u32, hour: u32, minute: u32) -> bool {
        &&& self.enabled
        &&& self.days.contains(day)
        &&& self.is_valid_on(today)
        &&& self.time == calendar::time_of_day(hour as nat, minute as nat)
    }

    /// Whether the notification fires at `now`.
    pub open spec fn fires(self, now: calendar::Moment) -> bool {
        self.fires_at(now.date(), now.weekday, now.hour, now.minute)
    }
}

/// Whether `day` is one of `days`.
fn contains_day(days: &Vec<u32>, day: u32) -> (found: bool)
    ensures
        found == days@.contains(day),
{
    for i in 0..days.len()
        invariant
            forall|j: int| 0 <= j < i ==> days[j] != day,
    {
        if days[i] == day {
            return true;
        }
    }
    false
}

/// Whether `notif` fires at the very instant that `today`, `day`, `hour` and `minute` describe.
pub fn should_fire_now(
    notif: &CustomNotification,
    today: &str,
    day: u32,
    hour: u32,
    minute: u32,
) -> (fires: bool)
    ensures
        fires == notif@.fires_at(today@, day, hour, minute),
        fires <==> {
            &&& notif.enabled
            &&& notif.days@.contains(day)
            &&& notif.start_date matches Some(start) ==> !text::comes_before(today@, start@)
            &&& notif.end_date matches Some(end) ==> !text::comes_before(end@, today@)
            &&& notif.time@ == calendar::time_of_day(hour as nat, minute as nat)
        },
{
    if !notif.enabled || !contains_day(&notif.days, day) {
        return false;
    }
    if let Some(start) = &notif.start_date {
        if text::is_before(today, start.as_str()) {
            return false;
        }
    }
    if let Some(end) = &notif.end_date {
        if text::is_before(end.as_str(), today) {
            return false;
        }
    }
    notif.time == calendar::format_time(hour, minute)
}

/// A notification is silent while it is disabled, on a day that is not selected, before its
/// period of validity and after it.
pub proof fn lemma_silent_outside_its_schedule(
    s: Schedule,
    today: Seq<char>,
    day: u32,
    hour: u32,
    minute: u32,
)
    ensures
        !s.enabled ==> !s.fires_at(today, day, hour, minute),
        !s.days.contains(day) ==> !s.fires_at(today, day, hour, minute),
        s.start_date matches Some(start) && text::comes_before(today, start) ==> !s.fires_at(
            today,
            day,
            hour,
            minute,
        ),
        s.end_date matches Some(end) && text::comes_before(end, today) ==> !s.fires_at(
            today,
            day,
            hour,
            minute,
        ),
{
}

/// A notification fires in one minute of the day at most.
pub proof fn lemma_fires_in_one_minute_only(
    s: Schedule,
    today: Seq<char>,
    day: u32,
    h1: u32,
    m1: u32,
    other_date: Seq<char>,
    other_day: u32,
    h2: u32,
    m2: u32,
)
    requires
        s.fires_at(today, day, h1, m1),
        s.fires_at(other_date, other_day, h2, m2),
    ensures
        h1 == h2 && m1 == m2,
{
    calendar::lemma_time_of_day_is_injective(h1 as nat, m1 as nat, h2 as nat, m2 as nat);
}

/// The first and the last day belong to the period of validity.
pub proof fn lemma_period_includes_its_bounds(s: Schedule, today: Seq<char>)
    requires
        s.start_date is None || s.start_date == Some(today),
        s.end_date is None || s.end_date == Some(today),
    ensures
        s.is_valid_on(today),
{
    text::lemma_order_is_irreflexive(today);
}

/// A period of validity has no gaps: a date between two valid ones is valid.
pub proof fn lemma_period_has_no_gaps(
    s: Schedule,
    first: Seq<char>,
    between: Seq<char>,
    last: Seq<char>,
)
    requires
        s.is_valid_on(first),
        s.is_valid_on(last),
        !text::comes_before(between, first),
        !text::comes_before(last, between),
    ensures
        s.is_valid_on(between),
{
    if let Some(start) = s.start_date {
        if text::comes_before(between, start) {
            text::lemma_order_is_total(first, between);
            if first != between {
                text::lemma_order_is_transitive(first, between, start);
            }
        }
    }
    if let Some(end) = s.end_date {
        if text::comes_before(end, between) {
            text::lemma_order_is_total(between, last);
            if between != last {
                text::lemma_order_is_transitive(end, between, last);
            }
        }
    }
}

/// Whether a bound of a period is the given date of the years 0 to 9999 in writing, or absent
/// where no date is given.
pub open spec fn is_bound(bound: Option<Seq<char>>, date: Option<(int, int, int)>) -> bool {
    match date {
        Some((y, m, d)) => {
            &&& calendar::is_date(y, m, d)
            &&& 0 <= y <= 9999
            &&& bound == Some(calendar::iso_date(y, m as nat, d as nat))
        },
        None => bound is None,
    }
}

/// Whether a day lies between two dates, both included; an absent date leaves its side open.
pub open spec fn is_between(
    start: Option<(int, int, int)>,
    day: int,
    end: Option<(int, int, int)>,
) -> bool {
    &&& start matches Some((y, m, d)) ==> calendar::day_number(y, m, d) <= day
    &&& end matches Some((y, m, d)) ==> day <= calendar::day_number(y, m, d)
}

/// For bounds written as calendar dates of the years 0 to 9999, the period of validity is the
/// range of days between them, both included. Either bound may be absent, and with none the
/// period has no end in any year.
pub proof fn lemma_period_is_a_range_of_days(
    s: Schedule,
    start: Option<(int, int, int)>,
    y: int,
    m: int,
    d: int,
    end: Option<(int, int, int)>,
)
    requires
        calendar::is_date(y, m, d),
        start is Some || end is Some ==> 0 <= y <= 9999,
        is_bound(s.start_date, start),
        is_bound(s.end_date, end),
    ensures
        s.is_valid_on(calendar::iso_date(y, m as nat, d as nat)) <==> is_between(
            start,
            calendar::day_number(y, m, d),
            end,
        ),
{
    if let Some((y0, m0, d0)) = start {
        calendar::lemma_date_texts_follow_the_calendar(y, m, d, y0, m0, d0);
    }
    if let Some((y1, m1, d1)) = end {
        calendar::lemma_date_texts_follow_the_calendar(y1, m1, d1, y, m, d);
    }
}

/// Seen from the clock: a notification whose bounds are absent or written as calendar dates fires
/// exactly when it is enabled, the local day is in range and falls on a selected day of the week,
/// and the local time of day is the one set. With a bound, this is said of instants of the years
/// 0 to 9999.
pub proof fn lemma_fires_by_the_clock(
    s: Schedule,
    now: calendar::Moment,
    unix_seconds: int,
    offset_seconds: int,
    start: Option<(int, int, int)>,
    end: Option<(int, int, int)>,
)
    requires
        now.is_at(unix_seconds, offset_seconds),
        start is Some || end is Some ==> 0 <= now.year <= 9999,
        is_bound(s.start_date, start),
        is_bound(s.end_date, end),
    ensures
        s.fires(now) <==> {
            let today = calendar::local_day(unix_seconds, offset_seconds);
            let local = unix_seconds + offset_seconds;
            &&& s.enabled
            &&& s.days.contains(calendar::weekday_of(today) as u32)
            &&& is_between(start, today, end)
            &&& s.time == calendar::time_of_day(
                (local % 86400 / 3600) as nat,
                (local % 3600 / 60) as nat,
            )
        },
{
    lemma_period_is_a_range_of_days(
        s,
        start,
        now.year as int,
        now.month as int,
        now.day as int,
        end,
    );
}

/// What stands for a notification holds each of its fields.
pub proof fn lemma_schedule_holds_every_field(n: CustomNotification)
    ensures
        n@.id == n.id@,
        n@.label == n.label@,
        n@.message == n.message@,
        n@.time == n.time@,
        n@.days == n.days@,
        n@.enabled == n.enabled,
        n@.start_date is Some <==> n.start_date is Some,
        n.start_date matches Some(start) ==> n@.start_date == Some(start@),
        n@.end_date is Some <==> n.end_date is Some,
        n.end_date matches Some(end) ==> n@.end_date == Some(end@),
{
}

/// What stands for a list holds each notification, in its place.
pub proof fn lemma_schedules_hold_the_list(list: Seq<CustomNotification>)
    ensures
        schedules(list).len() == list.len(),
        forall|i: int| 0 <= i < list.len() ==> #[trigger] schedules(list)[i] == list[i]@,
{
}

/// At any hour and minute of the day, a notification fires exactly when it is enabled, one of its
/// days is the given one, its first day of validity is not after today nor its last one before,
/// and its time is written with two digits of the hour, a colon and two digits of the minute.
pub proof fn lemma_fires_exactly_as_scheduled(
    s: Schedule,
    today: Seq<char>,
    day: u32,
    hour: u32,
    minute: u32,
)
    requires
        hour < 100,
        minute < 100,
    ensures
        s.fires_at(today, day, hour, minute) <==> {
            &&& s.enabled
            &&& exists|i: int| 0 <= i < s.days.len() && #[trigger] s.days[i] == day
            &&& s.start_date matches Some(start) ==> start == today || text::comes_before(
                start,
                today,
            )
            &&& s.end_date matches Some(end) ==> end == today || text::comes_before(today, end)
            &&& s.time.len() == 5
            &&& s.time[0] as int == 48 + hour as int / 10
            &&& s.time[1] as int == 48 + hour as int % 10
            &&& s.time[2] == ':'
            &&& s.time[3] as int == 48 + minute as int / 10
            &&& s.time[4] as int == 48 + minute as int % 10
        },
{
    calendar::lemma_time_of_day_characters(hour as nat, minute as nat);
    let time = calendar::time_of_day(hour as nat, minute as nat);
    if s.time.len() == 5 && s.time[0] as int == 48 + hour as int / 10 && s.time[1] as int == 48
        + hour as int % 10 && s.time[2] == ':' && s.time[3] as int == 48 + minute as int / 10
        && s.time[4] as int == 48 + minute as int % 10 {
        assert(s.time =~= time);
    }
    if let Some(start) = s.start_date {
        lemma_not_before(today, start);
    }
    if let Some(end) = s.end_date {
        lemma_not_before(end, today);
    }
}

/// Not to come before is to be equal or to come after.
proof fn lemma_not_before(a: Seq<char>, b: Seq<char>)
    ensures
        !text::comes_before(a, b) <==> a == b || text::comes_before(b, a),
{
    text::lemma_order_is_total(a, b);
    text::lemma_order_is_irreflexive(a);
    if text::comes_before(a, b) && text::comes_before(b, a) {
        text::lemma_order_is_transitive(a, b, a);
    }
}

/// At a moment, a notification fires on the date of that moment, its day of the week, its hour and
/// its minute.
pub proof fn lemma_fires_at_a_moment(s: Schedule, now: calendar::Moment)
    ensures
        s.fires(now) == s.fires_at(
            calendar::iso_date(now.year as int, now.month as nat, now.day as nat),
            now.weekday,
            now.hour,
            now.minute,
        ),
{
}

/// Lists that hold the same have the same length and hold the same at each place.
pub proof fn lemma_same_schedules(a: Seq<CustomNotification>, b: Seq<CustomNotification>)
    requires
        schedules(a) == schedules(b),
    ensures
        a.len() == b.len(),
        forall|i: int| 0 <= i < a.len() ==> (#[trigger] a[i])@ == b[i]@,
{
    lemma_schedules_hold_the_list(a);
    lemma_schedules_hold_the_list(b);
    assert forall|i: int| 0 <= i < a.len() implies (#[trigger] a[i])@ == b[i]@ by {
        assert(schedules(a)[i] == a[i]@);
        assert(schedules(b)[i] == b[i]@);
    }
}

/// Whatever the hour and the minute are, a notification fires exactly when it is enabled, one of
/// its days is the given one, today is in its period of validity, and its time is the given one in
/// writing. A day is in the period when it is neither before the first day nor after the last, as
/// far as these are set.
pub proof fn lemma_fires_at_any_time(
    s: Schedule,
    today: Seq<char>,
    day: u32,
    hour: u32,
    minute: u32,
)
    ensures
        s.fires_at(today, day, hour, minute) <==> {
            &&& s.enabled
            &&& exists|i: int| 0 <= i < s.days.len() && #[trigger] s.days[i] == day
            &&& s.is_valid_on(today)
            &&& s.time == calendar::time_of_day(hour as nat, minute as nat)
        },
        s.is_valid_on(today) <==> {
            &&& s.start_date is None || s.start_date == Some(today) || text::comes_before(
                s.start_date->0,
                today,
            )
            &&& s.end_date is None || s.end_date == Some(today) || text::comes_before(
                today,
                s.end_date->0,
            )
        },
{
    if let Some(start) = s.start_date {
        lemma_not_before(today, start);
    }
    if let Some(end) = s.end_date {
        lemma_not_before(end, today);
    }
}

}
