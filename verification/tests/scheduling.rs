use majournee_desktop::{
    format_time, local_moment, should_fire_now, CustomNotification, FiredLog, Moment, Toast,
    POLL_INTERVAL_SECONDS,
};

/// Monday 24 August 2026, 08:00 at two hours east of UTC.
const MONDAY_AT_EIGHT: i64 = 1_787_551_200;
const TWO_HOURS: i32 = 7200;

fn notif(id: &str, label: &str, time: &str, days: Vec<u32>) -> CustomNotification {
    CustomNotification {
        id: id.to_string(),
        label: label.to_string(),
        message: format!("Message de {}", label),
        time: time.to_string(),
        days,
        enabled: true,
        start_date: None,
        end_date: None,
    }
}

fn titles(toasts: &[Toast]) -> Vec<&str> {
    toasts.iter().map(|t| t.title.as_str()).collect()
}

fn poll(log: &mut FiredLog, list: &Vec<CustomNotification>, at: i64) -> Vec<String> {
    let toasts = log.poll_at(list, at, TWO_HOURS).unwrap();
    titles(&toasts).into_iter().map(|t| t.to_string()).collect()
}

#[test]
fn reads_the_local_calendar_and_clock() {
    assert_eq!(
        local_moment(MONDAY_AT_EIGHT, TWO_HOURS),
        Some(Moment { year: 2026, month: 8, day: 24, weekday: 1, hour: 8, minute: 0 })
    );
    assert_eq!(
        local_moment(0, 0),
        Some(Moment { year: 1970, month: 1, day: 1, weekday: 4, hour: 0, minute: 0 })
    );
    assert_eq!(
        local_moment(-1, 0),
        Some(Moment { year: 1969, month: 12, day: 31, weekday: 3, hour: 23, minute: 59 })
    );
    assert_eq!(
        local_moment(1_709_251_140, 60),
        Some(Moment { year: 2024, month: 3, day: 1, weekday: 5, hour: 0, minute: 0 })
    );
    assert_eq!(
        local_moment(1_709_251_140, -86_400),
        Some(Moment { year: 2024, month: 2, day: 28, weekday: 3, hour: 23, minute: 59 })
    );
}

#[test]
fn clock_readings_end_with_the_supported_range() {
    let first = -377_705_116_800;
    let last = 253_402_300_799;
    assert_eq!(
        local_moment(first, 0),
        Some(Moment { year: -9999, month: 1, day: 1, weekday: 1, hour: 0, minute: 0 })
    );
    assert_eq!(
        local_moment(last, 0),
        Some(Moment { year: 9999, month: 12, day: 31, weekday: 5, hour: 23, minute: 59 })
    );
    assert_eq!(local_moment(first - 1, 0), None);
    assert_eq!(local_moment(last + 1, 0), None);
    assert_eq!(local_moment(first, -1), None);
    assert_eq!(local_moment(last, 1), None);
    assert_eq!(local_moment(first - 1, 1), None);
    assert!(local_moment(0, 93_599).is_some());
    assert!(local_moment(0, -93_599).is_some());
    assert_eq!(local_moment(0, 93_600), None);
    assert_eq!(local_moment(0, -93_600), None);
    assert_eq!(local_moment(i64::MAX, i32::MAX), None);
}

/// Days since the epoch of a date, counted from the lengths of years and months.
fn day_number(year: i64, month: i64, day: i64) -> i64 {
    let leap = |y: i64| y % 4 == 0 && (y % 100 != 0 || y % 400 == 0);
    let y = year - 1;
    let years = 365 * y + y.div_euclid(4) - y.div_euclid(100) + y.div_euclid(400);
    let mut months = 0;
    for m in 1..month {
        months += match m {
            2 if leap(year) => 29,
            2 => 28,
            4 | 6 | 9 | 11 => 30,
            _ => 31,
        };
    }
    years + months + day - 1 - 719_162
}

#[test]
fn clock_readings_agree_with_the_gregorian_calendar() {
    let mut at: i64 = -377_705_116_800;
    while at < 253_402_300_799 - 200_000 {
        for offset in [0, 1, -1, 3_600, -12_600, 93_599, -93_599] {
            let local = at + offset as i64;
            match local_moment(at, offset) {
                Some(m) => {
                    let day = local.div_euclid(86_400);
                    assert_eq!(day_number(m.year as i64, m.month as i64, m.day as i64), day);
                    assert_eq!(m.weekday as i64, (day + 3).rem_euclid(7) + 1);
                    assert_eq!(m.hour as i64, local.rem_euclid(86_400) / 3_600);
                    assert_eq!(m.minute as i64, local.rem_euclid(3_600) / 60);
                }
                None => assert!(local < -377_705_116_800),
            }
        }
        at += 8_640_017;
    }
}

#[test]
fn writes_dates_and_times_with_leading_zeros() {
    let date = |year, month, day| {
        Moment { year, month, day, weekday: 1, hour: 0, minute: 0 }.today()
    };
    assert_eq!(date(2026, 8, 24), "2026-08-24");
    assert_eq!(date(7, 12, 1), "0007-12-01");
    assert_eq!(date(0, 1, 31), "0000-01-31");
    for (year, month, day) in [(-5, 3, 9), (-12345, 1, 1), (12345, 10, 10), (i32::MIN, 255, 0)] {
        assert_eq!(date(year, month, day), format!("{:04}-{:02}-{:02}", year, month, day));
    }
    assert_eq!(format_time(8, 5), "08:05");
    for (h, m) in [(0, 0), (23, 59), (100, 7), (u32::MAX, 1_234)] {
        assert_eq!(format_time(h, m), format!("{:02}:{:02}", h, m));
    }
}

#[test]
fn different_times_are_written_differently() {
    let mut seen: Vec<String> = Vec::new();
    for h in [0, 1, 10, 11, 100, 110] {
        for m in [0, 1, 10, 11, 100, 110] {
            let time = format_time(h, m);
            assert!(!seen.contains(&time));
            seen.push(time);
        }
    }
}

#[test]
fn sends_a_toast_with_label_and_message() {
    let mut log = FiredLog::new();
    let list = vec![notif("a", "Titre", "08:00", vec![1])];
    let toasts = log.poll_at(&list, MONDAY_AT_EIGHT, TWO_HOURS).unwrap();
    assert_eq!(toasts.len(), 1);
    assert_eq!(toasts[0].title, "Titre");
    assert_eq!(toasts[0].body, "Message de Titre");
}

#[test]
fn both_polls_of_a_minute_send_once() {
    let mut log = FiredLog::new();
    let list = vec![notif("a", "A", "08:00", vec![1, 2])];
    assert_eq!(POLL_INTERVAL_SECONDS, 30);
    assert_eq!(poll(&mut log, &list, MONDAY_AT_EIGHT), ["A"]);
    assert!(poll(&mut log, &list, MONDAY_AT_EIGHT + 30).is_empty());
    assert!(poll(&mut log, &list, MONDAY_AT_EIGHT + 60).is_empty());
    assert_eq!(poll(&mut log, &list, MONDAY_AT_EIGHT + 86_400), ["A"]);
}

#[test]
fn order_of_the_list_is_kept() {
    let mut log = FiredLog::new();
    let list = vec![
        notif("b", "B", "08:00", vec![1]),
        notif("c", "C", "09:00", vec![1]),
        notif("a", "A", "08:00", vec![1]),
    ];
    assert_eq!(poll(&mut log, &list, MONDAY_AT_EIGHT), ["B", "A"]);
    assert_eq!(poll(&mut log, &list, MONDAY_AT_EIGHT + 3_600), ["C"]);
}

#[test]
fn one_toast_per_id_and_poll() {
    let mut log = FiredLog::new();
    let list = vec![
        notif("a", "Autre heure", "09:00", vec![1]),
        notif("a", "Premier", "08:00", vec![1]),
        notif("a", "Second", "08:00", vec![1]),
    ];
    assert_eq!(poll(&mut log, &list, MONDAY_AT_EIGHT), ["Premier"]);
}

#[test]
fn deleted_notification_is_forgotten() {
    let mut log = FiredLog::new();
    let list = vec![notif("a", "A", "08:00", vec![1]), notif("b", "B", "08:00", vec![1])];
    let shorter = vec![notif("b", "B", "08:00", vec![1])];
    assert_eq!(poll(&mut log, &list, MONDAY_AT_EIGHT), ["A", "B"]);
    assert!(poll(&mut log, &shorter, MONDAY_AT_EIGHT + 10).is_empty());
    assert_eq!(poll(&mut log, &list, MONDAY_AT_EIGHT + 20), ["A"]);
}

#[test]
fn edited_notification_is_not_sent_again_in_its_minute() {
    let mut log = FiredLog::new();
    let mut list = vec![notif("a", "A", "08:00", vec![1])];
    assert_eq!(poll(&mut log, &list, MONDAY_AT_EIGHT), ["A"]);
    list[0].label = "Nouveau".to_string();
    assert!(poll(&mut log, &list, MONDAY_AT_EIGHT + 30).is_empty());
    list[0].time = "08:01".to_string();
    assert_eq!(poll(&mut log, &list, MONDAY_AT_EIGHT + 60), ["Nouveau"]);
}

#[test]
fn weekly_notification_comes_back_every_week() {
    let mut log = FiredLog::new();
    let list = vec![notif("a", "A", "08:00", vec![1])];
    for week in 0..3 {
        let monday = MONDAY_AT_EIGHT + week * 7 * 86_400;
        assert_eq!(poll(&mut log, &list, monday), ["A"]);
        assert!(poll(&mut log, &list, monday + 30).is_empty());
        assert!(poll(&mut log, &list, monday + 86_400).is_empty());
    }
}

#[test]
fn instant_without_local_time_sends_nothing() {
    let mut log = FiredLog::new();
    let list = vec![notif("a", "A", "08:00", vec![1])];
    assert!(log.poll_at(&list, i64::MIN, 0).is_none());
    assert_eq!(poll(&mut log, &list, MONDAY_AT_EIGHT), ["A"]);
}

#[test]
fn period_of_validity_follows_the_calendar() {
    let mut n = notif("a", "A", "08:00", vec![1, 2, 3, 4, 5, 6, 7]);
    n.start_date = Some("2026-08-24".to_string());
    n.end_date = Some("2026-09-02".to_string());
    let mut days = 0;
    for day in -40..40 {
        let m = local_moment(MONDAY_AT_EIGHT + day * 86_400, TWO_HOURS).unwrap();
        let fires = should_fire_now(&n, &m.today(), m.weekday, m.hour, m.minute);
        assert_eq!(fires, (0..=9).contains(&day));
        if fires {
            days += 1;
        }
    }
    assert_eq!(days, 10);
}

#[test]
fn polls_reach_every_minute_of_a_day() {
    let mut minutes: Vec<(u32, u32)> = Vec::new();
    let mut at = MONDAY_AT_EIGHT + 17;
    while at < MONDAY_AT_EIGHT + 86_400 + 17 {
        let m = local_moment(at, TWO_HOURS).unwrap();
        if !minutes.contains(&(m.hour, m.minute)) {
            minutes.push((m.hour, m.minute));
        }
        at += POLL_INTERVAL_SECONDS as i64;
    }
    assert_eq!(minutes.len(), 1_440);
}

#[test]
fn readings_last_a_minute() {
    let first = local_moment(MONDAY_AT_EIGHT, TWO_HOURS);
    assert_eq!(local_moment(MONDAY_AT_EIGHT + 59, TWO_HOURS), first);
    assert_ne!(local_moment(MONDAY_AT_EIGHT + 60, TWO_HOURS), first);
    assert_ne!(local_moment(MONDAY_AT_EIGHT - 1, TWO_HOURS), first);
}

#[test]
fn absent_bound_leaves_its_side_open() {
    let mut n = notif("a", "A", "08:00", vec![1, 2, 3, 4, 5, 6, 7]);
    for (start, end) in [(true, false), (false, true), (false, false)] {
        n.start_date = if start { Some("2026-08-24".to_string()) } else { None };
        n.end_date = if end { Some("2026-08-24".to_string()) } else { None };
        for day in -40..40 {
            let m = local_moment(MONDAY_AT_EIGHT + day * 86_400, TWO_HOURS).unwrap();
            let fires = should_fire_now(&n, &m.today(), m.weekday, m.hour, m.minute);
            assert_eq!(fires, (!start || day >= 0) && (!end || day <= 0));
        }
    }
}

#[test]
fn a_run_of_polls_sends_once_per_selected_day() {
    let mut log = FiredLog::new();
    let list = vec![
        notif("weekly", "Hebdo", "08:00", vec![1]),
        notif("daily", "Quotidien", "20:30", vec![1, 2, 3, 4, 5, 6, 7]),
    ];
    let mut weekly: Vec<i64> = Vec::new();
    let mut daily = 0;
    let mut at = MONDAY_AT_EIGHT;
    while at < MONDAY_AT_EIGHT + 15 * 86_400 {
        for title in poll(&mut log, &list, at) {
            if title == "Hebdo" {
                weekly.push(at);
            } else {
                daily += 1;
            }
        }
        at += POLL_INTERVAL_SECONDS as i64;
    }
    let week = 7 * 86_400;
    assert_eq!(weekly, [MONDAY_AT_EIGHT, MONDAY_AT_EIGHT + week, MONDAY_AT_EIGHT + 2 * week]);
    assert_eq!(daily, 15);
}

#[test]
fn edits_between_polls_do_not_send_again_in_the_minute() {
    let mut log = FiredLog::new();
    let mut list = vec![notif("a", "A", "08:00", vec![1])];
    assert_eq!(poll(&mut log, &list, MONDAY_AT_EIGHT), ["A"]);
    list[0].enabled = false;
    assert!(poll(&mut log, &list, MONDAY_AT_EIGHT + 10).is_empty());
    list.push(notif("b", "B", "08:00", vec![1]));
    assert_eq!(poll(&mut log, &list, MONDAY_AT_EIGHT + 20), ["B"]);
    list[0].enabled = true;
    assert!(poll(&mut log, &list, MONDAY_AT_EIGHT + 50).is_empty());
}
