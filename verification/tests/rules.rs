use majournee_desktop::{
    has_version_changed, is_allowed_url_scheme, migrate_legacy_day, should_fire_now,
    CustomNotification,
};

fn base_notif() -> CustomNotification {
    CustomNotification {
        id: "test".to_string(),
        label: "Titre".to_string(),
        message: "Message".to_string(),
        time: "08:00".to_string(),
        days: vec![1, 2, 3, 4, 5],
        enabled: true,
        start_date: None,
        end_date: None,
    }
}

#[test]
fn allows_https_http_and_mailto() {
    assert!(is_allowed_url_scheme("https://majournee.com"));
    assert!(is_allowed_url_scheme("http://example.com"));
    assert!(is_allowed_url_scheme("mailto:foo@example.com"));
}

#[test]
fn rejects_other_schemes_and_local_paths() {
    assert!(!is_allowed_url_scheme("file:///etc/passwd"));
    assert!(!is_allowed_url_scheme("javascript:alert(1)"));
    assert!(!is_allowed_url_scheme(r"\\host\evil.exe"));
    assert!(!is_allowed_url_scheme(""));
}

#[test]
fn rejects_near_misses_of_allowed_schemes() {
    assert!(!is_allowed_url_scheme("https:/majournee.com"));
    assert!(!is_allowed_url_scheme("HTTPS://majournee.com"));
    assert!(!is_allowed_url_scheme(" https://majournee.com"));
    assert!(!is_allowed_url_scheme("http:"));
    assert!(is_allowed_url_scheme("https://"));
    assert!(is_allowed_url_scheme("mailto:é"));
}

#[test]
fn no_change_when_versions_are_equal() {
    assert!(!has_version_changed("0.18.0", "0.18.0"));
}

#[test]
fn change_detected_on_different_versions() {
    assert!(has_version_changed("0.17.0", "0.18.0"));
}

#[test]
fn trailing_whitespace_in_last_is_ignored() {
    assert!(!has_version_changed("0.18.0\n", "0.18.0"));
}

#[test]
fn empty_last_counts_as_a_change_first_run() {
    assert!(has_version_changed("", "0.18.0"));
}

#[test]
fn white_space_is_ignored_on_one_side_only() {
    assert!(!has_version_changed("\t 0.18.0\r\n", "0.18.0"));
    assert!(has_version_changed("0.18.0", "0.18.0\n"));
    assert!(has_version_changed("0. 18.0", "0.18.0"));
    assert!(!has_version_changed(" \n", ""));
}

/// The characters that are trimmed are the 25 that have the property `White_Space`.
#[test]
fn trims_exactly_the_white_space_characters() {
    let listed = |n: u32| {
        (0x9..=0xd).contains(&n)
            || [0x20, 0x85, 0xa0, 0x1680].contains(&n)
            || (0x2000..=0x200a).contains(&n)
            || [0x2028, 0x2029, 0x202f, 0x205f, 0x3000].contains(&n)
    };
    let mut count = 0;
    for n in 0..=0x10ffff_u32 {
        if let Some(c) = char::from_u32(n) {
            let trimmed = !has_version_changed(&c.to_string(), "");
            assert_eq!(trimmed, listed(n), "U+{:04X}", n);
            if trimmed {
                count += 1;
            }
        }
    }
    assert_eq!(count, 25);
}

#[test]
fn migrates_js_sunday_to_iso_seven() {
    assert_eq!(migrate_legacy_day(0), 7);
}

#[test]
fn leaves_other_days_unchanged() {
    assert_eq!(migrate_legacy_day(1), 1);
    assert_eq!(migrate_legacy_day(6), 6);
}

#[test]
fn leaves_days_out_of_range_unchanged() {
    assert_eq!(migrate_legacy_day(7), 7);
    assert_eq!(migrate_legacy_day(u32::MAX), u32::MAX);
}

#[test]
fn fires_when_enabled_day_and_time_match() {
    let n = base_notif();
    assert!(should_fire_now(&n, "2026-08-24", 1, 8, 0));
}

#[test]
fn does_not_fire_when_disabled() {
    let mut n = base_notif();
    n.enabled = false;
    assert!(!should_fire_now(&n, "2026-08-24", 1, 8, 0));
}

#[test]
fn does_not_fire_on_a_day_not_selected() {
    let n = base_notif();
    assert!(!should_fire_now(&n, "2026-08-22", 6, 8, 0));
}

#[test]
fn does_not_fire_when_time_does_not_match() {
    let n = base_notif();
    assert!(!should_fire_now(&n, "2026-08-24", 1, 9, 0));
}

#[test]
fn does_not_fire_before_start_date() {
    let mut n = base_notif();
    n.start_date = Some("2026-09-01".to_string());
    assert!(!should_fire_now(&n, "2026-08-24", 1, 8, 0));
}

#[test]
fn does_not_fire_after_end_date() {
    let mut n = base_notif();
    n.end_date = Some("2026-08-01".to_string());
    assert!(!should_fire_now(&n, "2026-08-24", 1, 8, 0));
}

#[test]
fn fires_on_start_and_end_date_boundaries_inclusive() {
    let mut n = base_notif();
    n.start_date = Some("2026-08-24".to_string());
    n.end_date = Some("2026-08-24".to_string());
    assert!(should_fire_now(&n, "2026-08-24", 1, 8, 0));
}

#[test]
fn dates_are_compared_as_string_slices_are() {
    let texts = ["", "2026", "2026-08-24", "2026-08-25", "2026-8-24", "é", "z", "\u{10000}", "\u{ffff}"];
    for today in texts {
        for bound in texts {
            let mut n = base_notif();
            n.start_date = Some(bound.to_string());
            assert_eq!(should_fire_now(&n, today, 1, 8, 0), today >= bound);
            n.start_date = None;
            n.end_date = Some(bound.to_string());
            assert_eq!(should_fire_now(&n, today, 1, 8, 0), today <= bound);
        }
    }
}

#[test]
fn time_has_to_be_written_with_two_digits() {
    let mut n = base_notif();
    n.time = "8:00".to_string();
    assert!(!should_fire_now(&n, "2026-08-24", 1, 8, 0));
    n.time = "08:05".to_string();
    assert!(should_fire_now(&n, "2026-08-24", 1, 8, 5));
}
