use majournee_desktop::{
    autostart_args, check_for_update, clear_webview_cache_if_updated, close_requested, frontend,
    get_custom_notifications, get_pending_update, get_platform, get_update_notif_enabled,
    install_update, is_allowed_url_scheme, is_dev_target_dir, load_app_settings,
    load_notifications, menu_action, navigate, open_url, opens_main_window, panic_location,
    panic_message, panic_report, send_notification, set_custom_notifications,
    set_update_notif_enabled, should_fire_now, starts_hidden, tray_tooltip, window_title,
    CustomNotification, DesktopAppSettings, LegacyWeeklyNotifConfig, MenuAction, Navigation,
    PanicSite, HIDDEN_FLAG, UPDATE_CHECK_INTERVAL_SECONDS,
};

fn notif(id: &str) -> CustomNotification {
    CustomNotification {
        id: id.to_string(),
        label: "Titre".to_string(),
        message: "Message".to_string(),
        time: "08:00".to_string(),
        days: vec![1, 7],
        enabled: true,
        start_date: Some("2026-01-01".to_string()),
        end_date: None,
    }
}

fn legacy() -> LegacyWeeklyNotifConfig {
    LegacyWeeklyNotifConfig { enabled: true, day_of_week: 0, hour: 9, minute: 5 }
}

#[test]
fn stored_list_wins_over_the_weekly_reminder() {
    let loaded = load_notifications(Some(vec![notif("a"), notif("b")]), Some(legacy()));
    assert!(!loaded.save);
    assert_eq!(loaded.notifications.len(), 2);
    assert_eq!(loaded.notifications[1].id, "b");
    let empty = load_notifications(Some(Vec::new()), Some(legacy()));
    assert!(!empty.save);
    assert!(empty.notifications.is_empty());
}

#[test]
fn weekly_reminder_is_migrated_and_saved() {
    let loaded = load_notifications(None, Some(legacy()));
    assert!(loaded.save);
    assert_eq!(loaded.notifications.len(), 1);
    let n = &loaded.notifications[0];
    assert_eq!(n.id, "migrated-weekly-notif");
    assert_eq!(n.label, "Bilan de la semaine");
    assert_eq!(
        n.message,
        "C'est le moment de faire votre bilan hebdomadaire dans Ma Journee."
    );
    assert_eq!(n.time, "09:05");
    assert_eq!(n.days, vec![7]);
    assert!(n.enabled);
    assert_eq!(n.start_date, None);
    assert_eq!(n.end_date, None);
}

#[test]
fn migrated_reminder_fires_in_its_minute_only() {
    let loaded = load_notifications(None, Some(legacy()));
    let n = &loaded.notifications[0];
    let mut fired = 0;
    for day in 1..=7 {
        for hour in 0..24 {
            for minute in 0..60 {
                if should_fire_now(n, "2026-08-23", day, hour, minute) {
                    assert_eq!((day, hour, minute), (7, 9, 5));
                    fired += 1;
                }
            }
        }
    }
    assert_eq!(fired, 1);
}

#[test]
fn migration_happens_once() {
    let first = load_notifications(None, Some(legacy()));
    let again = load_notifications(Some(first.notifications), Some(legacy()));
    assert!(!again.save);
    assert_eq!(again.notifications.len(), 1);
    assert_eq!(again.notifications[0].id, "migrated-weekly-notif");
}

#[test]
fn nothing_stored_gives_an_empty_list() {
    let loaded = load_notifications(None, None);
    assert!(!loaded.save);
    assert!(loaded.notifications.is_empty());
}

#[test]
fn what_is_set_is_read_back_and_saved() {
    let mut current = vec![notif("old")];
    let saved = set_custom_notifications(&mut current, vec![notif("a"), notif("b")]);
    let read = get_custom_notifications(&current);
    for list in [&saved, &current, &read] {
        assert_eq!(list.len(), 2);
        assert_eq!(list[0].id, "a");
        assert_eq!(list[1].id, "b");
        assert_eq!(list[1].label, "Titre");
        assert_eq!(list[1].message, "Message");
        assert_eq!(list[1].time, "08:00");
        assert_eq!(list[1].days, vec![1, 7]);
        assert!(list[1].enabled);
        assert_eq!(list[1].start_date, Some("2026-01-01".to_string()));
        assert_eq!(list[1].end_date, None);
    }
}

#[test]
fn settings_default_and_load() {
    let default = DesktopAppSettings { update_notif_enabled: true, tray_hint_shown: false };
    let stored = DesktopAppSettings { update_notif_enabled: false, tray_hint_shown: true };
    assert_eq!(DesktopAppSettings::default(), default);
    assert_eq!(load_app_settings(None), default);
    assert_eq!(load_app_settings(Some(stored)), stored);
}

#[test]
fn update_setting_leaves_the_hint_alone() {
    let mut settings = DesktopAppSettings { update_notif_enabled: true, tray_hint_shown: true };
    let saved = set_update_notif_enabled(&mut settings, false);
    assert_eq!(saved, settings);
    assert!(!get_update_notif_enabled(&settings));
    assert!(settings.tray_hint_shown);
}

#[test]
fn tray_hint_comes_once() {
    let mut settings = DesktopAppSettings::default();
    let hint = close_requested(&mut settings).unwrap();
    assert_eq!(hint.title, "Ma Journée continue en arrière-plan");
    assert_eq!(
        hint.body,
        "Fermer la fenêtre ne quitte pas l'application : elle reste active dans la zone de notification, un clic sur son icône la rouvre."
    );
    assert!(settings.tray_hint_shown);
    assert!(settings.update_notif_enabled);
    assert!(close_requested(&mut settings).is_none());
    set_update_notif_enabled(&mut settings, false);
    assert!(close_requested(&mut settings).is_none());
    assert!(!get_update_notif_enabled(&settings));
}

#[test]
fn new_version_is_announced_once() {
    let settings = DesktopAppSettings::default();
    let mut pending = None;
    let found = || Ok(Some("0.19.0".to_string()));

    let known = get_pending_update(&pending);
    let first = check_for_update(&known, found(), &settings, &mut pending);
    let toast = first.toast.unwrap();
    assert_eq!(toast.title, "Mise a jour disponible");
    assert_eq!(toast.body, "Version 0.19.0 disponible. Ouvrez Ma Journee pour l'installer.");
    assert_eq!(first.result, Ok(Some("0.19.0".to_string())));
    assert_eq!(pending, Some("0.19.0".to_string()));

    let known = get_pending_update(&pending);
    let second = check_for_update(&known, found(), &settings, &mut pending);
    assert!(second.toast.is_none());
    assert_eq!(second.result, Ok(Some("0.19.0".to_string())));

    let known = get_pending_update(&pending);
    let other = Ok(Some("0.20.0".to_string()));
    assert!(check_for_update(&known, other, &settings, &mut pending).toast.is_some());
    assert_eq!(get_pending_update(&pending), Some("0.20.0".to_string()));
}

#[test]
fn fruitless_checks_keep_the_pending_version() {
    let settings = DesktopAppSettings::default();
    let mut pending = Some("0.19.0".to_string());
    let known = get_pending_update(&pending);
    let none = check_for_update(&known, Ok(None), &settings, &mut pending);
    assert_eq!(none.result, Ok(None));
    assert!(none.toast.is_none());
    let failed = check_for_update(&known, Err("reseau".to_string()), &settings, &mut pending);
    assert_eq!(failed.result, Err("reseau".to_string()));
    assert!(failed.toast.is_none());
    assert_eq!(pending, Some("0.19.0".to_string()));
}

#[test]
fn switched_off_announcements_still_note_the_version() {
    let settings = DesktopAppSettings { update_notif_enabled: false, tray_hint_shown: false };
    let mut pending = None;
    let check = check_for_update(&None, Ok(Some("1.0.0".to_string())), &settings, &mut pending);
    assert!(check.toast.is_none());
    assert_eq!(pending, Some("1.0.0".to_string()));
}

#[test]
fn install_needs_a_version() {
    assert_eq!(install_update(Ok(Some("1.0.0".to_string()))), Ok("1.0.0".to_string()));
    assert_eq!(install_update(Ok(None)), Err("Aucune mise a jour disponible".to_string()));
    assert_eq!(install_update(Err("reseau".to_string())), Err("reseau".to_string()));
    assert_eq!(UPDATE_CHECK_INTERVAL_SECONDS, 21_600);
}

#[test]
fn refused_link_is_answered_with_the_reason() {
    assert_eq!(
        open_url("https://majournee.com/a?b=c&d".to_string()),
        Ok("https://majournee.com/a?b=c&d".to_string())
    );
    assert_eq!(open_url("file:///etc/passwd".to_string()), Err("Schema non autorise".to_string()));
}

#[test]
fn window_stays_on_its_own_host() {
    let to = |url: &str, host: Option<&str>| navigate(url, host, "majournee.com");
    assert_eq!(to("https://majournee.com/a", Some("majournee.com")), Navigation::Stay);
    assert_eq!(
        to("https://mcp.majournee.com/", Some("mcp.majournee.com")),
        Navigation::OpenExternally
    );
    assert_eq!(to("mailto:foo@example.com", None), Navigation::OpenExternally);
}

#[test]
fn navigation_to_another_scheme_is_refused() {
    let to = |url: &str, host: Option<&str>| navigate(url, host, "majournee.com");
    assert_eq!(to("file:///etc/passwd", None), Navigation::Refuse);
    assert_eq!(to("javascript:alert(1)", None), Navigation::Refuse);
    assert_eq!(to("ftp://example.com/", Some("example.com")), Navigation::Refuse);
    assert_eq!(to("", None), Navigation::Refuse);
}

#[test]
fn cache_is_dropped_on_a_new_version() {
    let reset = clear_webview_cache_if_updated(Some("0.17.0\n"), "0.18.0").unwrap();
    assert_eq!(reset.directories, vec!["WebKitCache", "CacheStorage", "EBWebView"]);
    assert_eq!(reset.marker, "0.18.0");
    assert!(clear_webview_cache_if_updated(Some(&reset.marker), "0.18.0").is_none());
    assert!(clear_webview_cache_if_updated(Some(" 0.18.0\r\n"), "0.18.0").is_none());
    assert!(clear_webview_cache_if_updated(None, "0.18.0").is_some());
    assert!(clear_webview_cache_if_updated(None, "").is_none());
}

#[test]
fn panic_report_holds_what_is_known() {
    let site = Some(PanicSite { file: "src/lib.rs".to_string(), line: 120, column: 7 });
    assert_eq!(panic_location(&site), "src/lib.rs:120:7");
    assert_eq!(
        panic_report("0.18.0", Some("main"), &site, Some("boum"), None, "0: pile"),
        "Ma Journee v0.18.0 - panic sur le thread 'main' a src/lib.rs:120:7\nboum\n\nPile d'appels :\n0: pile\n"
    );
    assert_eq!(
        panic_report("0.18.0", None, &None, None, None, ""),
        "Ma Journee v0.18.0 - panic sur le thread 'inconnu' a emplacement inconnu\nmessage indisponible\n\nPile d'appels :\n\n"
    );
}

#[test]
fn panic_message_prefers_the_slice() {
    assert_eq!(panic_message(Some("a"), Some("b")), "a");
    assert_eq!(panic_message(None, Some("b")), "b");
    assert_eq!(panic_message(None, None), "message indisponible");
}

#[test]
fn development_builds_carry_no_identity() {
    assert!(is_dev_target_dir("C:\\src\\target\\debug", "\\"));
    assert!(is_dev_target_dir("C:\\src\\target\\release", "\\"));
    assert!(!is_dev_target_dir("C:\\src\\target\\release\\bin", "\\"));
    assert!(!is_dev_target_dir("C:\\src\\mytarget\\debug", "\\"));
    assert!(!is_dev_target_dir("debug", "\\"));

    let installed = send_notification("T", "B", Some("C:\\Program Files\\App"), "\\", "com.app");
    assert_eq!(installed.summary, "T");
    assert_eq!(installed.body, "B");
    assert_eq!(installed.action, ("default".to_string(), "default".to_string()));
    assert_eq!(installed.app_id, Some("com.app".to_string()));
    let dev = send_notification("T", "B", Some("C:\\src\\target\\debug"), "\\", "com.app");
    assert_eq!(dev.app_id, None);
    assert_eq!(send_notification("T", "B", None, "/", "com.app").app_id, None);
}

#[test]
fn any_action_but_closing_opens_the_window() {
    assert!(opens_main_window("default"));
    assert!(opens_main_window(""));
    assert!(!opens_main_window("__closed"));
}

#[test]
fn frontend_of_each_build() {
    assert_eq!(frontend(true).host, "localhost");
    assert_eq!(frontend(true).url, "http://localhost:1420");
    assert_eq!(frontend(false).host, "majournee.com");
    assert_eq!(frontend(false).url, "https://majournee.com");
    for debug in [true, false] {
        assert!(is_allowed_url_scheme(frontend(debug).url));
        assert!(frontend(debug).url.contains(frontend(debug).host));
    }
    assert_eq!(window_title(true), "Ma Journée (DEV)");
    assert_eq!(window_title(false), "Ma Journée");
    assert_eq!(tray_tooltip(true), "Ma Journee (DEV)");
    assert_eq!(tray_tooltip(false), "Ma Journee");
}

#[test]
fn start_at_login_is_hidden() {
    let args = |list: &[&str]| list.iter().map(|a| a.to_string()).collect::<Vec<String>>();
    assert_eq!(autostart_args(), vec![HIDDEN_FLAG]);
    assert!(starts_hidden(&args(&["majournee", "--hidden"])));
    assert!(starts_hidden(&args(&["majournee", "-v", "--hidden", "x"])));
    assert!(!starts_hidden(&args(&["majournee"])));
    assert!(!starts_hidden(&args(&["majournee", "--hidden=1"])));
    assert!(!starts_hidden(&args(&[])));
}

#[test]
fn menu_entries_and_platforms() {
    assert_eq!(menu_action("show"), MenuAction::Show);
    assert_eq!(menu_action("quit"), MenuAction::Quit);
    assert_eq!(menu_action("status"), MenuAction::Ignore);
    assert_eq!(get_platform("linux"), "linux");
    assert_eq!(get_platform("windows"), "windows");
    assert_eq!(get_platform("macos"), "other");
}
