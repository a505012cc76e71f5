//! Decision core of the Ma Journee desktop shell.
//!
//! The shell wraps the web application in a native window with a tray icon. What it decides is
//! here: when a scheduled notification fires, which links may leave the window, when the web view
//! cache is dropped, and when a new version is announced. Everything that touches the system is
//! left to the application around it.

pub mod calendar;
pub mod crash;
pub mod links;
pub mod notification;
pub mod scheduler;
pub mod settings;
pub mod shell;
pub mod storage;
pub mod text;
pub mod toast;
pub mod update;
pub mod webview_cache;

pub use calendar::{format_time, local_moment, Moment};
pub use crash::{panic_location, panic_message, panic_report, PanicSite};
pub use links::{is_allowed_url_scheme, navigate, open_url, Navigation};
pub use notification::{should_fire_now, CustomNotification};
pub use scheduler::{FiredLog, POLL_INTERVAL_SECONDS};
pub use settings::{
    close_requested, get_update_notif_enabled, load_app_settings, set_update_notif_enabled,
    DesktopAppSettings,
};
pub use shell::{
    autostart_args, frontend, get_platform, menu_action, starts_hidden, tray_tooltip, window_title,
    Frontend, MenuAction, HIDDEN_FLAG,
};
pub use storage::{
    get_custom_notifications, load_notifications, migrate_legacy_day, set_custom_notifications,
    LegacyWeeklyNotifConfig, LoadedNotifications,
};
pub use toast::{
    is_dev_target_dir, opens_main_window, send_notification, DesktopNotification, Toast,
};
pub use update::{
    check_for_update, get_pending_update, install_update, UpdateCheck,
    UPDATE_CHECK_INTERVAL_SECONDS,
};
pub use webview_cache::{clear_webview_cache_if_updated, has_version_changed, CacheReset};
