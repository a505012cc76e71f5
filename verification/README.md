# Ma Journee Desktop

Native shell of Ma Journee for Windows and Linux: a window that loads majournee.com, a tray icon,
system notifications, a start at login and updates.

- `src/` holds what the shell decides, verified with Verus: when a scheduled notification fires and
  is sent (`notification`, `scheduler`, `calendar`), the stored list and its migration (`storage`),
  the settings (`settings`), new versions (`update`), links and navigation (`links`), the web view
  cache (`webview_cache`), crash reports (`crash`), what is handed to the notification service
  (`toast`), and the window, tray and start-up (`shell`). `text` has the text operations they share.
- `app/` is the application around it: Tauri, files, the clock and the notification service.
- `tests/` runs the library.

Two outside functions are trusted by contract: `str::trim`, in `text`, and the reading of a local
date and time with the `time` crate, in `calendar`.
