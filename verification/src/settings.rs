//! Settings of the desktop shell.

use crate::toast::{Toast, ToastText};
use vstd::prelude::*;

verus! {

/// The settings that are kept between sessions.
#[derive(Clone, Copy, Debug, PartialEq, Eq, Structural)]
pub struct DesktopAppSettings {
    /// Whether a new version is announced by a system notification.
    pub update_notif_enabled: bool,
    /// Whether the user was told that closing the window leaves the application running.
    pub tray_hint_shown: bool,
}

/// The settings of a first start.
pub open spec fn default_settings() -> DesktopAppSettings {
    DesktopAppSettings { update_notif_enabled: true, tray_hint_shown: false }
}

/// What tells the user that the application keeps running.
pub open spec fn tray_hint() -> ToastText {
    ToastText {
        title: "Ma Journée continue en arrière-plan"@,
        body:
            "Fermer la fenêtre ne quitte pas l'application : elle reste active dans la zone de notification, un clic sur son icône la rouvre."@,
    }
}

/// The settings once the window was closed.
pub open spec fn closed(settings: DesktopAppSettings) -> DesktopAppSettings {
    DesktopAppSettings { tray_hint_shown: true, ..settings }
}

/// The settings with announcements of new versions switched on or off.
pub open spec fn with_update_notif(
    settings: DesktopAppSettings,
    enabled: bool,
) -> DesktopAppSettings {
    DesktopAppSettings { update_notif_enabled: enabled, ..settings }
}

impl Default for DesktopAppSettings {
    fn default() -> (settings: Self)
        ensures
            settings == default_settings(),
            settings.update_notif_enabled,
            !settings.tray_hint_shown,
    {
        DesktopAppSettings { update_notif_enabled: true, tray_hint_shown: false }
    }
}

/// The stored settings as far as they could be read, and those of a first start otherwise.
pub fn load_app_settings(stored: Option<DesktopAppSettings>) -> (settings: DesktopAppSettings)
    ensures
        settings == match stored {
            Some(stored) => stored,
            None => default_settings(),
        },
        stored is None ==> settings.update_notif_enabled && !settings.tray_hint_shown,
{
    match stored {
        Some(settings) => settings,
        None => DesktopAppSettings::default(),
    }
}

/// Whether new versions are announced.
pub fn get_update_notif_enabled(settings: &DesktopAppSettings) -> (enabled: bool)
    ensures
        enabled == settings.update_notif_enabled,
{
    settings.update_notif_enabled
}

/// Switches announcements of new versions on or off, and returns what has to be written to disk.
pub fn set_update_notif_enabled(settings: &mut DesktopAppSettings, enabled: bool) -> (to_save:
    DesktopAppSettings)
    ensures
        *final(settings) == with_update_notif(*old(settings), enabled),
        final(settings).update_notif_enabled == enabled,
        final(settings).tray_hint_shown == old(settings).tray_hint_shown,
        to_save == *final(settings),
{
    settings.update_notif_enabled = enabled;
    *settings
}

/// The user closes the window, which hides it. The first time ever, this returns the hint to
/// show, and the settings have to be written to disk.
pub fn close_requested(settings: &mut DesktopAppSettings) -> (hint: Option<Toast>)
    ensures
        *final(settings) == closed(*old(settings)),
        final(settings).tray_hint_shown,
        final(settings).update_notif_enabled == old(settings).update_notif_enabled,
        hint is Some <==> !old(settings).tray_hint_shown,
        hint matches Some(toast) ==> toast@ == tray_hint(),
        hint matches Some(toast) ==> toast.title@ == "Ma Journée continue en arrière-plan"@
            && toast.body@
            == "Fermer la fenêtre ne quitte pas l'application : elle reste active dans la zone de notification, un clic sur son icône la rouvre."@,
{
    if settings.tray_hint_shown {
        return None;
    }
    settings.tray_hint_shown = true;
    Some(
        Toast {
            title: "Ma Journée continue en arrière-plan".to_owned(),
            body:
                "Fermer la fenêtre ne quitte pas l'application : elle reste active dans la zone de notification, un clic sur son icône la rouvre.".to_owned(),
        },
    )
}

/// What can happen to the settings.
pub enum SettingsEvent {
    Close,
    SetUpdateNotif(bool),
}

/// The settings after some events.
pub open spec fn settings_after(
    settings: DesktopAppSettings,
    events: Seq<SettingsEvent>,
) -> DesktopAppSettings
    decreases events.len(),
{
    if events.len() == 0 {
        settings
    } else {
        let before = settings_after(settings, events.drop_last());
        match events.last() {
            SettingsEvent::Close => closed(before),
            SettingsEvent::SetUpdateNotif(enabled) => with_update_notif(before, enabled),
        }
    }
}

/// How many times the hint is shown during some events.
pub open spec fn hints_shown(settings: DesktopAppSettings, events: Seq<SettingsEvent>) -> nat
    decreases events.len(),
{
    if events.len() == 0 {
        0
    } else {
        let before = hints_shown(settings, events.drop_last());
        if events.last() is Close && !settings_after(settings, events.drop_last()).tray_hint_shown {
            before + 1
        } else {
            before
        }
    }
}

/// The hint is shown once: at the first time that the window is closed, unless an earlier session
/// showed it, and never again, whatever else happens to the settings.
pub proof fn lemma_hint_is_shown_once(settings: DesktopAppSettings, events: Seq<SettingsEvent>)
    ensures
        hints_shown(settings, events) == if !settings.tray_hint_shown && events.contains(
            SettingsEvent::Close,
        ) {
            1nat
        } else {
            0
        },
        settings_after(settings, events).tray_hint_shown == (settings.tray_hint_shown
            || events.contains(SettingsEvent::Close)),
    decreases events.len(),
{
    if events.len() > 0 {
        let earlier = events.drop_last();
        lemma_hint_is_shown_once(settings, earlier);
        if earlier.contains(SettingsEvent::Close) {
            let i = choose|i: int| 0 <= i < earlier.len() && earlier[i] == SettingsEvent::Close;
            assert(events[i] == SettingsEvent::Close);
        }
        if events.last() == SettingsEvent::Close {
            assert(events[events.len() - 1] == SettingsEvent::Close);
        } else if events.contains(SettingsEvent::Close) {
            let i = choose|i: int| 0 <= i < events.len() && events[i] == SettingsEvent::Close;
            assert(earlier[i] == SettingsEvent::Close);
        }
    }
}

/// The last choice made about announcements is the one that holds, and closing the window does
/// not touch it.
pub proof fn lemma_last_choice_holds(
    settings: DesktopAppSettings,
    events: Seq<SettingsEvent>,
    enabled: bool,
    closings: nat,
)
    ensures
        settings_after(
            settings,
            events.push(SettingsEvent::SetUpdateNotif(enabled)) + Seq::new(
                closings,
                |i: int| SettingsEvent::Close,
            ),
        ).update_notif_enabled == enabled,
    decreases closings,
{
    let chosen = events.push(SettingsEvent::SetUpdateNotif(enabled));
    let all = chosen + Seq::new(closings, |i: int| SettingsEvent::Close);
    if closings == 0 {
        assert(all =~= chosen);
    } else {
        let fewer = (closings - 1) as nat;
        lemma_last_choice_holds(settings, events, enabled, fewer);
        assert(all.drop_last() =~= chosen + Seq::new(fewer, |i: int| SettingsEvent::Close));
    }
}

/// Events follow one another: each changes what those before it have left, a closing the hint
/// alone, and a choice the announcements alone.
pub proof fn lemma_settings_follow_the_events(
    settings: DesktopAppSettings,
    events: Seq<SettingsEvent>,
    enabled: bool,
)
    ensures
        settings_after(settings, Seq::empty()) == settings,
        ({
            let before = settings_after(settings, events);
            let closed = settings_after(settings, events.push(SettingsEvent::Close));
            let chosen = settings_after(
                settings,
                events.push(SettingsEvent::SetUpdateNotif(enabled)),
            );
            &&& closed.tray_hint_shown
            &&& closed.update_notif_enabled == before.update_notif_enabled
            &&& chosen.tray_hint_shown == before.tray_hint_shown
            &&& chosen.update_notif_enabled == enabled
        }),
{
    assert(events.push(SettingsEvent::Close).drop_last() =~= events);
    assert(events.push(SettingsEvent::SetUpdateNotif(enabled)).drop_last() =~= events);
}

}
