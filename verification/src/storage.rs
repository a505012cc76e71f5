//! The stored list of notifications, and its migration from the weekly reminder of earlier
//! releases.

use crate::notification::{CustomNotification, Schedule};
use crate::{calendar, notification};
use vstd::prelude::*;

verus! {

/// The single weekly reminder that earlier releases stored.
#[derive(Clone, Copy, Debug, PartialEq, Eq, Structural)]
pub struct LegacyWeeklyNotifConfig {
    pub enabled: bool,
    /// 0 for Sunday to 6 for Saturday.
    pub day_of_week: u32,
    pub hour: u32,
    pub minute: u32,
}

/// The list to start with, and whether it has to be written back.
#[derive(Debug)]
pub struct LoadedNotifications {
    pub notifications: Vec<CustomNotification>,
    pub save: bool,
}

/// A day counted from Sunday as 0, in the convention where Monday is 1 and Sunday is 7.
pub open spec fn iso_day(js_day: u32) -> u32 {
    if js_day == 0 {
        7
    } else {
        js_day
    }
}

/// The notification that replaces a weekly reminder.
pub open spec fn migrated(config: LegacyWeeklyNotifConfig) -> Schedule {
    Schedule {
        id: "migrated-weekly-notif"@,
        label: "Bilan de la semaine"@,
        message: "C'est le moment de faire votre bilan hebdomadaire dans Ma Journee."@,
        time: calendar::time_of_day(config.hour as nat, config.minute as nat),
        days: seq![iso_day(config.day_of_week)],
        enabled: config.enabled,
        start_date: None,
        end_date: None,
    }
}

/// What loading gives: the stored list; failing that the migrated weekly reminder, to be saved;
/// failing that nothing.
pub open spec fn loaded_list(
    stored: Option<Seq<Schedule>>,
    legacy: Option<LegacyWeeklyNotifConfig>,
) -> (Seq<Schedule>, bool) {
    match (stored, legacy) {
        (Some(list), _) => (list, false),
        (None, Some(config)) => (seq![migrated(config)], true),
        (None, None) => (Seq::empty(), false),
    }
}

/// What an optional list of notifications holds.
pub open spec fn optional_schedules(
    list: Option<Vec<CustomNotification>>,
) -> Option<Seq<Schedule>> {
    match list {
        Some(list) => Some(notification::schedules(list@)),
        None => None,
    }
}

/// Converts a day counted from Sunday as 0 to the convention where Monday is 1 and Sunday is 7.
pub fn migrate_legacy_day(js_day: u32) -> (day: u32)
    ensures
        day == iso_day(js_day),
        js_day == 0 ==> day == 7,
        js_day != 0 ==> day == js_day,
{
    if js_day == 0 {
        7
    } else {
        js_day
    }
}

/// Decides which list to start with, from the stored list and the weekly reminder of an earlier
/// release, as far as they could be read.
pub fn load_notifications(
    stored: Option<Vec<CustomNotification>>,
    legacy: Option<LegacyWeeklyNotifConfig>,
) -> (loaded: LoadedNotifications)
    ensures
        (notification::schedules(loaded.notifications@), loaded.save) == loaded_list(
            optional_schedules(stored),
            legacy,
        ),
        stored matches Some(list) ==> loaded.notifications@ == list@ && !loaded.save,
        stored is None && legacy is None ==> loaded.notifications@.len() == 0 && !loaded.save,
        stored is None && legacy is Some ==> loaded.notifications@.len() == 1 && loaded.save,
{
    if let Some(notifications) = stored {
        return LoadedNotifications { notifications, save: false };
    }
    match legacy {
        Some(config) => {
            let mut days: Vec<u32> = Vec::new();
            days.push(migrate_legacy_day(config.day_of_week));
            let notif = CustomNotification {
                id: "migrated-weekly-notif".to_owned(),
                label: "Bilan de la semaine".to_owned(),
                message:
                    "C'est le moment de faire votre bilan hebdomadaire dans Ma Journee.".to_owned(),
                time: calendar::format_time(config.hour, config.minute),
                days,
                enabled: config.enabled,
                start_date: None,
                end_date: None,
            };
            proof {
                assert(notif.days@ =~= seq![iso_day(config.day_of_week)]);
            }
            let mut notifications: Vec<CustomNotification> = Vec::new();
            notifications.push(notif);
            proof {
                assert(notification::schedules(notifications@) =~= seq![migrated(config)]);
            }
            LoadedNotifications { notifications, save: true }
        },
        None => {
            let notifications: Vec<CustomNotification> = Vec::new();
            proof {
                assert(notification::schedules(notifications@) =~= Seq::<Schedule>::empty());
            }
            LoadedNotifications { notifications, save: false }
        },
    }
}

/// The current list.
pub fn get_custom_notifications(current: &Vec<CustomNotification>) -> (list: Vec<
    CustomNotification,
>)
    ensures
        notification::schedules(list@) == notification::schedules(current@),
        list@.len() == current@.len(),
        forall|i: int| 0 <= i < list@.len() ==> (#[trigger] list@[i])@ == current@[i]@,
{
    let list = notification::copy_of(current);
    proof {
        notification::lemma_same_schedules(list@, current@);
    }
    list
}

/// Replaces the current list, and returns what has to be written to disk.
pub fn set_custom_notifications(
    current: &mut Vec<CustomNotification>,
    notifications: Vec<CustomNotification>,
) -> (to_save: Vec<CustomNotification>)
    ensures
        notification::schedules(final(current)@) == notification::schedules(notifications@),
        final(current)@.len() == notifications@.len(),
        forall|i: int|
            0 <= i < notifications@.len() ==> (#[trigger] final(current)@[i])@
                == notifications@[i]@,
        to_save@ == notifications@,
{
    *current = notification::copy_of(&notifications);
    proof {
        notification::lemma_same_schedules(current@, notifications@);
    }
    notifications
}

/// The two conventions for days correspond one to one: the seven days counted from Sunday as 0
/// become the seven days 1 to 7, and no two become the same.
pub proof fn lemma_days_correspond(a: u32, b: u32)
    requires
        a <= 6,
        b <= 6,
    ensures
        1 <= iso_day(a) <= 7,
        iso_day(a) % 7 == a,
        iso_day(a) == iso_day(b) ==> a == b,
{
}

/// No setting is lost in the migration: the migrated notification fires exactly in the minute of
/// the week that was configured, and only if the reminder was enabled.
pub proof fn lemma_migration_keeps_the_reminder(
    config: LegacyWeeklyNotifConfig,
    today: Seq<char>,
    day: u32,
    hour: u32,
    minute: u32,
)
    ensures
        migrated(config).fires_at(today, day, hour, minute) <==> config.enabled && day == iso_day(
            config.day_of_week,
        ) && hour == config.hour && minute == config.minute,
{
    let s = migrated(config);
    calendar::lemma_time_of_day_is_injective(
        config.hour as nat,
        config.minute as nat,
        hour as nat,
        minute as nat,
    );
    assert(s.days[0] == iso_day(config.day_of_week));
}

/// The migration happens once: when the list that a start produced is stored and read back, the
/// next start keeps it and saves nothing, whatever is left of the weekly reminder.
pub proof fn lemma_migration_happens_once(
    stored: Option<Seq<Schedule>>,
    legacy: Option<LegacyWeeklyNotifConfig>,
    later_legacy: Option<LegacyWeeklyNotifConfig>,
)
    ensures
        loaded_list(Some(loaded_list(stored, legacy).0), later_legacy) == (
            loaded_list(stored, legacy).0,
            false,
        ),
{
}

/// A stored list is kept as it is, notification for notification, whatever is left of the weekly
/// reminder, and nothing is saved.
pub proof fn lemma_stored_list_is_kept(
    list: Seq<Schedule>,
    legacy: Option<LegacyWeeklyNotifConfig>,
)
    ensures
        loaded_list(Some(list), legacy).0 == list,
        !loaded_list(Some(list), legacy).1,
{
}

/// Without a stored list, the weekly reminder becomes the only notification and is saved; without
/// that either, the list is empty and nothing is saved.
pub proof fn lemma_missing_list(config: LegacyWeeklyNotifConfig)
    ensures
        loaded_list(None, Some(config)).0.len() == 1,
        loaded_list(None, Some(config)).1,
        loaded_list(None, None).0.len() == 0,
        !loaded_list(None, None).1,
        ({
            let s = loaded_list(None, Some(config)).0[0];
            &&& s.id == "migrated-weekly-notif"@
            &&& s.label == "Bilan de la semaine"@
            &&& s.message
                == "C'est le moment de faire votre bilan hebdomadaire dans Ma Journee."@
            &&& s.time == calendar::time_of_day(config.hour as nat, config.minute as nat)
            &&& s.days.len() == 1
            &&& s.days[0] == if config.day_of_week == 0 {
                7
            } else {
                config.day_of_week
            }
            &&& s.enabled == config.enabled
            &&& s.start_date is None
            &&& s.end_date is None
        }),
{
}

/// What stands for an optional list is there exactly when the list is, and holds the same.
pub proof fn lemma_optional_list(list: Option<Vec<CustomNotification>>)
    ensures
        optional_schedules(list) is None <==> list is None,
        list matches Some(l) ==> optional_schedules(list) == Some(notification::schedules(l@)),
{
}

}
