//! The polling loop of scheduled notifications: which of them are sent at each poll.

use crate::calendar::Moment;
use crate::notification::{should_fire_now, CustomNotification, Schedule};
use crate::toast::{Toast, ToastText};
use crate::{calendar, notification, toast};
use vstd::prelude::*;

verus! {

/// Seconds between two polls.
pub const POLL_INTERVAL_SECONDS: u64 = 30;

/// A minute of the local calendar.
#[derive(Clone, Copy, Debug, PartialEq, Eq, Structural)]
pub struct Slot {
    pub year: i32,
    pub month: u8,
    pub day: u8,
    pub hour: u32,
    pub minute: u32,
}

/// The minute in which `now` lies.
pub open spec fn slot_of(now: Moment) -> Slot {
    Slot {
        year: now.year,
        month: now.month,
        day: now.day,
        hour: now.hour,
        minute: now.minute,
    }
}

/// The minute in which a notification was last sent.
struct LogEntry {
    id: String,
    slot: Slot,
}

/// For each notification, by its id, the minute in which it was last sent.
pub struct FiredLog {
    entries: Vec<LogEntry>,
}

impl View for FiredLog {
    type V = Map<Seq<char>, Slot>;

    closed spec fn view(&self) -> Map<Seq<char>, Slot> {
        entries_map(self.entries@)
    }
}

/// Whether entry `i` is about `id`.
spec fn is_entry_of(entries: Seq<LogEntry>, id: Seq<char>, i: int) -> bool {
    0 <= i < entries.len() && entries[i].id@ == id
}

spec fn entries_map(entries: Seq<LogEntry>) -> Map<Seq<char>, Slot> {
    Map::new(
        |id: Seq<char>| exists|i: int| is_entry_of(entries, id, i),
        |id: Seq<char>| entries[choose|i: int| is_entry_of(entries, id, i)].slot,
    )
}

/// Whether no id occurs twice.
spec fn has_distinct_ids(entries: Seq<LogEntry>) -> bool {
    forall|i: int, j: int|
        0 <= i < entries.len() && 0 <= j < entries.len() && entries[i].id@ == entries[j].id@ ==> i
            == j
}

/// Whether a notification of the list has the given id.
pub open spec fn is_listed(list: Seq<Schedule>, id: Seq<char>) -> bool {
    exists|i: int| 0 <= i < list.len() && #[trigger] list[i].id == id
}

/// The ids of a list of notifications.
pub open spec fn listed_ids(list: Seq<Schedule>) -> Set<Seq<char>> {
    Set::new(|id: Seq<char>| is_listed(list, id))
}

/// Whether a notification of the list has the given id and fires at `now`.
pub open spec fn id_fires(list: Seq<Schedule>, id: Seq<char>, now: Moment) -> bool {
    exists|i: int| 0 <= i < list.len() && #[trigger] list[i].id == id && list[i].fires(now)
}

/// Whether the log says that `id` was last sent in the given minute.
pub open spec fn was_sent_in(log: Map<Seq<char>, Slot>, id: Seq<char>, slot: Slot) -> bool {
    log.contains_key(id) && log[id] == slot
}

/// Whether a poll at `now` sends notification `i` of the list: it fires, its id has not already
/// been sent in this minute, and no earlier notification of that id fires.
pub open spec fn is_due(
    list: Seq<Schedule>,
    log: Map<Seq<char>, Slot>,
    now: Moment,
    i: int,
) -> bool {
    &&& list[i].fires(now)
    &&& !was_sent_in(log, list[i].id, slot_of(now))
    &&& !id_fires(list.take(i), list[i].id, now)
}

/// The toast of a notification.
pub open spec fn toast_of(s: Schedule) -> ToastText {
    ToastText { title: s.label, body: s.message }
}

/// The toasts of the notifications that are due, in the order of the list.
pub open spec fn due_toasts(
    list: Seq<Schedule>,
    log: Map<Seq<char>, Slot>,
    now: Moment,
) -> Seq<ToastText>
    decreases list.len(),
{
    if list.len() == 0 {
        Seq::empty()
    } else {
        let earlier = due_toasts(list.drop_last(), log, now);
        if is_due(list, log, now, list.len() - 1) {
            earlier.push(toast_of(list.last()))
        } else {
            earlier
        }
    }
}

/// The log with every id that fires at `now` moved to this minute.
pub open spec fn log_with_fired(
    list: Seq<Schedule>,
    log: Map<Seq<char>, Slot>,
    now: Moment,
) -> Map<Seq<char>, Slot> {
    Map::new(
        |id: Seq<char>| log.contains_key(id) || id_fires(list, id, now),
        |id: Seq<char>|
            if id_fires(list, id, now) {
                slot_of(now)
            } else {
                log[id]
            },
    )
}

/// The log after a poll at `now`: ids that fire are moved to this minute, and ids
/// that are no longer listed are forgotten.
pub open spec fn log_after(
    list: Seq<Schedule>,
    log: Map<Seq<char>, Slot>,
    now: Moment,
) -> Map<Seq<char>, Slot> {
    log_with_fired(list, log, now).restrict(listed_ids(list))
}

impl FiredLog {
    /// Whether the log holds one entry per id.
    pub closed spec fn wf(self) -> bool {
        has_distinct_ids(self.entries@)
    }

    /// A log in which nothing was sent.
    pub fn new() -> (log: Self)
        ensures
            log.wf(),
            log@ == Map::<Seq<char>, Slot>::empty(),
    {
        let log = FiredLog { entries: Vec::new() };
        proof {
            assert(log@ =~= Map::<Seq<char>, Slot>::empty());
        }
        log
    }

    /// Where the entry of `id` stands.
    fn position(&self, id: &String) -> (position: Option<usize>)
        ensures
            position matches Some(i) ==> is_entry_of(self.entries@, id@, i as int),
            position is None ==> !self@.contains_key(id@),
    {
        for i in 0..self.entries.len()
            invariant
                forall|j: int| 0 <= j < i ==> !is_entry_of(self.entries@, id@, j),
        {
            if self.entries[i].id == *id {
                return Some(i);
            }
        }
        None
    }

    /// When `id` was last sent.
    fn last_sent(&self, id: &String) -> (slot: Option<Slot>)
        requires
            self.wf(),
        ensures
            slot == if self@.contains_key(id@) {
                Some(self@[id@])
            } else {
                None
            },
    {
        match self.position(id) {
            Some(i) => {
                proof {
                    lemma_entry(self.entries@, i as int);
                }
                Some(self.entries[i].slot)
            },
            None => None,
        }
    }

    /// Notes that `id` was sent in `slot`.
    fn record(&mut self, id: String, slot: Slot)
        requires
            old(self).wf(),
        ensures
            final(self).wf(),
            final(self)@ == old(self)@.insert(id@, slot),
    {
        let ghost before = self.entries@;
        match self.position(&id) {
            Some(i) => {
                self.entries.set(i, LogEntry { id, slot });
                proof {
                    lemma_entries_updated(before, i as int, self.entries@[i as int]);
                }
            },
            None => {
                self.entries.push(LogEntry { id, slot });
                proof {
                    lemma_entries_pushed(before, self.entries@.last());
                }
            },
        }
    }

    /// Forgets the ids that are not listed.
    fn keep_listed(&mut self, list: &Vec<CustomNotification>)
        requires
            old(self).wf(),
        ensures
            final(self).wf(),
            final(self)@ == old(self)@.restrict(listed_ids(notification::schedules(list@))),
    {
        let ghost ids = listed_ids(notification::schedules(list@));
        let ghost wanted = self@.restrict(ids);
        let mut i: usize = 0;
        while i < self.entries.len()
            invariant
                self.wf(),
                ids == listed_ids(notification::schedules(list@)),
                self@.restrict(ids) == wanted,
                i <= self.entries.len(),
                forall|j: int| 0 <= j < i ==> ids.contains(#[trigger] self.entries[j].id@),
            decreases self.entries.len() - i,
        {
            if lists_id(list, &self.entries[i].id) {
                i += 1;
            } else {
                let ghost before = self.entries@;
                self.entries.remove(i);
                proof {
                    lemma_entry_removed(before, i as int);
                    assert(self@.restrict(ids) =~= entries_map(before).restrict(ids));
                }
            }
        }
        proof {
            assert(self@.restrict(ids) =~= self@);
        }
    }

    /// Polls the list at `now`: returns the toasts to show, in order, and notes that they were
    /// sent.
    pub fn poll(&mut self, list: &Vec<CustomNotification>, now: &Moment) -> (toasts: Vec<Toast>)
        requires
            old(self).wf(),
        ensures
            final(self).wf(),
            toast::toast_texts(toasts@) == due_toasts(
                notification::schedules(list@),
                old(self)@,
                *now,
            ),
            final(self)@ == log_after(notification::schedules(list@), old(self)@, *now),
            exists|indices: Seq<int>|
                {
                    &&& #[trigger] indices.len() == toasts@.len()
                    &&& forall|a: int, b: int|
                        0 <= a < b < indices.len() ==> indices[a] < indices[b]
                    &&& forall|k: int|
                        0 <= k < toasts@.len() ==> {
                            &&& 0 <= #[trigger] indices[k] < list@.len()
                            &&& list@[indices[k]]@.fires(*now)
                            &&& toasts@[k].title@ == list@[indices[k]].label@
                            &&& toasts@[k].body@ == list@[indices[k]].message@
                        }
                },
    {
        let today = now.today();
        let slot = Slot {
            year: now.year,
            month: now.month,
            day: now.day,
            hour: now.hour,
            minute: now.minute,
        };
        let mut toasts: Vec<Toast> = Vec::new();
        let ghost all = notification::schedules(list@);
        let ghost log = self@;
        proof {
            assert(log_with_fired(all.take(0), log, *now) =~= log);
            assert(toast::toast_texts(toasts@) =~= Seq::<ToastText>::empty());
        }
        for i in 0..list.len()
            invariant
                self.wf(),
                all == notification::schedules(list@),
                today@ == now.date(),
                slot == slot_of(*now),
                self@ == log_with_fired(all.take(i as int), log, *now),
                toast::toast_texts(toasts@) == due_toasts(all.take(i as int), log, *now),
        {
            let notif = &list[i];
            proof {
                lemma_next_notification(all, log, *now, i as int);
            }
            if should_fire_now(notif, today.as_str(), now.weekday, now.hour, now.minute) {
                let already_sent = match self.last_sent(&notif.id) {
                    Some(sent) => sent == slot,
                    None => false,
                };
                if !already_sent {
                    let ghost shown = toasts@;
                    self.record(notif.id.clone(), slot);
                    toasts.push(Toast { title: notif.label.clone(), body: notif.message.clone() });
                    proof {
                        assert(toast::toast_texts(toasts@) =~= toast::toast_texts(shown).push(
                            toast_of(notif@),
                        ));
                    }
                }
            }
        }
        proof {
            assert(all.take(list@.len() as int) =~= all);
        }
        self.keep_listed(list);
        proof {
            let indices = lemma_toasts_come_from_the_list(list@, toasts@, log, *now);
            assert(indices.len() == toasts@.len());
        }
        toasts
    }

    /// Polls the list at `unix_seconds` after the epoch, `offset_seconds` east of UTC. An instant
    /// without a local date and time sends nothing and leaves the log as it is.
    pub fn poll_at(
        &mut self,
        list: &Vec<CustomNotification>,
        unix_seconds: i64,
        offset_seconds: i32,
    ) -> (toasts: Option<Vec<Toast>>)
        requires
            old(self).wf(),
        ensures
            final(self).wf(),
            toasts is Some <==> calendar::has_local_time(
                unix_seconds as int,
                offset_seconds as int,
            ),
            toasts is None ==> final(self)@ == old(self)@,
            toasts is Some ==> exists|now: Moment|
                now.is_at(unix_seconds as int, offset_seconds as int),
            forall|now: Moment| #[trigger]
                now.is_at(unix_seconds as int, offset_seconds as int) && toasts is Some ==> {
                    let all = notification::schedules(list@);
                    &&& toast::toast_texts(toasts->0@) == due_toasts(all, old(self)@, now)
                    &&& final(self)@ == log_after(all, old(self)@, now)
                },
    {
        match calendar::local_moment(unix_seconds, offset_seconds) {
            Some(moment) => {
                proof {
                    assert forall|now: Moment| #[trigger]
                        now.is_at(unix_seconds as int, offset_seconds as int) implies now
                        == moment by {
                        calendar::lemma_clock_reading(
                            now,
                            moment,
                            unix_seconds as int,
                            offset_seconds as int,
                        );
                    }
                }
                Some(self.poll(list, &moment))
            },
            None => None,
        }
    }
}

/// Whether a notification of the list has the given id.
fn lists_id(list: &Vec<CustomNotification>, id: &String) -> (found: bool)
    ensures
        found == is_listed(notification::schedules(list@), id@),
{
    let ghost all = notification::schedules(list@);
    for i in 0..list.len()
        invariant
            all == notification::schedules(list@),
            forall|j: int| 0 <= j < i ==> #[trigger] all[j].id != id@,
    {
        if list[i].id == *id {
            proof {
                assert(all[i as int].id == id@);
            }
            return true;
        }
    }
    false
}

/// What one more notification changes in the log and in the toasts.
proof fn lemma_next_notification(
    list: Seq<Schedule>,
    log: Map<Seq<char>, Slot>,
    now: Moment,
    i: int,
)
    requires
        0 <= i < list.len(),
    ensures
        ({
            let before = log_with_fired(list.take(i), log, now);
            let shown = due_toasts(list.take(i), log, now);
            let id = list[i].id;
            let sent = was_sent_in(before, id, slot_of(now));
            &&& log_with_fired(list.take(i + 1), log, now) == if list[i].fires(now) && !sent {
                before.insert(id, slot_of(now))
            } else {
                before
            }
            &&& due_toasts(list.take(i + 1), log, now) == if list[i].fires(now) && !sent {
                shown.push(toast_of(list[i]))
            } else {
                shown
            }
        }),
{
    let (a, b) = (list.take(i), list.take(i + 1));
    let before = log_with_fired(a, log, now);
    let after = log_with_fired(b, log, now);
    let id = list[i].id;
    assert(b.drop_last() =~= a);
    assert(b.take(i) =~= a);
    assert forall|x: Seq<char>|
        id_fires(b, x, now) <==> id_fires(a, x, now) || (x == id && list[i].fires(now)) by {
        if id_fires(a, x, now) {
            let j = choose|j: int| 0 <= j < a.len() && #[trigger] a[j].id == x && a[j].fires(now);
            assert(b[j].id == x);
        }
        if x == id && list[i].fires(now) {
            assert(b[i].id == x);
        }
        if id_fires(b, x, now) {
            let j = choose|j: int| 0 <= j < b.len() && #[trigger] b[j].id == x && b[j].fires(now);
            if j < i {
                assert(a[j].id == x);
            }
        }
    }
    if list[i].fires(now) && !was_sent_in(before, id, slot_of(now)) {
        assert(after =~= before.insert(id, slot_of(now)));
    } else {
        assert(after =~= before);
    }
}

proof fn lemma_entry_removed(entries: Seq<LogEntry>, i: int)
    requires
        has_distinct_ids(entries),
        0 <= i < entries.len(),
    ensures
        has_distinct_ids(entries.remove(i)),
        entries_map(entries.remove(i)) == entries_map(entries).remove(entries[i].id@),
{
    let after = entries.remove(i);
    let (m0, m1) = (entries_map(entries).remove(entries[i].id@), entries_map(after));
    assert forall|id: Seq<char>| m0.contains_key(id) implies #[trigger] m1.contains_key(id)
        && m1[id] == m0[id] by {
        let j = choose|j: int| is_entry_of(entries, id, j);
        lemma_entry(entries, j);
        lemma_entry(after, if j < i { j } else { j - 1 });
    }
    assert forall|id: Seq<char>| #[trigger] m1.contains_key(id) implies m0.contains_key(id) by {
        let j = choose|j: int| is_entry_of(after, id, j);
        lemma_entry(entries, if j < i { j } else { j + 1 });
    }
    assert(m1 =~= m0);
}

proof fn lemma_entry(entries: Seq<LogEntry>, i: int)
    requires
        has_distinct_ids(entries),
        0 <= i < entries.len(),
    ensures
        entries_map(entries).contains_key(entries[i].id@),
        entries_map(entries)[entries[i].id@] == entries[i].slot,
{
    assert(is_entry_of(entries, entries[i].id@, i));
}

proof fn lemma_entries_updated(entries: Seq<LogEntry>, i: int, entry: LogEntry)
    requires
        has_distinct_ids(entries),
        0 <= i < entries.len(),
        entries[i].id@ == entry.id@,
    ensures
        has_distinct_ids(entries.update(i, entry)),
        entries_map(entries.update(i, entry)) == entries_map(entries).insert(entry.id@, entry.slot),
{
    let after = entries.update(i, entry);
    let (m0, m1) = (entries_map(entries), entries_map(after));
    let wanted = m0.insert(entry.id@, entry.slot);
    assert forall|id: Seq<char>| wanted.contains_key(id) implies #[trigger] m1.contains_key(id)
        && m1[id] == wanted[id] by {
        if id == entry.id@ {
            lemma_entry(after, i);
        } else {
            let j = choose|j: int| is_entry_of(entries, id, j);
            lemma_entry(entries, j);
            lemma_entry(after, j);
        }
    }
    assert forall|id: Seq<char>| #[trigger] m1.contains_key(id) implies wanted.contains_key(id) by {
        let j = choose|j: int| is_entry_of(after, id, j);
        lemma_entry(entries, j);
    }
    assert(m1 =~= wanted);
}

proof fn lemma_entries_pushed(entries: Seq<LogEntry>, entry: LogEntry)
    requires
        has_distinct_ids(entries),
        !entries_map(entries).contains_key(entry.id@),
    ensures
        has_distinct_ids(entries.push(entry)),
        entries_map(entries.push(entry)) == entries_map(entries).insert(entry.id@, entry.slot),
{
    let after = entries.push(entry);
    let (m0, m1) = (entries_map(entries), entries_map(after));
    let wanted = m0.insert(entry.id@, entry.slot);
    assert forall|j: int| 0 <= j < entries.len() implies entries[j].id@ != entry.id@ by {
        lemma_entry(entries, j);
    }
    assert forall|id: Seq<char>| wanted.contains_key(id) implies #[trigger] m1.contains_key(id)
        && m1[id] == wanted[id] by {
        if id == entry.id@ {
            lemma_entry(after, entries.len() as int);
        } else {
            let j = choose|j: int| is_entry_of(entries, id, j);
            lemma_entry(entries, j);
            lemma_entry(after, j);
        }
    }
    assert forall|id: Seq<char>| #[trigger] m1.contains_key(id) implies wanted.contains_key(id) by {
        let j = choose|j: int| is_entry_of(after, id, j);
        if j < entries.len() {
            lemma_entry(entries, j);
        }
    }
    assert(m1 =~= wanted);
}

/// A poll sends at most one toast per id.
pub proof fn lemma_one_toast_per_id(
    list: Seq<Schedule>,
    log: Map<Seq<char>, Slot>,
    now: Moment,
    i: int,
    j: int,
)
    requires
        0 <= i < list.len(),
        0 <= j < list.len(),
        is_due(list, log, now, i),
        is_due(list, log, now, j),
        list[i].id == list[j].id,
    ensures
        i == j,
{
    if i < j {
        assert(list.take(j)[i].id == list[j].id);
    } else if j < i {
        assert(list.take(i)[j].id == list[i].id);
    }
}

/// A notification that fires, and whose id was not already sent in this minute, is
/// sent by the poll, itself or through the first of its id that fires.
pub proof fn lemma_what_fires_is_sent(
    list: Seq<Schedule>,
    log: Map<Seq<char>, Slot>,
    now: Moment,
    i: int,
) -> (first: int)
    requires
        0 <= i < list.len(),
        list[i].fires(now),
        !was_sent_in(log, list[i].id, slot_of(now)),
    ensures
        0 <= first <= i,
        list[first].id == list[i].id,
        is_due(list, log, now, first),
    decreases i,
{
    if id_fires(list.take(i), list[i].id, now) {
        let earlier = list.take(i);
        let j = choose|j: int|
            0 <= j < earlier.len() && #[trigger] earlier[j].id == list[i].id && earlier[j].fires(
                now,
            );
        lemma_what_fires_is_sent(list, log, now, j)
    } else {
        i
    }
}

/// A poll shows the toast of each notification that is due, and nothing else.
pub proof fn lemma_toasts_are_those_due(
    list: Seq<Schedule>,
    log: Map<Seq<char>, Slot>,
    now: Moment,
    toast: ToastText,
)
    ensures
        due_toasts(list, log, now).contains(toast) <==> exists|i: int|
            0 <= i < list.len() && #[trigger] is_due(list, log, now, i) && toast == toast_of(
                list[i],
            ),
    decreases list.len(),
{
    if list.len() > 0 {
        let shorter = list.drop_last();
        let last = list.len() - 1;
        let (earlier, toasts) = (due_toasts(shorter, log, now), due_toasts(list, log, now));
        lemma_toasts_are_those_due(shorter, log, now, toast);
        assert forall|i: int| 0 <= i < shorter.len() implies is_due(shorter, log, now, i)
            == #[trigger] is_due(list, log, now, i) by {
            assert(shorter.take(i) =~= list.take(i));
        }
        if earlier.contains(toast) {
            let k = choose|k: int| 0 <= k < earlier.len() && earlier[k] == toast;
            assert(toasts[k] == toast);
            let i = choose|i: int|
                0 <= i < shorter.len() && #[trigger] is_due(shorter, log, now, i) && toast
                    == toast_of(shorter[i]);
            assert(is_due(list, log, now, i));
        }
        if is_due(list, log, now, last) {
            assert(toasts[toasts.len() - 1] == toast_of(list[last]));
        }
        if toasts.contains(toast) && !earlier.contains(toast) {
            assert(is_due(list, log, now, last));
        }
        if exists|i: int|
            0 <= i < list.len() && #[trigger] is_due(list, log, now, i) && toast == toast_of(
                list[i],
            ) {
            let i = choose|i: int|
                0 <= i < list.len() && #[trigger] is_due(list, log, now, i) && toast == toast_of(
                    list[i],
                );
            if i < last {
                assert(is_due(shorter, log, now, i));
                assert(toast == toast_of(shorter[i]));
            }
        }
    }
}

/// Once an id was sent, a later poll in the same minute does not send it again,
/// however the list was edited in between.
pub proof fn lemma_not_sent_again_in_the_same_minute(
    list: Seq<Schedule>,
    log: Map<Seq<char>, Slot>,
    now: Moment,
    i: int,
    later_list: Seq<Schedule>,
    later: Moment,
    j: int,
)
    requires
        0 <= i < list.len(),
        list[i].fires(now),
        0 <= j < later_list.len(),
        later_list[j].id == list[i].id,
        slot_of(later) == slot_of(now),
    ensures
        !is_due(later_list, log_after(list, log, now), later, j),
{
    assert(id_fires(list, list[i].id, now));
    assert(listed_ids(list).contains(list[i].id));
}

/// An id that was sent in one minute is sent again in another one, when it fires then: itself or
/// through the first of its id that fires.
pub proof fn lemma_sent_again_in_another_minute(
    list: Seq<Schedule>,
    log: Map<Seq<char>, Slot>,
    now: Moment,
    later: Moment,
    i: int,
)
    requires
        0 <= i < list.len(),
        list[i].fires(later),
        was_sent_in(log, list[i].id, slot_of(now)),
        slot_of(later) != slot_of(now),
    ensures
        exists|j: int|
            0 <= j <= i && list[j].id == list[i].id && #[trigger] is_due(list, log, later, j),
{
    let first = lemma_what_fires_is_sent(list, log, later, i);
    assert(is_due(list, log, later, first));
}

/// By the clock, the log tells minutes apart: two readings at the same offset lie in the same
/// slot exactly when the local minute is the same.
pub proof fn lemma_slots_are_local_minutes(
    now: Moment,
    later: Moment,
    poll: int,
    next: int,
    offset_seconds: int,
)
    requires
        now.is_at(poll, offset_seconds),
        later.is_at(next, offset_seconds),
    ensures
        slot_of(now) == slot_of(later) <==> (poll + offset_seconds) / 60 == (next + offset_seconds)
            / 60,
{
    calendar::lemma_reading_tells_the_minute(now, poll, offset_seconds);
    calendar::lemma_reading_tells_the_minute(later, next, offset_seconds);
    if (poll + offset_seconds) / 60 == (next + offset_seconds) / 60 {
        calendar::lemma_readings_last_a_minute(now, later, poll, next, offset_seconds);
    }
}

/// With an unchanged list, every further poll in the same minute sends nothing and leaves the
/// log as it is.
pub proof fn lemma_further_polls_are_silent(
    list: Seq<Schedule>,
    log: Map<Seq<char>, Slot>,
    now: Moment,
)
    ensures
        due_toasts(list, log_after(list, log, now), now) == Seq::<ToastText>::empty(),
        log_after(list, log_after(list, log, now), now) == log_after(list, log, now),
{
    let after = log_after(list, log, now);
    assert forall|i: int| 0 <= i < list.len() implies !#[trigger] is_due(list, after, now, i) by {
        if list[i].fires(now) {
            lemma_not_sent_again_in_the_same_minute(list, log, now, i, list, now, i);
        }
    }
    let toasts = due_toasts(list, after, now);
    if toasts.len() > 0 {
        assert(toasts.contains(toasts[0]));
        lemma_toasts_are_those_due(list, after, now, toasts[0]);
    }
    assert(toasts =~= Seq::<ToastText>::empty());
    assert forall|id: Seq<char>| id_fires(list, id, now) implies is_listed(list, id) by {
        let i = choose|i: int|
            0 <= i < list.len() && #[trigger] list[i].id == id && list[i].fires(now);
        assert(list[i].id == id);
    }
    assert(log_after(list, after, now) =~= after);
}

/// Of several polls in the same local minute, with an unchanged list, only the first sends
/// anything.
pub proof fn lemma_second_poll_of_a_minute_is_silent(
    list: Seq<Schedule>,
    log: Map<Seq<char>, Slot>,
    now: Moment,
    later: Moment,
    poll: int,
    next: int,
    offset_seconds: int,
)
    requires
        now.is_at(poll, offset_seconds),
        later.is_at(next, offset_seconds),
        (poll + offset_seconds) / 60 == (next + offset_seconds) / 60,
    ensures
        due_toasts(list, log_after(list, log, now), later) == Seq::<ToastText>::empty(),
        log_after(list, log_after(list, log, now), later) == log_after(list, log, now),
{
    calendar::lemma_readings_last_a_minute(now, later, poll, next, offset_seconds);
    lemma_further_polls_are_silent(list, log, now);
}

/// After a poll the log knows listed ids only: a notification that was deleted is forgotten, and
/// one that did not fire keeps the minute in which it was last sent.
pub proof fn lemma_log_follows_the_list(
    list: Seq<Schedule>,
    log: Map<Seq<char>, Slot>,
    now: Moment,
    id: Seq<char>,
)
    ensures
        !is_listed(list, id) ==> !log_after(list, log, now).contains_key(id),
        is_listed(list, id) && !id_fires(list, id, now) ==> log_after(list, log, now).get(id)
            == log.get(id),
{
}

/// One of a series of polls: the list at that time, and when it was.
#[verifier::ext_equal]
pub struct Poll {
    pub list: Seq<Schedule>,
    pub now: Moment,
}

/// The log after a series of polls, one after the other.
pub open spec fn log_after_all(log: Map<Seq<char>, Slot>, polls: Seq<Poll>) -> Map<Seq<char>, Slot>
    decreases polls.len(),
{
    if polls.len() == 0 {
        log
    } else {
        log_after(
            polls.last().list,
            log_after_all(log, polls.drop_last()),
            polls.last().now,
        )
    }
}

/// Whether a poll finds that `id` fires, in the given minute.
pub open spec fn fires_in(poll: Poll, id: Seq<char>, slot: Slot) -> bool {
    id_fires(poll.list, id, poll.now) && slot_of(poll.now) == slot
}

/// Whether one of the polls was made in the given minute.
pub open spec fn is_polled_in(polls: Seq<Poll>, slot: Slot) -> bool {
    exists|k: int| 0 <= k < polls.len() && slot_of(#[trigger] polls[k].now) == slot
}

/// After any series of polls, the minute that the log holds for an id is that of a poll in which
/// the id fired, or it was there at the start.
pub proof fn lemma_logged_minutes_were_polled(
    log: Map<Seq<char>, Slot>,
    polls: Seq<Poll>,
    id: Seq<char>,
    slot: Slot,
)
    requires
        was_sent_in(log_after_all(log, polls), id, slot),
    ensures
        was_sent_in(log, id, slot) || exists|k: int|
            0 <= k < polls.len() && fires_in(#[trigger] polls[k], id, slot),
    decreases polls.len(),
{
    if polls.len() > 0 {
        let last = polls.len() - 1;
        let earlier = polls.drop_last();
        if id_fires(polls[last].list, id, polls[last].now) {
            assert(fires_in(polls[last], id, slot));
        } else {
            lemma_logged_minutes_were_polled(log, earlier, id, slot);
            if !was_sent_in(log, id, slot) {
                let k = choose|k: int|
                    0 <= k < earlier.len() && fires_in(#[trigger] earlier[k], id, slot);
                assert(fires_in(polls[k], id, slot));
            }
        }
    }
}

/// The first poll of a minute sends what fires, whatever polls came before: a notification that
/// fires is sent, itself or through the first of its id that fires.
pub proof fn lemma_first_poll_of_a_minute_sends(
    log: Map<Seq<char>, Slot>,
    polls: Seq<Poll>,
    list: Seq<Schedule>,
    now: Moment,
    i: int,
)
    requires
        0 <= i < list.len(),
        list[i].fires(now),
        !is_polled_in(polls, slot_of(now)),
        !was_sent_in(log, list[i].id, slot_of(now)),
    ensures
        exists|j: int|
            0 <= j <= i && list[j].id == list[i].id && #[trigger] is_due(
                list,
                log_after_all(log, polls),
                now,
                j,
            ),
{
    let (id, slot) = (list[i].id, slot_of(now));
    let after = log_after_all(log, polls);
    if was_sent_in(after, id, slot) {
        lemma_logged_minutes_were_polled(log, polls, id, slot);
        let k = choose|k: int| 0 <= k < polls.len() && fires_in(#[trigger] polls[k], id, slot);
        assert(slot_of(polls[k].now) == slot);
    }
    let first = lemma_what_fires_is_sent(list, after, now, i);
    assert(is_due(list, after, now, first));
}

/// A notification comes back every week: one that fires at `now` fires again a whole number of
/// weeks later, as long as that day is in its period of validity, and the first poll of that
/// minute sends it, itself or through the first of its id that fires, however many polls came
/// in between.
pub proof fn lemma_comes_back_every_week(
    log: Map<Seq<char>, Slot>,
    polls: Seq<Poll>,
    list: Seq<Schedule>,
    now: Moment,
    later: Moment,
    poll: int,
    weeks: int,
    offset_seconds: int,
    i: int,
)
    requires
        0 <= i < list.len(),
        list[i].fires(now),
        now.is_at(poll, offset_seconds),
        weeks > 0,
        later.is_at(poll + 604800 * weeks, offset_seconds),
        list[i].is_valid_on(later.date()),
        !is_polled_in(polls, slot_of(later)),
        !was_sent_in(log, list[i].id, slot_of(later)),
    ensures
        slot_of(later) != slot_of(now),
        list[i].fires(later),
        exists|j: int|
            0 <= j <= i && list[j].id == list[i].id && #[trigger] is_due(
                list,
                log_after_all(log, polls),
                later,
                j,
            ),
{
    let next = poll + 604800 * weeks;
    calendar::lemma_weeks_later(now, later, poll, weeks, offset_seconds);
    lemma_slots_are_local_minutes(now, later, poll, next, offset_seconds);
    assert((next + offset_seconds) / 60 == (poll + offset_seconds) / 60 + 10080 * weeks);
    lemma_first_poll_of_a_minute_sends(log, polls, list, later, i);
}

/// Once poll `k` has found that an id fires, the log holds its minute as long as the id stays
/// listed and fires in no other minute.
pub proof fn lemma_sent_minute_is_kept(
    log: Map<Seq<char>, Slot>,
    polls: Seq<Poll>,
    k: int,
    id: Seq<char>,
)
    requires
        0 <= k < polls.len(),
        id_fires(polls[k].list, id, polls[k].now),
        forall|m: int| k < m < polls.len() ==> is_listed(#[trigger] polls[m].list, id),
        forall|m: int|
            k < m < polls.len() && id_fires(#[trigger] polls[m].list, id, polls[m].now)
                ==> slot_of(polls[m].now) == slot_of(polls[k].now),
    ensures
        was_sent_in(log_after_all(log, polls), id, slot_of(polls[k].now)),
    decreases polls.len(),
{
    let last = polls.len() - 1;
    let earlier = polls.drop_last();
    if k < last {
        assert forall|m: int| k < m < earlier.len() implies is_listed(
            #[trigger] earlier[m].list,
            id,
        ) by {
            assert(is_listed(polls[m].list, id));
        }
        assert forall|m: int|
            k < m < earlier.len() && id_fires(#[trigger] earlier[m].list, id, earlier[m].now)
                implies slot_of(earlier[m].now) == slot_of(earlier[k].now) by {
            assert(id_fires(polls[m].list, id, polls[m].now));
        }
        lemma_sent_minute_is_kept(log, earlier, k, id);
        assert(is_listed(polls[last].list, id));
    } else {
        let i = choose|i: int|
            0 <= i < polls[k].list.len() && #[trigger] polls[k].list[i].id == id
                && polls[k].list[i].fires(polls[k].now);
        assert(polls[k].list[i].id == id);
        assert(is_listed(polls[k].list, id));
    }
    assert(listed_ids(polls[last].list).contains(id));
}

/// An id that was sent and stays listed in every poll since is not sent again in that minute,
/// however the list is edited and however many polls follow.
pub proof fn lemma_sent_once_in_a_minute(
    log: Map<Seq<char>, Slot>,
    polls: Seq<Poll>,
    k: int,
    list: Seq<Schedule>,
    later: Moment,
    j: int,
)
    requires
        0 <= k < polls.len(),
        0 <= j < list.len(),
        id_fires(polls[k].list, list[j].id, polls[k].now),
        forall|m: int| k < m < polls.len() ==> is_listed(#[trigger] polls[m].list, list[j].id),
        forall|m: int|
            k < m < polls.len() && id_fires(#[trigger] polls[m].list, list[j].id, polls[m].now)
                ==> slot_of(polls[m].now) == slot_of(polls[k].now),
        slot_of(later) == slot_of(polls[k].now),
    ensures
        !is_due(list, log_after_all(log, polls), later, j),
{
    lemma_sent_minute_is_kept(log, polls, k, list[j].id);
}

/// By the clock: while time does not run backwards and the offset stays the same, an id that was
/// sent and stays listed is not sent again in the same local minute. `times` holds the instants
/// of the polls, and `next` that of the poll that follows them.
pub proof fn lemma_sent_once_in_a_minute_by_the_clock(
    log: Map<Seq<char>, Slot>,
    polls: Seq<Poll>,
    times: Seq<int>,
    k: int,
    list: Seq<Schedule>,
    later: Moment,
    next: int,
    offset_seconds: int,
    j: int,
)
    requires
        times.len() == polls.len(),
        forall|m: int|
            0 <= m < polls.len() ==> (#[trigger] polls[m]).now.is_at(times[m], offset_seconds),
        forall|a: int, b: int| 0 <= a <= b < times.len() ==> times[a] <= times[b],
        forall|m: int| 0 <= m < times.len() ==> #[trigger] times[m] <= next,
        later.is_at(next, offset_seconds),
        0 <= k < polls.len(),
        (times[k] + offset_seconds) / 60 == (next + offset_seconds) / 60,
        0 <= j < list.len(),
        id_fires(polls[k].list, list[j].id, polls[k].now),
        forall|m: int| k < m < polls.len() ==> is_listed(#[trigger] polls[m].list, list[j].id),
    ensures
        !is_due(list, log_after_all(log, polls), later, j),
{
    assert(polls[k].now.is_at(times[k], offset_seconds));
    lemma_slots_are_local_minutes(polls[k].now, later, times[k], next, offset_seconds);
    assert forall|m: int|
        k < m < polls.len() && id_fires(#[trigger] polls[m].list, list[j].id, polls[m].now)
            implies slot_of(polls[m].now) == slot_of(polls[k].now) by {
        assert(polls[m].now.is_at(times[m], offset_seconds));
        assert(times[k] <= times[m] <= next);
        lemma_slots_are_local_minutes(
            polls[k].now,
            polls[m].now,
            times[k],
            times[m],
            offset_seconds,
        );
    }
    lemma_sent_once_in_a_minute(log, polls, k, list, later, j);
}

/// No minute is skipped: from one poll to the next, even when it comes a whole interval late, the
/// local clock has moved on by one minute at most.
pub proof fn lemma_no_minute_is_skipped(poll: int, next: int, offset_seconds: int)
    requires
        poll <= next <= poll + 2 * POLL_INTERVAL_SECONDS,
    ensures
        (poll + offset_seconds) / 60 <= (next + offset_seconds) / 60 <= (poll + offset_seconds) / 60
            + 1,
{
}

/// The toast of a notification shows its label as title and its message as body, whatever its
/// other fields are.
pub proof fn lemma_toast_shows_label_and_message(s: Schedule)
    ensures
        toast_of(s).title == s.label,
        toast_of(s).body == s.message,
{
}

/// A notification is due exactly when it fires, the log does not hold this minute for its id, and
/// none before it in the list has its id and fires.
pub proof fn lemma_when_a_notification_is_due(
    list: Seq<Schedule>,
    log: Map<Seq<char>, Slot>,
    now: Moment,
    i: int,
)
    requires
        0 <= i < list.len(),
    ensures
        is_due(list, log, now, i) <==> {
            &&& list[i].fires(now)
            &&& !(log.contains_key(list[i].id) && log[list[i].id] == slot_of(now))
            &&& forall|j: int|
                0 <= j < i && #[trigger] list[j].id == list[i].id ==> !list[j].fires(now)
        },
{
    let earlier = list.take(i);
    if exists|j: int| 0 <= j < i && #[trigger] list[j].id == list[i].id && list[j].fires(now) {
        let j = choose|j: int|
            0 <= j < i && #[trigger] list[j].id == list[i].id && list[j].fires(now);
        assert(earlier[j].id == list[i].id);
    }
    if id_fires(earlier, list[i].id, now) {
        let j = choose|j: int|
            0 <= j < earlier.len() && #[trigger] earlier[j].id == list[i].id && earlier[j].fires(
                now,
            );
        assert(list[j].id == list[i].id);
    }
}

/// The minute of a moment is its date, hour and minute, and nothing else.
pub proof fn lemma_slot_is_date_and_time(a: Moment, b: Moment)
    ensures
        slot_of(a).year == a.year,
        slot_of(a).month == a.month,
        slot_of(a).day == a.day,
        slot_of(a).hour == a.hour,
        slot_of(a).minute == a.minute,
        slot_of(a) == slot_of(b) <==> a.year == b.year && a.month == b.month && a.day == b.day
            && a.hour == b.hour && a.minute == b.minute,
{
}

/// After a poll, the log holds for an id this minute if a listed notification of that id fires,
/// what it held before if one is listed but none fires, and nothing if none is listed.
pub proof fn lemma_log_after_a_poll(
    list: Seq<Schedule>,
    log: Map<Seq<char>, Slot>,
    now: Moment,
    id: Seq<char>,
)
    ensures
        (exists|i: int| 0 <= i < list.len() && #[trigger] list[i].id == id && list[i].fires(now))
            ==> log_after(list, log, now).contains_key(id) && log_after(list, log, now)[id]
            == slot_of(now),
        (exists|i: int| 0 <= i < list.len() && #[trigger] list[i].id == id) && (forall|i: int|
            0 <= i < list.len() && #[trigger] list[i].id == id ==> !list[i].fires(now)) ==> {
            &&& log_after(list, log, now).contains_key(id) <==> log.contains_key(id)
            &&& log.contains_key(id) ==> log_after(list, log, now)[id] == log[id]
        },
        (forall|i: int| 0 <= i < list.len() ==> #[trigger] list[i].id != id) ==> !log_after(
            list,
            log,
            now,
        ).contains_key(id),
{
    if exists|i: int| 0 <= i < list.len() && #[trigger] list[i].id == id && list[i].fires(now) {
        assert(id_fires(list, id, now));
        let i = choose|i: int|
            0 <= i < list.len() && #[trigger] list[i].id == id && list[i].fires(now);
        assert(list[i].id == id);
        assert(is_listed(list, id));
    }
    assert(listed_ids(list).contains(id) <==> is_listed(list, id));
}

/// The toasts of a poll are those of the notifications that are due, one for each and in the order
/// of the list, with its label as title and its message as body.
pub proof fn lemma_one_toast_for_each_due(
    list: Seq<Schedule>,
    log: Map<Seq<char>, Slot>,
    now: Moment,
) -> (indices: Seq<int>)
    ensures
        forall|a: int, b: int| 0 <= a < b < indices.len() ==> indices[a] < indices[b],
        forall|a: int|
            0 <= a < indices.len() ==> 0 <= #[trigger] indices[a] < list.len() && is_due(
                list,
                log,
                now,
                indices[a],
            ),
        forall|i: int|
            0 <= i < list.len() && #[trigger] is_due(list, log, now, i) ==> indices.contains(i),
        due_toasts(list, log, now).len() == indices.len(),
        forall|a: int|
            0 <= a < indices.len() ==> (#[trigger] due_toasts(list, log, now)[a]).title
                == list[indices[a]].label && due_toasts(list, log, now)[a].body
                == list[indices[a]].message,
    decreases list.len(),
{
    if list.len() == 0 {
        Seq::empty()
    } else {
        let shorter = list.drop_last();
        let last = list.len() - 1;
        let before = lemma_one_toast_for_each_due(shorter, log, now);
        assert forall|i: int| 0 <= i < shorter.len() implies is_due(shorter, log, now, i)
            == #[trigger] is_due(list, log, now, i) by {
            assert(shorter.take(i) =~= list.take(i));
        }
        let earlier = due_toasts(shorter, log, now);
        let all = due_toasts(list, log, now);
        let indices = if is_due(list, log, now, last) {
            before.push(last)
        } else {
            before
        };
        assert forall|i: int|
            0 <= i < list.len() && #[trigger] is_due(list, log, now, i) implies indices.contains(
            i,
        ) by {
            if i < last {
                assert(is_due(shorter, log, now, i));
                let a = choose|a: int| 0 <= a < before.len() && before[a] == i;
                assert(indices[a] == i);
            } else {
                assert(indices[indices.len() - 1] == i);
            }
        }
        assert forall|a: int|
            0 <= a < indices.len() implies 0 <= #[trigger] indices[a] < list.len() && is_due(
            list,
            log,
            now,
            indices[a],
        ) by {
            if a < before.len() {
                assert(indices[a] == before[a]);
                assert(is_due(shorter, log, now, before[a]));
            }
        }
        assert forall|a: int| 0 <= a < indices.len() implies (#[trigger] all[a]).title
            == list[indices[a]].label && all[a].body == list[indices[a]].message by {
            if a < before.len() {
                assert(all[a] == earlier[a]);
                assert(list[before[a]] == shorter[before[a]]);
            }
        }
        indices
    }
}

/// Each toast shows the label and the message of a notification that is due, in order.
proof fn lemma_toasts_come_from_the_list(
    list: Seq<CustomNotification>,
    toasts: Seq<Toast>,
    log: Map<Seq<char>, Slot>,
    now: Moment,
) -> (indices: Seq<int>)
    requires
        toast::toast_texts(toasts) == due_toasts(notification::schedules(list), log, now),
    ensures
        indices.len() == toasts.len(),
        forall|a: int, b: int| 0 <= a < b < indices.len() ==> indices[a] < indices[b],
        forall|k: int|
            0 <= k < toasts.len() ==> {
                &&& 0 <= #[trigger] indices[k] < list.len()
                &&& list[indices[k]]@.fires(now)
                &&& toasts[k].title@ == list[indices[k]].label@
                &&& toasts[k].body@ == list[indices[k]].message@
            },
{
    let all = notification::schedules(list);
    let texts = toast::toast_texts(toasts);
    notification::lemma_schedules_hold_the_list(list);
    toast::lemma_toast_texts_hold_every_field(toasts);
    let indices = lemma_one_toast_for_each_due(all, log, now);
    assert forall|k: int| 0 <= k < toasts.len() implies {
        &&& 0 <= #[trigger] indices[k] < list.len()
        &&& list[indices[k]]@.fires(now)
        &&& toasts[k].title@ == list[indices[k]].label@
        &&& toasts[k].body@ == list[indices[k]].message@
    } by {
        assert(texts[k].title == all[indices[k]].label);
        assert(all[indices[k]] == list[indices[k]]@);
    }
    indices
}

/// Label and message decide what a toast shows, never whether it is shown: editing them changes
/// neither which notifications are due nor the log.
pub proof fn lemma_texts_do_not_decide(
    list: Seq<Schedule>,
    log: Map<Seq<char>, Slot>,
    now: Moment,
    i: int,
    label: Seq<char>,
    message: Seq<char>,
)
    requires
        0 <= i < list.len(),
    ensures
        ({
            let edited = list.update(i, Schedule { label, message, ..list[i] });
            &&& forall|k: int|
                0 <= k < list.len() ==> is_due(list, log, now, k) == #[trigger] is_due(
                    edited,
                    log,
                    now,
                    k,
                )
            &&& log_after(list, log, now) == log_after(edited, log, now)
        }),
{
    let edited = list.update(i, Schedule { label, message, ..list[i] });
    assert forall|k: int| 0 <= k < list.len() implies is_due(list, log, now, k)
        == #[trigger] is_due(edited, log, now, k) by {
        lemma_when_a_notification_is_due(list, log, now, k);
        lemma_when_a_notification_is_due(edited, log, now, k);
        assert(forall|j: int| 0 <= j < list.len() ==> #[trigger] list[j].id == edited[j].id);
        assert(forall|j: int| 0 <= j < list.len() ==> list[j].id == #[trigger] edited[j].id);
        assert(forall|j: int|
            0 <= j < list.len() ==> (#[trigger] list[j]).fires(now) == edited[j].fires(now));
    }
    assert forall|id: Seq<char>| id_fires(list, id, now) == id_fires(edited, id, now) by {
        assert(forall|k: int| 0 <= k < list.len() ==> #[trigger] list[k].id == edited[k].id);
        assert(forall|k: int|
            0 <= k < list.len() ==> (#[trigger] list[k]).fires(now) == edited[k].fires(now));
        if id_fires(list, id, now) {
            let k = choose|k: int|
                0 <= k < list.len() && #[trigger] list[k].id == id && list[k].fires(now);
            assert(edited[k].id == id);
        }
        if id_fires(edited, id, now) {
            let k = choose|k: int|
                0 <= k < edited.len() && #[trigger] edited[k].id == id && edited[k].fires(now);
            assert(list[k].id == id);
        }
    }
    assert forall|id: Seq<char>| is_listed(list, id) == is_listed(edited, id) by {
        if is_listed(list, id) {
            let k = choose|k: int| 0 <= k < list.len() && #[trigger] list[k].id == id;
            assert(edited[k].id == id);
        }
        if is_listed(edited, id) {
            let k = choose|k: int| 0 <= k < edited.len() && #[trigger] edited[k].id == id;
            assert(list[k].id == id);
        }
    }
    assert(log_after(list, log, now) =~= log_after(edited, log, now));
}

/// Polls follow one another: each starts from the log that those before it have left.
pub proof fn lemma_polls_follow_one_another(
    log: Map<Seq<char>, Slot>,
    polls: Seq<Poll>,
    poll: Poll,
)
    ensures
        log_after_all(log, Seq::empty()) == log,
        log_after_all(log, polls.push(poll)) == log_after(
            poll.list,
            log_after_all(log, polls),
            poll.now,
        ),
{
    assert(polls.push(poll).drop_last() =~= polls);
}

/// There are two polls in a minute.
pub proof fn lemma_two_polls_a_minute()
    ensures
        POLL_INTERVAL_SECONDS * 2 == 60,
{
}

}
