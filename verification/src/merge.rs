//! Merging the timetables of a route into one record: departures grouped
//! by kind of day, hour and direction, and remarks numbered.

use crate::names::{
    copy_texts, find_text, index_of_text, lemma_index_of_text, optional_view, texts_view,
};
use crate::text::{
    after_char, before_char, chars_equal, chars_of, decimal, find_char, pad_left, padded_left,
    position_of, push_decimal, push_str, slice_chars,
};
use crate::unicode::string_from_chars;
use crate::timetable::{
    departures_view, Departure, DirectionTimes, ParsedSchedule, RouteEntry, TimeEntry,
};
use vstd::prelude::*;

verus! {

/// Whether a time of day is written with exactly one colon.
pub open spec fn has_one_colon(time: Seq<char>) -> bool {
    find_char(time, ':', 0) < time.len() && find_char(time, ':', find_char(time, ':', 0) + 1)
        == time.len()
}

/// The hour of a time of day: what stands before the colon, in at least
/// two characters, zeros in front where it has fewer.
pub open spec fn hour_of(time: Seq<char>) -> Seq<char> {
    padded_left(before_char(time, ':'), 2, '0')
}

/// The minute of a time of day: what stands behind the colon, in at least
/// two characters, zeros in front where it has fewer.
pub open spec fn minute_of(time: Seq<char>) -> Seq<char> {
    padded_left(after_char(time, ':'), 2, '0')
}

/// Splits a time of day into hour and minute; `None` unless it is written
/// with exactly one colon.
pub fn split_time(time: &str) -> (r: Option<(String, String)>)
    ensures
        r is Some <==> has_one_colon(time@),
        r matches Some(parts) ==> parts.0@ == hour_of(time@) && parts.1@ == minute_of(time@),
{
    let chars = chars_of(time);
    let first = position_of(&chars, ':', 0);
    if first >= chars.len() {
        return None;
    }
    let second = position_of(&chars, ':', first + 1);
    if second < chars.len() {
        return None;
    }
    let hour = slice_chars(&chars, 0, first);
    let minute = slice_chars(&chars, first + 1, chars.len());
    assert(chars@.subrange(0, first as int) =~= before_char(time@, ':'));
    assert(chars@.subrange(first + 1, chars.len() as int) =~= after_char(time@, ':'));
    Some(
        (
            string_from_chars(&pad_left(&hour, 2, '0')),
            string_from_chars(&pad_left(&minute, 2, '0')),
        ),
    )
}

/// `texts` with `text` at its end, unless it holds `text` already.
pub open spec fn with_text(texts: Seq<Seq<char>>, text: Seq<char>) -> Seq<Seq<char>> {
    if texts.contains(text) {
        texts
    } else {
        texts.push(text)
    }
}

/// The number under which the remark `text` is kept in `notes`, written in
/// decimal: remarks are numbered from 1 in the order in which they came.
pub open spec fn note_id_of(notes: Seq<Seq<char>>, text: Seq<char>) -> Seq<char> {
    decimal((index_of_text(notes, text) + 1) as nat)
}

/// Puts `text` at the end of `texts`, unless it is there already.
pub fn remember_text(texts: &mut Vec<String>, text: &str)
    ensures
        texts_view(final(texts)@) == with_text(texts_view(old(texts)@), text@),
{
    let name = chars_of(text);
    let at = find_text(texts, &name);
    proof {
        lemma_index_of_text(texts_view(texts@), name@);
    }
    if at >= texts.len() {
        texts.push(string_from_chars(&name));
        assert(texts_view(texts@) =~= texts_view(old(texts)@).push(text@));
    }
}

/// The number under which the remark `text` is kept in `notes`.
pub fn note_id(notes: &Vec<String>, text: &str) -> (r: String)
    ensures
        r@ == note_id_of(texts_view(notes@), text@),
{
    let name = chars_of(text);
    let at = find_text(notes, &name);
    let mut out: Vec<char> = Vec::new();
    push_decimal(&mut out, at as u128 + 1);
    assert(out@ =~= note_id_of(texts_view(notes@), text@));
    string_from_chars(&out)
}

/// The minute of one departure.
pub struct Minute {
    pub minute: Seq<char>,
    /// Number of the remark that the departure carries.
    pub note_id: Option<Seq<char>>,
}

/// The minute of one departure, as it is computed.
#[derive(Debug, PartialEq, Eq)]
pub struct MinuteEntry {
    pub minute: String,
    pub note_id: Option<String>,
}

impl View for MinuteEntry {
    type V = Minute;

    open spec fn view(&self) -> Minute {
        Minute { minute: self.minute@, note_id: optional_view(self.note_id) }
    }
}

/// Minutes as they are computed, seen as minutes.
pub open spec fn minutes_view(minutes: Seq<MinuteEntry>) -> Seq<Minute> {
    Seq::new(minutes.len(), |i: int| minutes[i]@)
}

/// The remarks `notes` and then those of `entries`, each once, in the
/// order in which they come.
pub open spec fn notes_with(notes: Seq<Seq<char>>, entries: Seq<Departure>) -> Seq<Seq<char>>
    decreases entries.len(),
{
    if entries.len() == 0 {
        notes
    } else {
        match entries.last().note {
            Some(text) => with_text(notes_with(notes, entries.drop_last()), text),
            None => notes_with(notes, entries.drop_last()),
        }
    }
}

/// The hours at which `entries` depart, each once, in the order in which
/// they come. A departure whose time is not written with one colon has no
/// hour.
pub open spec fn hours_in(entries: Seq<Departure>) -> Seq<Seq<char>>
    decreases entries.len(),
{
    if entries.len() == 0 {
        Seq::empty()
    } else if has_one_colon(entries.last().time) {
        with_text(hours_in(entries.drop_last()), hour_of(entries.last().time))
    } else {
        hours_in(entries.drop_last())
    }
}

/// The minutes of those of `entries` that depart in the hour `hour`, in
/// order, each with the number that its remark has in `notes`.
pub open spec fn minutes_at(entries: Seq<Departure>, hour: Seq<char>, notes: Seq<Seq<char>>) -> Seq<
    Minute,
>
    decreases entries.len(),
{
    if entries.len() == 0 {
        Seq::empty()
    } else if has_one_colon(entries.last().time) && hour_of(entries.last().time) == hour {
        minutes_at(entries.drop_last(), hour, notes).push(
            Minute {
                minute: minute_of(entries.last().time),
                note_id: match entries.last().note {
                    Some(text) => Some(note_id_of(notes, text)),
                    None => None,
                },
            },
        )
    } else {
        minutes_at(entries.drop_last(), hour, notes)
    }
}

/// Puts the remarks of `entries` into `notes`.
pub fn remember_notes(notes: &mut Vec<String>, entries: &Vec<TimeEntry>)
    ensures
        texts_view(final(notes)@) == notes_with(texts_view(old(notes)@), departures_view(entries@)),
{
    let ghost all = departures_view(entries@);
    let mut i: usize = 0;
    assert(all.take(0) =~= Seq::empty());
    while i < entries.len()
        invariant
            i <= entries.len(),
            all == departures_view(entries@),
            texts_view(notes@) == notes_with(texts_view(old(notes)@), all.take(i as int)),
        decreases entries.len() - i,
    {
        proof {
            assert(all.take(i as int + 1).drop_last() =~= all.take(i as int));
            assert(all.take(i as int + 1).last() == entries[i as int]@);
        }
        match &entries[i].note {
            Some(text) => remember_text(notes, text.as_str()),
            None => {},
        }
        i += 1;
    }
    assert(all.take(entries.len() as int) =~= all);
}

/// Lists the hours at which `entries` depart.
pub fn departure_hours(entries: &Vec<TimeEntry>) -> (r: Vec<String>)
    ensures
        texts_view(r@) == hours_in(departures_view(entries@)),
{
    let ghost all = departures_view(entries@);
    let mut hours: Vec<String> = Vec::new();
    let mut i: usize = 0;
    assert(all.take(0) =~= Seq::empty());
    assert(texts_view(hours@) =~= Seq::empty());
    while i < entries.len()
        invariant
            i <= entries.len(),
            all == departures_view(entries@),
            texts_view(hours@) == hours_in(all.take(i as int)),
        decreases entries.len() - i,
    {
        proof {
            assert(all.take(i as int + 1).drop_last() =~= all.take(i as int));
            assert(all.take(i as int + 1).last() == entries[i as int]@);
        }
        match split_time(entries[i].time.as_str()) {
            Some(parts) => remember_text(&mut hours, parts.0.as_str()),
            None => {},
        }
        i += 1;
    }
    assert(all.take(entries.len() as int) =~= all);
    hours
}

/// Collects the minutes of those of `entries` that depart in the hour
/// `hour`.
pub fn minutes_in_hour(entries: &Vec<TimeEntry>, hour: &str, notes: &Vec<String>) -> (r: Vec<
    MinuteEntry,
>)
    ensures
        minutes_view(r@) == minutes_at(departures_view(entries@), hour@, texts_view(notes@)),
{
    let ghost all = departures_view(entries@);
    let wanted = chars_of(hour);
    let mut out: Vec<MinuteEntry> = Vec::new();
    let mut i: usize = 0;
    assert(all.take(0) =~= Seq::empty());
    assert(minutes_view(out@) =~= Seq::empty());
    while i < entries.len()
        invariant
            i <= entries.len(),
            wanted@ == hour@,
            all == departures_view(entries@),
            minutes_view(out@) == minutes_at(all.take(i as int), hour@, texts_view(notes@)),
        decreases entries.len() - i,
    {
        let ghost before = minutes_view(out@);
        proof {
            assert(all.take(i as int + 1).drop_last() =~= all.take(i as int));
            assert(all.take(i as int + 1).last() == entries[i as int]@);
        }
        match split_time(entries[i].time.as_str()) {
            Some(parts) => {
                let this_hour = chars_of(parts.0.as_str());
                if chars_equal(&this_hour, &wanted) {
                    let id = match &entries[i].note {
                        Some(text) => Some(note_id(notes, text.as_str())),
                        None => None,
                    };
                    out.push(MinuteEntry { minute: parts.1, note_id: id });
                    assert(minutes_view(out@) =~= before.push(out[out.len() - 1]@));
                }
            },
            None => {},
        }
        i += 1;
    }
    assert(all.take(entries.len() as int) =~= all);
    out
}

/// The departures of one hour in one direction.
pub struct Slot {
    pub hour: Seq<char>,
    pub direction: Seq<char>,
    pub minutes: Seq<Minute>,
}

/// The departures of one hour in one direction, as they are computed.
#[derive(Debug, PartialEq, Eq)]
pub struct HourSlot {
    pub hour: String,
    pub direction: String,
    pub minutes: Vec<MinuteEntry>,
}

impl View for HourSlot {
    type V = Slot;

    open spec fn view(&self) -> Slot {
        Slot { hour: self.hour@, direction: self.direction@, minutes: minutes_view(self.minutes@) }
    }
}

/// Slots as they are computed, seen as slots.
pub open spec fn slots_view(slots: Seq<HourSlot>) -> Seq<Slot> {
    Seq::new(slots.len(), |i: int| slots[i]@)
}

/// Index of the first of `slots` for `hour` and `direction`; the length of
/// `slots` where there is none.
pub open spec fn slot_index(slots: Seq<Slot>, hour: Seq<char>, direction: Seq<char>) -> int
    decreases slots.len(),
{
    if slots.len() == 0 {
        0
    } else if slot_index(slots.drop_last(), hour, direction) < slots.len() - 1 {
        slot_index(slots.drop_last(), hour, direction)
    } else if slots.last().hour == hour && slots.last().direction == direction {
        slots.len() - 1
    } else {
        slots.len() as int
    }
}

/// `slots` with `slot` in the place of the first slot for the same hour
/// and direction, and at the end where there is none.
pub open spec fn with_slot(slots: Seq<Slot>, slot: Slot) -> Seq<Slot> {
    if slot_index(slots, slot.hour, slot.direction) < slots.len() {
        slots.update(slot_index(slots, slot.hour, slot.direction), slot)
    } else {
        slots.push(slot)
    }
}

/// `slot_index` is at most the length, names a slot for the hour and
/// direction where it is less, and no slot before it is for them.
pub proof fn lemma_slot_index(slots: Seq<Slot>, hour: Seq<char>, direction: Seq<char>)
    ensures
        0 <= slot_index(slots, hour, direction) <= slots.len(),
        slot_index(slots, hour, direction) < slots.len() ==> slots[slot_index(
            slots,
            hour,
            direction,
        )].hour == hour && slots[slot_index(slots, hour, direction)].direction == direction,
        forall|i: int|
            0 <= i < slot_index(slots, hour, direction) ==> !((#[trigger] slots[i]).hour == hour
                && slots[i].direction == direction),
    decreases slots.len(),
{
    if slots.len() > 0 {
        let front = slots.drop_last();
        lemma_slot_index(front, hour, direction);
        let at = slot_index(slots, hour, direction);
        assert forall|i: int| 0 <= i < at implies !((#[trigger] slots[i]).hour == hour
            && slots[i].direction == direction) by {
            if i < front.len() {
                assert(front[i] == slots[i]);
            }
        }
        if at < front.len() {
            assert(front[at] == slots[at]);
        }
    }
}

/// Puts `slot` into `slots`.
pub fn put_slot(slots: &mut Vec<HourSlot>, slot: HourSlot)
    ensures
        slots_view(final(slots)@) == with_slot(slots_view(old(slots)@), slot@),
{
    let ghost all = slots_view(slots@);
    let hour = chars_of(slot.hour.as_str());
    let direction = chars_of(slot.direction.as_str());
    let mut i: usize = 0;
    proof {
        lemma_slot_index(all, slot@.hour, slot@.direction);
    }
    while i < slots.len()
        invariant
            i <= slots.len(),
            slots == old(slots),
            all == slots_view(slots@),
            hour@ == slot@.hour,
            direction@ == slot@.direction,
            0 <= slot_index(all, slot@.hour, slot@.direction) <= all.len(),
            slot_index(all, slot@.hour, slot@.direction) < all.len() ==> all[slot_index(
                all,
                slot@.hour,
                slot@.direction,
            )].hour == slot@.hour && all[slot_index(all, slot@.hour, slot@.direction)].direction
                == slot@.direction,
            forall|k: int|
                0 <= k < slot_index(all, slot@.hour, slot@.direction) ==> !((#[trigger] all[k]).hour
                    == slot@.hour && all[k].direction == slot@.direction),
            forall|k: int|
                0 <= k < i ==> !((#[trigger] all[k]).hour == slot@.hour && all[k].direction
                    == slot@.direction),
        decreases slots.len() - i,
    {
        let h = chars_of(slots[i].hour.as_str());
        let d = chars_of(slots[i].direction.as_str());
        if chars_equal(&h, &hour) && chars_equal(&d, &direction) {
            assert(all[i as int].hour == slot@.hour && all[i as int].direction
                == slot@.direction);
            assert(slot_index(all, slot@.hour, slot@.direction) == i);
            slots.set(i, slot);
            assert(slots_view(slots@) =~= with_slot(all, slot@));
            return ;
        }
        assert(!(all[i as int].hour == slot@.hour && all[i as int].direction
            == slot@.direction));
        i += 1;
    }
    assert(slot_index(all, slot@.hour, slot@.direction) == all.len());
    slots.push(slot);
    assert(slots_view(slots@) =~= with_slot(all, slot@));
}

/// `slots` after the departures `entries` in `direction` were put in, one
/// slot for each of `hours` in order, remarks numbered by `notes`.
pub open spec fn slots_with(
    slots: Seq<Slot>,
    hours: Seq<Seq<char>>,
    direction: Seq<char>,
    entries: Seq<Departure>,
    notes: Seq<Seq<char>>,
) -> Seq<Slot>
    decreases hours.len(),
{
    if hours.len() == 0 {
        slots
    } else {
        with_slot(
            slots_with(slots, hours.drop_last(), direction, entries, notes),
            Slot { hour: hours.last(), direction, minutes: minutes_at(entries, hours.last(), notes) },
        )
    }
}

/// Puts the departures `entries` in `direction` into `slots`, hour by
/// hour, and their remarks into `notes`.
pub fn put_direction(
    slots: &mut Vec<HourSlot>,
    notes: &mut Vec<String>,
    direction: &str,
    entries: &Vec<TimeEntry>,
)
    ensures
        texts_view(final(notes)@) == notes_with(texts_view(old(notes)@), departures_view(entries@)),
        slots_view(final(slots)@) == slots_with(
            slots_view(old(slots)@),
            hours_in(departures_view(entries@)),
            direction@,
            departures_view(entries@),
            texts_view(final(notes)@),
        ),
{
    remember_notes(notes, entries);
    let hours = departure_hours(entries);
    let ghost all = texts_view(hours@);
    let mut k: usize = 0;
    assert(all.take(0) =~= Seq::empty());
    while k < hours.len()
        invariant
            k <= hours.len(),
            all == texts_view(hours@),
            slots_view(slots@) == slots_with(
                slots_view(old(slots)@),
                all.take(k as int),
                direction@,
                departures_view(entries@),
                texts_view(notes@),
            ),
        decreases hours.len() - k,
    {
        proof {
            assert(all.take(k as int + 1).drop_last() =~= all.take(k as int));
            assert(all.take(k as int + 1).last() == hours[k as int]@);
        }
        let minutes = minutes_in_hour(entries, hours[k].as_str(), notes);
        let name = chars_of(direction);
        put_slot(
            slots,
            HourSlot { hour: hours[k].clone(), direction: string_from_chars(&name), minutes },
        );
        k += 1;
    }
    assert(all.take(hours.len() as int) =~= all);
}

/// The departures of one kind of day.
pub struct Day {
    pub day_type: Seq<char>,
    pub slots: Seq<Slot>,
}

/// The departures of one kind of day, as they are computed.
#[derive(Debug, PartialEq, Eq)]
pub struct DaySchedule {
    pub day_type: String,
    /// One slot for each hour and direction with departures.
    pub slots: Vec<HourSlot>,
}

impl View for DaySchedule {
    type V = Day;

    open spec fn view(&self) -> Day {
        Day { day_type: self.day_type@, slots: slots_view(self.slots@) }
    }
}

/// Days as they are computed, seen as days.
pub open spec fn days_view(days: Seq<DaySchedule>) -> Seq<Day> {
    Seq::new(days.len(), |i: int| days[i]@)
}

/// The kinds of day of `days`, in order.
pub open spec fn day_types(days: Seq<Day>) -> Seq<Seq<char>> {
    Seq::new(days.len(), |i: int| days[i].day_type)
}

/// `days` with an empty day of kind `day_type` in the place of the first
/// day of that kind, and at the end where there is none.
pub open spec fn with_fresh_day(days: Seq<Day>, day_type: Seq<char>) -> Seq<Day> {
    if index_of_text(day_types(days), day_type) < days.len() {
        days.update(
            index_of_text(day_types(days), day_type),
            Day { day_type, slots: Seq::empty() },
        )
    } else {
        days.push(Day { day_type, slots: Seq::empty() })
    }
}

/// The departures of one timetable in one direction.
pub struct DirectionReading {
    pub direction: Seq<char>,
    pub entries: Seq<Departure>,
}

/// One timetable.
pub struct Reading {
    pub route_number: Seq<char>,
    pub day_type: Seq<char>,
    pub directions: Seq<Seq<char>>,
    pub times: Seq<DirectionReading>,
}

impl View for DirectionTimes {
    type V = DirectionReading;

    open spec fn view(&self) -> DirectionReading {
        DirectionReading { direction: self.direction@, entries: departures_view(self.entries@) }
    }
}

/// Departures by direction as they are computed, seen as such.
pub open spec fn times_view(times: Seq<DirectionTimes>) -> Seq<DirectionReading> {
    Seq::new(times.len(), |i: int| times[i]@)
}

impl View for ParsedSchedule {
    type V = Reading;

    open spec fn view(&self) -> Reading {
        Reading {
            route_number: self.route_number@,
            day_type: self.day_type@,
            directions: texts_view(self.directions@),
            times: times_view(self.times_by_direction@),
        }
    }
}

/// Timetables as they are computed, seen as timetables.
pub open spec fn readings_view(schedules: Seq<ParsedSchedule>) -> Seq<Reading> {
    Seq::new(schedules.len(), |i: int| schedules[i]@)
}

/// Slots and remarks after the departures `times` were put in, direction
/// by direction: first a direction's remarks, then its slots.
pub open spec fn absorbed(slots: Seq<Slot>, notes: Seq<Seq<char>>, times: Seq<DirectionReading>) -> (
    Seq<Slot>,
    Seq<Seq<char>>,
)
    decreases times.len(),
{
    if times.len() == 0 {
        (slots, notes)
    } else {
        let before = absorbed(slots, notes, times.drop_last());
        let last = times.last();
        let remarks = notes_with(before.1, last.entries);
        (
            slots_with(before.0, hours_in(last.entries), last.direction, last.entries, remarks),
            remarks,
        )
    }
}

/// The merged record of a route.
pub struct Merged {
    pub route_id: Seq<char>,
    pub route_name: Seq<char>,
    pub description: Seq<char>,
    pub directions: Seq<Seq<char>>,
    pub days: Seq<Day>,
    /// The remarks; the one at index `i` has the number `i + 1`.
    pub notes: Seq<Seq<char>>,
}

/// The merged record of a route, as it is computed.
#[derive(Debug, PartialEq, Eq)]
pub struct MergedRoute {
    pub route_id: String,
    pub route_name: String,
    pub description: String,
    pub directions: Vec<String>,
    pub schedule: Vec<DaySchedule>,
    /// The remarks; the one at index `i` has the number `i + 1`.
    pub notes: Vec<String>,
}

impl View for MergedRoute {
    type V = Merged;

    open spec fn view(&self) -> Merged {
        Merged {
            route_id: self.route_id@,
            route_name: self.route_name@,
            description: self.description@,
            directions: texts_view(self.directions@),
            days: days_view(self.schedule@),
            notes: texts_view(self.notes@),
        }
    }
}

/// Records as they are computed, seen as records.
pub open spec fn routes_view(routes: Seq<MergedRoute>) -> Seq<Merged> {
    Seq::new(routes.len(), |i: int| routes[i]@)
}

impl Merged {
    /// The record after the timetable `reading` was merged in: the day of
    /// its kind starts afresh and takes the timetable's departures.
    pub open spec fn absorb(self, reading: Reading) -> Merged {
        let days = with_fresh_day(self.days, reading.day_type);
        let at = index_of_text(day_types(days), reading.day_type);
        let filled = absorbed(Seq::empty(), self.notes, reading.times);
        Merged {
            days: days.update(at, Day { day_type: reading.day_type, slots: filled.0 }),
            notes: filled.1,
            ..self
        }
    }
}

/// Puts an empty day of kind `day_type` into `days` and says where.
fn fresh_day(days: &mut Vec<DaySchedule>, day_type: &str) -> (at: usize)
    ensures
        days_view(final(days)@) == with_fresh_day(days_view(old(days)@), day_type@),
        at == index_of_text(day_types(days_view(final(days)@)), day_type@),
        at < final(days).len(),
{
    let ghost all = days_view(days@);
    let ghost kinds = day_types(all);
    let name = chars_of(day_type);
    proof {
        lemma_index_of_text(kinds, day_type@);
    }
    let mut i: usize = 0;
    while i < days.len()
        invariant
            i <= days.len(),
            days == old(days),
            all == days_view(days@),
            kinds == day_types(all),
            name@ == day_type@,
            forall|k: int| 0 <= k < i ==> kinds[k] != day_type@,
        decreases days.len() - i,
    {
        let kind = chars_of(days[i].day_type.as_str());
        if chars_equal(&kind, &name) {
            proof {
                lemma_index_of_text(kinds, day_type@);
                assert(kinds[i as int] == day_type@);
                assert(index_of_text(kinds, day_type@) == i);
            }
            days.set(i, DaySchedule { day_type: string_from_chars(&name), slots: Vec::new() });
            proof {
                assert(slots_view(Seq::<HourSlot>::empty()) =~= Seq::<Slot>::empty());
                assert(days_view(days@) =~= with_fresh_day(all, day_type@));
                let after = day_types(days_view(days@));
                assert(after =~= kinds);
            }
            return i;
        }
        i += 1;
    }
    proof {
        lemma_index_of_text(kinds, day_type@);
        assert(index_of_text(kinds, day_type@) == kinds.len());
    }
    days.push(DaySchedule { day_type: string_from_chars(&name), slots: Vec::new() });
    proof {
        assert(slots_view(Seq::<HourSlot>::empty()) =~= Seq::<Slot>::empty());
        assert(days_view(days@) =~= with_fresh_day(all, day_type@));
        let after = day_types(days_view(days@));
        assert(after =~= kinds.push(day_type@));
        assert(after.drop_last() =~= kinds);
        lemma_index_of_text(after, day_type@);
        assert(after[i as int] == day_type@);
        assert forall|k: int| 0 <= k < i implies after[k] != day_type@ by {
            assert(after[k] == kinds[k]);
        }
    }
    i
}

/// Merges the timetable `schedule` into the record `route`.
pub fn absorb_schedule(route: MergedRoute, schedule: &ParsedSchedule) -> (r: MergedRoute)
    ensures
        r@ == route@.absorb(schedule@),
{
    let ghost begin = route@;
    let MergedRoute { route_id, route_name, description, directions, schedule: days, notes } =
        route;
    let mut days = days;
    let mut notes = notes;
    let at = fresh_day(&mut days, schedule.day_type.as_str());
    let ghost fresh = days_view(days@);
    let ghost times = times_view(schedule.times_by_direction@);
    let mut slots: Vec<HourSlot> = Vec::new();
    let mut k: usize = 0;
    assert(times.take(0) =~= Seq::empty());
    assert(slots_view(slots@) =~= Seq::empty());
    while k < schedule.times_by_direction.len()
        invariant
            k <= schedule.times_by_direction.len(),
            times == times_view(schedule.times_by_direction@),
            (slots_view(slots@), texts_view(notes@)) == absorbed(
                Seq::empty(),
                begin.notes,
                times.take(k as int),
            ),
        decreases schedule.times_by_direction.len() - k,
    {
        proof {
            assert(times.take(k as int + 1).drop_last() =~= times.take(k as int));
            assert(times.take(k as int + 1).last() == schedule.times_by_direction[k as int]@);
        }
        let part = &schedule.times_by_direction[k];
        put_direction(&mut slots, &mut notes, part.direction.as_str(), &part.entries);
        k += 1;
    }
    assert(times.take(schedule.times_by_direction.len() as int) =~= times);
    let kind = chars_of(schedule.day_type.as_str());
    days.set(at, DaySchedule { day_type: string_from_chars(&kind), slots });
    let r = MergedRoute { route_id, route_name, description, directions, schedule: days, notes };
    assert(r@.days =~= begin.absorb(schedule@).days);
    r
}

/// The route numbers of `entries`, in order.
pub open spec fn entry_numbers(entries: Seq<RouteEntry>) -> Seq<Seq<char>> {
    Seq::new(entries.len(), |i: int| entries[i].route_number@)
}

/// The route ids of `routes`, in order.
pub open spec fn route_ids(routes: Seq<Merged>) -> Seq<Seq<char>> {
    Seq::new(routes.len(), |i: int| routes[i].route_id)
}

/// The record of the route `number` before any timetable was merged in.
/// Termini and directions are those known of the route: those of the first
/// of `known` with that number. Of a route that is not known the termini
/// are empty and the directions those of its first timetable,
/// `directions`.
pub open spec fn fresh_record(
    number: Seq<char>,
    directions: Seq<Seq<char>>,
    known: Seq<RouteEntry>,
) -> Merged {
    let at = index_of_text(entry_numbers(known), number);
    Merged {
        route_id: number,
        route_name: number + "번"@,
        description: if at < known.len() {
            known[at].meta.origin@ + " ↔ "@ + known[at].meta.destination@
        } else {
            " ↔ "@
        },
        directions: if at < known.len() {
            texts_view(known[at].meta.directions@)
        } else {
            directions
        },
        days: Seq::empty(),
        notes: Seq::empty(),
    }
}

/// The records after the timetable `reading` was merged in: into the
/// record of its route, which is made and put at the end where there is
/// none yet.
pub open spec fn merged_with(routes: Seq<Merged>, reading: Reading, known: Seq<RouteEntry>) -> Seq<
    Merged,
> {
    let at = index_of_text(route_ids(routes), reading.route_number);
    let all = if at < routes.len() {
        routes
    } else {
        routes.push(fresh_record(reading.route_number, reading.directions, known))
    };
    all.update(at, all[at].absorb(reading))
}

/// The records after the timetables `readings` were merged in, in order.
pub open spec fn merged(readings: Seq<Reading>, known: Seq<RouteEntry>) -> Seq<Merged>
    decreases readings.len(),
{
    if readings.len() == 0 {
        Seq::empty()
    } else {
        merged_with(merged(readings.drop_last(), known), readings.last(), known)
    }
}

/// Finds the first of `known` with the route number `number`; their
/// number where there is none.
fn find_entry(known: &Vec<RouteEntry>, number: &Vec<char>) -> (at: usize)
    ensures
        at == index_of_text(entry_numbers(known@), number@),
        at <= known.len(),
{
    let ghost numbers = entry_numbers(known@);
    let mut at: usize = 0;
    while at < known.len()
        invariant
            at <= known.len(),
            numbers == entry_numbers(known@),
            forall|k: int| 0 <= k < at ==> numbers[k] != number@,
        decreases known.len() - at,
    {
        let other = chars_of(known[at].route_number.as_str());
        if chars_equal(&other, number) {
            proof {
                lemma_index_of_text(numbers, number@);
                assert(numbers[at as int] == number@);
            }
            return at;
        }
        at += 1;
    }
    proof {
        lemma_index_of_text(numbers, number@);
    }
    at
}

/// Finds the first of `routes` with the id `id`; their number where there
/// is none.
fn find_route(routes: &Vec<MergedRoute>, id: &Vec<char>) -> (at: usize)
    ensures
        at == index_of_text(route_ids(routes_view(routes@)), id@),
        at <= routes.len(),
{
    let ghost ids = route_ids(routes_view(routes@));
    let mut at: usize = 0;
    while at < routes.len()
        invariant
            at <= routes.len(),
            ids == route_ids(routes_view(routes@)),
            forall|k: int| 0 <= k < at ==> ids[k] != id@,
        decreases routes.len() - at,
    {
        let other = chars_of(routes[at].route_id.as_str());
        if chars_equal(&other, id) {
            proof {
                lemma_index_of_text(ids, id@);
                assert(ids[at as int] == id@);
            }
            return at;
        }
        at += 1;
    }
    proof {
        lemma_index_of_text(ids, id@);
    }
    at
}

/// Makes the record of a route before any timetable was merged in.
pub fn new_record(number: &str, directions: &Vec<String>, known: &Vec<RouteEntry>) -> (r:
    MergedRoute)
    ensures
        r@ == fresh_record(number@, texts_view(directions@), known@),
{
    let name = chars_of(number);
    let at = find_entry(known, &name);
    let mut route_name: Vec<char> = Vec::new();
    push_str(&mut route_name, number);
    push_str(&mut route_name, "번");
    let mut description: Vec<char> = Vec::new();
    if at < known.len() {
        push_str(&mut description, known[at].meta.origin.as_str());
    }
    push_str(&mut description, " ↔ ");
    if at < known.len() {
        push_str(&mut description, known[at].meta.destination.as_str());
    }
    let kept = if at < known.len() {
        copy_texts(&known[at].meta.directions)
    } else {
        copy_texts(directions)
    };
    let r = MergedRoute {
        route_id: string_from_chars(&name),
        route_name: string_from_chars(&route_name),
        description: string_from_chars(&description),
        directions: kept,
        schedule: Vec::new(),
        notes: Vec::new(),
    };
    proof {
        let want = fresh_record(number@, texts_view(directions@), known@);
        assert(r@.route_name =~= want.route_name);
        assert(r@.description =~= want.description);
        assert(r@.days =~= want.days);
        assert(r@.notes =~= want.notes);
    }
    r
}

/// Merges timetables into one record for each route, in the order in
/// which the routes first come; `known` holds what is known of the routes.
pub fn merge_schedules(schedules: &Vec<ParsedSchedule>, known: &Vec<RouteEntry>) -> (r: Vec<
    MergedRoute,
>)
    ensures
        routes_view(r@) == merged(readings_view(schedules@), known@),
{
    let ghost readings = readings_view(schedules@);
    let mut routes: Vec<MergedRoute> = Vec::new();
    let mut i: usize = 0;
    assert(readings.take(0) =~= Seq::empty());
    assert(routes_view(routes@) =~= Seq::empty());
    while i < schedules.len()
        invariant
            i <= schedules.len(),
            readings == readings_view(schedules@),
            routes_view(routes@) == merged(readings.take(i as int), known@),
        decreases schedules.len() - i,
    {
        let schedule = &schedules[i];
        let ghost before = routes_view(routes@);
        let ghost ids = route_ids(before);
        proof {
            assert(readings.take(i as int + 1).drop_last() =~= readings.take(i as int));
            assert(readings.take(i as int + 1).last() == schedule@);
            lemma_index_of_text(ids, schedule.route_number@);
        }
        let number = chars_of(schedule.route_number.as_str());
        let at = find_route(&routes, &number);
        if at >= routes.len() {
            routes.push(new_record(schedule.route_number.as_str(), &schedule.directions, known));
        }
        let ghost all = routes_view(routes@);
        assert(all =~= if at < before.len() {
            before
        } else {
            before.push(fresh_record(schedule@.route_number, schedule@.directions, known@))
        });
        let route = routes.remove(at);
        let route = absorb_schedule(route, schedule);
        routes.insert(at, route);
        assert(routes_view(routes@) =~= all.update(at as int, all[at as int].absorb(schedule@)));
        i += 1;
    }
    assert(readings.take(schedules.len() as int) =~= readings);
    routes
}

} // verus!
