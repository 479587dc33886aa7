//! The weekly availability grid: five-minute slots, Sunday to Saturday.
use crate::civil::weekday;
use crate::civil::weekday_of;
use crate::civil::week_start_of;
use crate::expand::Occurrence;
use crate::stamp::normalize_stamp;
use crate::stamp::normalized_of;
use crate::stamp::LocalTime;
use crate::stamp::MINUTES_PER_DAY;
use vstd::prelude::*;

verus! {

/// Minutes in one slot of the grid.
pub const SLOT_MINUTES: u32 = 5;

/// An occurrence as the display zone sees it: the day it starts on, and its
/// start and end as minutes from that day's midnight. The end may pass 1440
/// when the occurrence runs into the next day.
#[derive(Clone, Copy, Debug, PartialEq, Eq, Structural)]
pub struct NormalizedOccurrence {
    pub day: i64,
    pub start_minute: i64,
    pub end_minute: i64,
}

/// The class of one slot of the grid.
#[derive(Clone, Copy, Debug, PartialEq, Eq, Structural)]
pub enum SlotClass {
    /// The slot that holds the present moment.
    CurrentTime,
    /// A weekend slot, or one on a day before today.
    Unavailable,
    /// A slot that an occurrence overlaps.
    Busy,
    Available,
}

/// An occurrence moved into the display zone.
pub open spec fn normalized_occurrence_of(
    o: Occurrence,
    same_zone: bool,
    viewer_offset: Option<i32>,
    display_offset: Option<i32>,
) -> NormalizedOccurrence {
    let s = normalized_of(o.start, same_zone, viewer_offset, display_offset);
    let e = normalized_of(o.end, same_zone, viewer_offset, display_offset);
    NormalizedOccurrence {
        day: s.day,
        start_minute: (s.hour * 60 + s.minute) as i64,
        end_minute: (e.minutes() - s.day * MINUTES_PER_DAY) as i64,
    }
}

/// Moves an occurrence into the display zone; see [`normalized_of`] for how
/// each of its two times moves.
pub fn normalize_occurrence(
    o: &Occurrence,
    viewer_zone: &String,
    display_zone: &String,
    viewer_offset: Option<i32>,
    display_offset: Option<i32>,
) -> (r: NormalizedOccurrence)
    requires
        o.wf(),
    ensures
        r == normalized_occurrence_of(
            *o,
            viewer_zone@ == display_zone@,
            viewer_offset,
            display_offset,
        ),
{
    let s = normalize_stamp(&o.start, viewer_zone, display_zone, viewer_offset, display_offset);
    let e = normalize_stamp(&o.end, viewer_zone, display_zone, viewer_offset, display_offset);
    NormalizedOccurrence {
        day: s.day,
        start_minute: (s.hour * 60 + s.minute) as i64,
        end_minute: (e.day - s.day) * MINUTES_PER_DAY + (e.hour * 60 + e.minute) as i64,
    }
}

/// Moves every occurrence into the display zone, with the same offsets for all.
pub fn normalize_all(
    occs: &Vec<Occurrence>,
    viewer_zone: &String,
    display_zone: &String,
    viewer_offset: Option<i32>,
    display_offset: Option<i32>,
) -> (r: Vec<NormalizedOccurrence>)
    requires
        forall|i: int| 0 <= i < occs@.len() ==> (#[trigger] occs@[i]).wf(),
    ensures
        r@.len() == occs@.len(),
        forall|i: int|
            0 <= i < occs@.len() ==> #[trigger] r@[i] == normalized_occurrence_of(
                occs@[i],
                viewer_zone@ == display_zone@,
                viewer_offset,
                display_offset,
            ),
{
    let mut r: Vec<NormalizedOccurrence> = Vec::new();
    let mut i: usize = 0;
    while i < occs.len()
        invariant
            i <= occs@.len(),
            forall|k: int| 0 <= k < occs@.len() ==> (#[trigger] occs@[k]).wf(),
            r@.len() == i,
            forall|k: int|
                0 <= k < i ==> #[trigger] r@[k] == normalized_occurrence_of(
                    occs@[k],
                    viewer_zone@ == display_zone@,
                    viewer_offset,
                    display_offset,
                ),
        decreases occs@.len() - i,
    {
        let n = normalize_occurrence(&occs[i], viewer_zone, display_zone, viewer_offset, display_offset);
        r.push(n);
        i += 1;
    }
    r
}

/// The day number of column `day_index` of the week `week_offset` weeks from
/// the week of `today`.
pub open spec fn slot_day_of(today: int, week_offset: int, day_index: int) -> int {
    week_start_of(today) + 7 * week_offset + day_index
}

/// Whether an occurrence overlaps the slot `[start, start + 5)` of `day`:
/// half-open intervals that share only an end point do not overlap.
pub open spec fn overlaps(o: NormalizedOccurrence, day: int, start: int) -> bool {
    o.day == day && o.start_minute < start + SLOT_MINUTES && o.end_minute > start
}

/// Whether the slot holds the present moment.
pub open spec fn is_current_slot(
    week_offset: int,
    day_index: int,
    hour: int,
    minute: int,
    now: LocalTime,
) -> bool {
    &&& week_offset == 0
    &&& day_index == weekday_of(now.day as int)
    &&& hour == now.hour
    &&& minute <= now.minute < minute + SLOT_MINUTES
}

/// The class of a slot: the present moment first, then weekends and days
/// before today, then overlap with any occurrence.
pub open spec fn class_of(
    week_offset: int,
    day_index: int,
    hour: int,
    minute: int,
    now: LocalTime,
    occs: Seq<NormalizedOccurrence>,
) -> SlotClass {
    let day = slot_day_of(now.day as int, week_offset, day_index);
    if is_current_slot(week_offset, day_index, hour, minute, now) {
        SlotClass::CurrentTime
    } else if day_index == 0 || day_index == 6 || day < now.day {
        SlotClass::Unavailable
    } else if exists|i: int| 0 <= i < occs.len() && overlaps(#[trigger] occs[i], day, hour * 60 + minute) {
        SlotClass::Busy
    } else {
        SlotClass::Available
    }
}

/// Classifies the slot at `hour:minute` in column `day_index` (0 for Sunday)
/// of the week `week_offset` weeks from now; `now` is the present moment in
/// the display zone.
pub fn classify_slot(
    week_offset: i32,
    day_index: u32,
    hour: u32,
    minute: u32,
    now: &LocalTime,
    occs: &Vec<NormalizedOccurrence>,
) -> (r: SlotClass)
    requires
        day_index < 7,
        hour < 24,
        minute < 60,
        now.wf(),
    ensures
        r == class_of(week_offset as int, day_index as int, hour as int, minute as int, *now, occs@),
{
    let today_index = weekday(now.day);
    if week_offset == 0 && day_index == today_index && hour == now.hour && minute <= now.minute
        && now.minute < minute + SLOT_MINUTES {
        return SlotClass::CurrentTime;
    }
    let day: i64 = now.day - today_index as i64 + 7 * week_offset as i64 + day_index as i64;
    if day_index == 0 || day_index == 6 || day < now.day {
        return SlotClass::Unavailable;
    }
    let start: i64 = (hour * 60 + minute) as i64;
    assert(day == slot_day_of(now.day as int, week_offset as int, day_index as int));
    let mut i: usize = 0;
    while i < occs.len()
        invariant
            i <= occs@.len(),
            start == hour * 60 + minute,
            hour < 24,
            minute < 60,
            day == slot_day_of(now.day as int, week_offset as int, day_index as int),
            !is_current_slot(week_offset as int, day_index as int, hour as int, minute as int, *now),
            !(day_index == 0 || day_index == 6 || day < now.day),
            forall|k: int| 0 <= k < i ==> !overlaps(#[trigger] occs@[k], day as int, start as int),
        decreases occs@.len() - i,
    {
        let o = occs[i];
        if o.day == day && o.start_minute < start + SLOT_MINUTES as i64 && o.end_minute > start {
            assert(overlaps(occs@[i as int], day as int, start as int));
            return SlotClass::Busy;
        }
        i += 1;
    }
    SlotClass::Available
}

/// Half-open overlap: an occurrence that ends exactly where a slot starts,
/// or starts exactly where it ends, leaves the slot free.
pub proof fn lemma_touching_is_free(o: NormalizedOccurrence, day: int, start: int)
    ensures
        o.end_minute == start ==> !overlaps(o, day, start),
        o.start_minute == start + SLOT_MINUTES ==> !overlaps(o, day, start),
{
}

/// A weekend slot is unavailable, whatever the occurrences, unless it is the
/// slot of the present moment.
pub proof fn lemma_weekend_unavailable(
    week_offset: int,
    day_index: int,
    hour: int,
    minute: int,
    now: LocalTime,
    occs: Seq<NormalizedOccurrence>,
)
    requires
        day_index == 0 || day_index == 6,
        !is_current_slot(week_offset, day_index, hour, minute, now),
    ensures
        class_of(week_offset, day_index, hour, minute, now, occs) == SlotClass::Unavailable,
{
}

/// The rows of a grid from `start_hour` up to (not including) `end_hour`:
/// twelve five-minute rows per hour, as (hour, minute).
pub fn slot_rows(start_hour: u32, end_hour: u32) -> (r: Vec<(u32, u32)>)
    requires
        start_hour < end_hour <= 24,
    ensures
        r@.len() == 12 * (end_hour - start_hour),
        forall|i: int|
            0 <= i < r@.len() ==> #[trigger] r@[i] == ((start_hour + i / 12) as u32, ((i % 12)
                * 5) as u32),
{
    let mut r: Vec<(u32, u32)> = Vec::new();
    let n: usize = 12 * (end_hour - start_hour) as usize;
    let mut i: usize = 0;
    while i < n
        invariant
            n == 12 * (end_hour - start_hour),
            start_hour < end_hour <= 24,
            i <= n,
            r@.len() == i,
            forall|k: int|
                0 <= k < i ==> #[trigger] r@[k] == ((start_hour + k / 12) as u32, ((k % 12)
                    * 5) as u32),
        decreases n - i,
    {
        r.push((start_hour + (i / 12) as u32, ((i % 12) * 5) as u32));
        i += 1;
    }
    r
}

/// The classes of a whole week: one row per five-minute slot from
/// `start_hour` up to `end_hour`, seven columns from Sunday to Saturday.
pub fn week_grid(
    week_offset: i32,
    start_hour: u32,
    end_hour: u32,
    now: &LocalTime,
    occs: &Vec<NormalizedOccurrence>,
) -> (r: Vec<Vec<SlotClass>>)
    requires
        start_hour < end_hour <= 24,
        now.wf(),
    ensures
        r@.len() == 12 * (end_hour - start_hour),
        forall|i: int|
            0 <= i < r@.len() ==> (#[trigger] r@[i])@.len() == 7 && forall|j: int|
                0 <= j < 7 ==> #[trigger] r@[i]@[j] == class_of(
                    week_offset as int,
                    j,
                    start_hour + i / 12,
                    (i % 12) * 5,
                    *now,
                    occs@,
                ),
{
    let rows = slot_rows(start_hour, end_hour);
    let mut grid: Vec<Vec<SlotClass>> = Vec::new();
    let mut i: usize = 0;
    while i < rows.len()
        invariant
            i <= rows@.len(),
            rows@.len() == 12 * (end_hour - start_hour),
            start_hour < end_hour <= 24,
            now.wf(),
            forall|k: int|
                0 <= k < rows@.len() ==> #[trigger] rows@[k] == ((start_hour + k / 12) as u32, ((k
                    % 12) * 5) as u32),
            grid@.len() == i,
            forall|k: int|
                0 <= k < i ==> (#[trigger] grid@[k])@.len() == 7 && forall|j: int|
                    0 <= j < 7 ==> #[trigger] grid@[k]@[j] == class_of(
                        week_offset as int,
                        j,
                        start_hour + k / 12,
                        (k % 12) * 5,
                        *now,
                        occs@,
                    ),
        decreases rows@.len() - i,
    {
        let (hour, minute) = rows[i];
        assert(hour == start_hour + i / 12 && minute == (i % 12) * 5);
        let mut line: Vec<SlotClass> = Vec::new();
        let mut j: u32 = 0;
        while j < 7
            invariant
                j <= 7,
                hour < 24,
                minute < 60,
                now.wf(),
                line@.len() == j,
                forall|c: int|
                    0 <= c < j ==> #[trigger] line@[c] == class_of(
                        week_offset as int,
                        c,
                        hour as int,
                        minute as int,
                        *now,
                        occs@,
                    ),
            decreases 7 - j,
        {
            line.push(classify_slot(week_offset, j, hour, minute, now, occs));
            j += 1;
        }
        grid.push(line);
        i += 1;
    }
    grid
}

/// The week shown after a request to show week `requested`: navigation
/// stays within weeks `0..=max_weeks_ahead`.
pub open spec fn clamped_week_of(requested: int, max_weeks_ahead: int) -> int {
    if requested < 0 {
        0
    } else if requested > max_weeks_ahead {
        max_weeks_ahead
    } else {
        requested
    }
}

pub fn clamp_week(requested: i64, max_weeks_ahead: u32) -> (r: u32)
    ensures
        r == clamped_week_of(requested as int, max_weeks_ahead as int),
        r <= max_weeks_ahead,
{
    if requested < 0 {
        0
    } else if requested > max_weeks_ahead as i64 {
        max_weeks_ahead
    } else {
        requested as u32
    }
}

/// Whether the grid may move one week later.
pub fn can_go_next(current: u32, max_weeks_ahead: u32) -> (r: bool)
    ensures
        r == (current < max_weeks_ahead),
{
    current < max_weeks_ahead
}

/// Whether the grid may move one week earlier.
pub fn can_go_previous(current: u32) -> (r: bool)
    ensures
        r == (current > 0),
{
    current > 0
}

/// The week shown after moving one week later.
pub fn next_week(current: u32, max_weeks_ahead: u32) -> (r: u32)
    ensures
        r == clamped_week_of(current + 1, max_weeks_ahead as int),
{
    clamp_week(current as i64 + 1, max_weeks_ahead)
}

/// The week shown after moving one week earlier.
pub fn previous_week(current: u32, max_weeks_ahead: u32) -> (r: u32)
    ensures
        r == clamped_week_of(current - 1, max_weeks_ahead as int),
{
    clamp_week(current as i64 - 1, max_weeks_ahead)
}

} // verus!
