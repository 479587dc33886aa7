//! ICS timestamps and their wall-clock times in a time zone.
use crate::civil::ce_day;
use crate::civil::ce_day_of;
use crate::text::all_digits;
use crate::text::all_digits_in;
use crate::text::decimal_value;
use crate::text::digits_value;
use vstd::arithmetic::div_mod::lemma_fundamental_div_mod_converse;
use vstd::prelude::*;

verus! {

/// Minutes in one day.
pub const MINUTES_PER_DAY: i64 = 1440;

/// The largest day number, in magnitude, that a timestamp may carry.
pub const DAY_LIMIT: i64 = 0x4_0000_0000;

/// A date-time read from an ICS value such as `20240805T140000Z`.
///
/// `utc` records the trailing `Z`; `second` is kept as written.
#[derive(Clone, Copy, Debug, PartialEq, Eq, Structural)]
pub struct Stamp {
    pub day: i64,
    pub hour: u32,
    pub minute: u32,
    pub second: u32,
    pub utc: bool,
}

impl Stamp {
    pub open spec fn wf(&self) -> bool {
        &&& -DAY_LIMIT <= self.day <= DAY_LIMIT
        &&& self.hour < 24
        &&& self.minute < 60
        &&& self.second < 61
    }

    /// Minutes since the start of day 0, read as a wall clock.
    pub open spec fn minutes(&self) -> int {
        self.day * MINUTES_PER_DAY + self.hour * 60 + self.minute
    }
}

/// A calendar day and a clock time, both in one time zone.
#[derive(Clone, Copy, Debug, PartialEq, Eq, Structural)]
pub struct LocalTime {
    pub day: i64,
    pub hour: u32,
    pub minute: u32,
}

impl LocalTime {
    pub open spec fn wf(&self) -> bool {
        &&& -2 * DAY_LIMIT <= self.day <= 2 * DAY_LIMIT
        &&& self.hour < 24
        &&& self.minute < 60
    }

    pub open spec fn minutes(&self) -> int {
        self.day * MINUTES_PER_DAY + self.hour * 60 + self.minute
    }
}

/// The value of the digits `s[from..to]`.
pub open spec fn field_value(s: Seq<char>, from: int, to: int) -> int {
    decimal_value(s.subrange(from, to))
}

/// Whether `s` has the shape `YYYYMMDDTHHMMSS`, followed by anything.
pub open spec fn stamp_shaped(s: Seq<char>) -> bool {
    &&& s.len() >= 15
    &&& all_digits(s.subrange(0, 8))
    &&& s[8] == 'T'
    &&& all_digits(s.subrange(9, 15))
}

/// The timestamp that an ICS date-time value denotes, if it denotes one: the
/// date must exist, the hour be below 24, the minute below 60 and the second
/// below 61. A `Z` right after the seconds marks it as UTC.
pub open spec fn stamp_of(s: Seq<char>) -> Option<Stamp> {
    if stamp_shaped(s) {
        let hour = field_value(s, 9, 11);
        let minute = field_value(s, 11, 13);
        let second = field_value(s, 13, 15);
        let date = ce_day_of(field_value(s, 0, 4), field_value(s, 4, 6), field_value(s, 6, 8));
        if hour < 24 && minute < 60 && second < 61 && date is Some {
            Some(
                Stamp {
                    day: date->Some_0 as i64,
                    hour: hour as u32,
                    minute: minute as u32,
                    second: second as u32,
                    utc: s.len() >= 16 && s[15] == 'Z',
                },
            )
        } else {
            None
        }
    } else {
        None
    }
}

/// Reads an ICS date-time value.
pub fn parse_stamp(s: &Vec<char>) -> (r: Option<Stamp>)
    ensures
        r == stamp_of(s@),
        r matches Some(t) ==> t.wf() && i32::MIN <= t.day <= i32::MAX,
{
    if s.len() < 15 || !all_digits_in(s, 0, 8) || s[8] != 'T' || !all_digits_in(s, 9, 15) {
        return None;
    }
    proof {
        lemma_digits_sub(s@, 0, 8, 0, 4);
        lemma_digits_sub(s@, 0, 8, 4, 6);
        lemma_digits_sub(s@, 0, 8, 6, 8);
        lemma_digits_sub(s@, 9, 15, 9, 11);
        lemma_digits_sub(s@, 9, 15, 11, 13);
        lemma_digits_sub(s@, 9, 15, 13, 15);
    }
    let year = digits_value(s, 0, 4);
    let month = digits_value(s, 4, 6);
    let day = digits_value(s, 6, 8);
    let hour = digits_value(s, 9, 11);
    let minute = digits_value(s, 11, 13);
    let second = digits_value(s, 13, 15);
    if hour >= 24 || minute >= 60 || second >= 61 {
        return None;
    }
    proof {
        lemma_small_field(s@, 0, 4);
    }
    match ce_day(year as i32, month, day) {
        Some(n) => {
            let utc = s.len() >= 16 && s[15] == 'Z';
            Some(Stamp { day: n as i64, hour, minute, second, utc })
        },
        None => None,
    }
}

pub(crate) proof fn lemma_digits_sub(s: Seq<char>, a: int, b: int, c: int, d: int)
    requires
        0 <= a <= c <= d <= b <= s.len(),
        all_digits(s.subrange(a, b)),
    ensures
        all_digits(s.subrange(c, d)),
{
    assert forall|i: int| 0 <= i < d - c implies crate::text::is_digit(#[trigger] s.subrange(c, d)[i]) by {
        assert(s.subrange(c, d)[i] == s.subrange(a, b)[i + c - a]);
    }
}

pub(crate) proof fn lemma_small_field(s: Seq<char>, from: int, to: int)
    requires
        0 <= from <= to <= s.len(),
        to - from <= 4,
        all_digits(s.subrange(from, to)),
    ensures
        0 <= field_value(s, from, to) < 10000,
{
    lemma_digits_below(s.subrange(from, to));
}

proof fn lemma_digits_below(t: Seq<char>)
    requires
        t.len() <= 4,
        all_digits(t),
    ensures
        0 <= decimal_value(t) < 10000,
        t.len() <= 3 ==> decimal_value(t) < 1000,
        t.len() <= 2 ==> decimal_value(t) < 100,
        t.len() <= 1 ==> decimal_value(t) < 10,
    decreases t.len(),
{
    if t.len() > 0 {
        let u = t.drop_last();
        assert(all_digits(u)) by {
            assert forall|i: int| 0 <= i < u.len() implies crate::text::is_digit(#[trigger] u[i]) by {
                assert(u[i] == t[i]);
            }
        }
        assert(crate::text::is_digit(t[t.len() - 1]));
        lemma_digits_below(u);
    }
}

/// `t` moved by `delta` minutes.
pub open spec fn shifted(t: LocalTime, delta: int) -> LocalTime {
    let x = t.minutes() + delta;
    LocalTime {
        day: (x / MINUTES_PER_DAY as int) as i64,
        hour: ((x % MINUTES_PER_DAY as int) / 60) as u32,
        minute: ((x % MINUTES_PER_DAY as int) % 60) as u32,
    }
}

/// Moves a local time by `delta` minutes, across day boundaries as needed.
pub fn shift(t: &LocalTime, delta: i64) -> (r: LocalTime)
    requires
        -2 * DAY_LIMIT - 2 <= t.day <= 2 * DAY_LIMIT + 2,
        t.hour < 24,
        t.minute < 60,
        -0x1_0000_0000 <= delta <= 0x1_0000_0000,
    ensures
        r == shifted(*t, delta as int),
        r.minutes() == t.minutes() + delta,
        r.hour < 24,
        r.minute < 60,
        t.day - 0x1_0000_0000 <= r.day <= t.day + 0x1_0000_0000,
{
    proof {
        lemma_shift_minutes(*t, delta as int);
    }
    let x: i64 = t.day * MINUTES_PER_DAY + (t.hour as i64) * 60 + (t.minute as i64) + delta;
    let bias: i64 = 0x400_0000_0000;
    let y: u64 = (x + bias * MINUTES_PER_DAY) as u64;
    let q: i64 = (y / 1440) as i64 - bias;
    let rem: i64 = (y % 1440) as i64;
    proof {
        assert(y as int == (y / 1440) * 1440 + y % 1440);
        assert(x as int == q * 1440 + rem) by (nonlinear_arith)
            requires
                y as int == x + bias * 1440,
                y as int == (y / 1440) * 1440 + y % 1440,
                q == (y / 1440) - bias,
                rem == y % 1440,
        ;
        lemma_fundamental_div_mod_converse(x as int, 1440, q as int, rem as int);
    }
    let r = LocalTime { day: q, hour: (rem / 60) as u32, minute: (rem % 60) as u32 };
    proof {
        assert(rem == (rem / 60) * 60 + rem % 60);
    }
    r
}

/// The wall-clock reading of a timestamp, as written.
pub open spec fn wall_of(s: Stamp) -> LocalTime {
    LocalTime { day: s.day, hour: s.hour, minute: s.minute }
}

/// Where a timestamp falls in the display zone.
///
/// A UTC timestamp moves by the display zone's offset from UTC. A timestamp
/// without `Z` is read in the viewer's zone: it stays as written when the
/// viewer's zone is the display zone, and otherwise moves by the difference of
/// the two offsets. Where an offset that is needed is unknown, the timestamp
/// stays as written. Offsets are minutes east of UTC at that moment.
pub open spec fn normalized_of(
    s: Stamp,
    same_zone: bool,
    viewer_offset: Option<i32>,
    display_offset: Option<i32>,
) -> LocalTime {
    if s.utc {
        match display_offset {
            Some(d) => shifted(wall_of(s), d as int),
            None => wall_of(s),
        }
    } else if same_zone {
        wall_of(s)
    } else {
        match (viewer_offset, display_offset) {
            (Some(v), Some(d)) => shifted(wall_of(s), d - v),
            _ => wall_of(s),
        }
    }
}

pub fn normalize_stamp(
    s: &Stamp,
    viewer_zone: &String,
    display_zone: &String,
    viewer_offset: Option<i32>,
    display_offset: Option<i32>,
) -> (r: LocalTime)
    requires
        s.wf(),
    ensures
        r == normalized_of(*s, viewer_zone@ == display_zone@, viewer_offset, display_offset),
        r.wf(),
{
    let wall = LocalTime { day: s.day, hour: s.hour, minute: s.minute };
    let same_zone = viewer_zone.eq(display_zone);
    if s.utc {
        match display_offset {
            Some(d) => shift(&wall, d as i64),
            None => wall,
        }
    } else if same_zone {
        wall
    } else {
        match (viewer_offset, display_offset) {
            (Some(v), Some(d)) => shift(&wall, d as i64 - v as i64),
            _ => wall,
        }
    }
}

/// A UTC timestamp moved into a zone and moved back by that zone's offset
/// reads as it was written.
pub proof fn lemma_zone_round_trip(s: Stamp, same_zone: bool, viewer_offset: Option<i32>, offset: i32)
    requires
        s.wf(),
        s.utc,
    ensures
        shifted(normalized_of(s, same_zone, viewer_offset, Some(offset)), -offset) == wall_of(s),
{
    let t = wall_of(s);
    lemma_shift_minutes(t, offset as int);
    let u = shifted(t, offset as int);
    lemma_shift_minutes(u, -offset);
    let v = shifted(u, -offset);
    lemma_minutes_unique(v, t);
}

proof fn lemma_shift_minutes(t: LocalTime, delta: int)
    requires
        -2 * DAY_LIMIT - 2 <= t.day <= 2 * DAY_LIMIT + 2,
        t.hour < 24,
        t.minute < 60,
        -0x1_0000_0000 <= delta <= 0x1_0000_0000,
    ensures
        shifted(t, delta).minutes() == t.minutes() + delta,
        shifted(t, delta).hour < 24,
        shifted(t, delta).minute < 60,
        t.day - 0x1_0000_0000 <= shifted(t, delta).day <= t.day + 0x1_0000_0000,
{
    let x = t.minutes() + delta;
    let q = x / 1440;
    let rem = x % 1440;
    assert(x == q * 1440 + rem);
    assert(0 <= rem < 1440);
    assert(rem == (rem / 60) * 60 + rem % 60);
    assert(t.day * 1440 - 0x1_0000_0000 <= x < t.day * 1440 + 1440 + 0x1_0000_0000);
    assert(t.day - 0x1_0000_0000 <= q <= t.day + 0x1_0000_0000) by (nonlinear_arith)
        requires
            x == q * 1440 + rem,
            0 <= rem < 1440,
            t.day * 1440 - 0x1_0000_0000 <= x < t.day * 1440 + 1440 + 0x1_0000_0000,
    ;
}

proof fn lemma_minutes_unique(a: LocalTime, b: LocalTime)
    requires
        a.minutes() == b.minutes(),
        a.hour < 24,
        a.minute < 60,
        b.hour < 24,
        b.minute < 60,
    ensures
        a == b,
{
    let ra = a.hour * 60 + a.minute;
    let rb = b.hour * 60 + b.minute;
    lemma_fundamental_div_mod_converse(a.minutes(), 1440, a.day as int, ra);
    lemma_fundamental_div_mod_converse(b.minutes(), 1440, b.day as int, rb);
    lemma_fundamental_div_mod_converse(ra, 60, a.hour as int, a.minute as int);
    lemma_fundamental_div_mod_converse(rb, 60, b.hour as int, b.minute as int);
}

} // verus!
