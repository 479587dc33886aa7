//! Expanding an event and its recurrence rule into dated occurrences.
use crate::civil::ce_day;
use crate::civil::ce_day_of;
use crate::civil::civil_date;
use crate::civil::civil_date_of;
use crate::civil::days_in_month;
use crate::civil::days_in_month_of;
use crate::civil::is_i32_day;
use crate::civil::weekday;
use crate::civil::weekday_of;
use crate::rrule::Frequency;
use crate::rrule::Rule;
use crate::rrule::RuleView;
use crate::rrule::Weekday;
use crate::stamp::Stamp;
use vstd::prelude::*;

verus! {

/// One busy stretch of time: an event, or one instance of a recurring event.
#[derive(Clone, Copy, Debug, PartialEq, Eq, Structural)]
pub struct Occurrence {
    pub start: Stamp,
    pub end: Stamp,
}

impl Occurrence {
    pub open spec fn wf(&self) -> bool {
        self.start.wf() && self.end.wf()
    }

    /// A base event: well formed, with both days in chrono's range.
    pub open spec fn is_base(&self) -> bool {
        self.wf() && is_i32_day(self.start.day as int) && is_i32_day(self.end.day as int)
    }

    /// Length in minutes, as the wall clocks read.
    pub open spec fn duration(&self) -> int {
        self.end.minutes() - self.start.minutes()
    }
}

/// Instances generated per track when the rule gives no `COUNT`.
pub const DAILY_CAP: u32 = 200;
pub const WEEKLY_CAP: u32 = 30;
pub const MONTHLY_CAP: u32 = 8;
pub const YEARLY_CAP: u32 = 3;

/// A sequence of candidate dates, numbered from 0.
///
/// `Days` steps a fixed number of days from `first`. `Months` steps whole
/// months from a date, keeping its day of month but clamping it to the
/// length of the month reached.
#[derive(Clone, Copy, Debug, PartialEq, Eq, Structural)]
pub enum Track {
    Days { first: i64, step: i64 },
    Months { year: i64, month: u32, day: u32, step: i64 },
}

pub open spec fn min_int(a: int, b: int) -> int {
    if a <= b {
        a
    } else {
        b
    }
}

/// The `k`-th date of a track, or `None` where it has no date chrono can represent.
pub open spec fn track_date(t: Track, k: int) -> Option<int> {
    match t {
        Track::Days { first, step } => {
            let d = first + k * step;
            if is_i32_day(d) {
                Some(d)
            } else {
                None
            }
        },
        Track::Months { year, month, day, step } => {
            let idx = year * 12 + (month - 1) + k * step;
            let y = idx / 12;
            let m = idx % 12 + 1;
            let c = ce_day_of(y, m, min_int(day as int, days_in_month_of(y, m)));
            if idx < 0 || y > i32::MAX || !(c matches Some(n) && is_i32_day(n)) {
                None
            } else {
                c
            }
        },
    }
}

/// The dates of a track numbered `k` up to (not including) `hi`, stopping at
/// the first that has no date or lies after `limit`.
pub open spec fn run(t: Track, k: int, hi: int, limit: int) -> Seq<int>
    decreases hi - k,
{
    if k >= hi {
        seq![]
    } else {
        match track_date(t, k) {
            Some(d) => if d <= limit {
                seq![d] + run(t, k + 1, hi, limit)
            } else {
                seq![]
            },
            None => seq![],
        }
    }
}

/// The occurrence that repeats `base` on day `d`: the same clock times and
/// length, with the seconds and UTC marks kept as written.
pub open spec fn instance_at(base: Occurrence, d: int) -> Occurrence {
    Occurrence {
        start: Stamp { day: d as i64, ..base.start },
        end: Stamp { day: (d + (base.end.day - base.start.day)) as i64, ..base.end },
    }
}

/// How many instances a track may hold: `COUNT`, or the frequency's cap.
pub open spec fn count_or(r: RuleView, cap: int) -> int {
    match r.count {
        Some(n) => n,
        None => cap,
    }
}

/// The last day on which an instance may fall: the horizon, or `UNTIL` if earlier.
pub open spec fn limit_of(r: RuleView, horizon: int) -> int {
    match r.until {
        Some(u) => min_int(horizon, u),
        None => horizon,
    }
}

/// The track of one `BYDAY` weekday: from the first such weekday after the
/// base day (a week on when it is the base day's own weekday), in steps of
/// `interval` weeks.
pub open spec fn weekday_track(base_day: int, w: Weekday, interval: int) -> Track {
    let off = (w.index_of() - weekday_of(base_day)) % 7;
    Track::Days {
        first: (if off == 0 {
            base_day + 7 * interval
        } else {
            base_day + off
        }) as i64,
        step: (7 * interval) as i64,
    }
}

/// The dates of the first `j` weekday tracks, one track after another. The
/// base event counts as the first instance of every track, so each track
/// adds at most one fewer than its count.
pub open spec fn by_day_dates(base_day: int, r: RuleView, limit: int, j: int) -> Seq<int>
    decreases j,
{
    if j <= 0 {
        seq![]
    } else {
        by_day_dates(base_day, r, limit, j - 1) + run(
            weekday_track(base_day, r.by_day[j - 1], r.interval),
            0,
            count_or(r, WEEKLY_CAP as int) - 1,
            limit,
        )
    }
}

/// The number of instances of a frequency when the rule gives no `COUNT`.
pub open spec fn cap_of(f: Frequency) -> int {
    match f {
        Frequency::Daily => DAILY_CAP as int,
        Frequency::Weekly => WEEKLY_CAP as int,
        Frequency::Monthly => MONTHLY_CAP as int,
        Frequency::Yearly => YEARLY_CAP as int,
        Frequency::Other => 0,
    }
}

/// The track of a rule without `BYDAY`, numbered so that 0 is the base day:
/// steps of `interval` days, weeks, months or years.
pub open spec fn main_track(base_day: int, r: RuleView) -> Option<Track> {
    match r.frequency {
        Frequency::Daily => Some(Track::Days { first: base_day as i64, step: r.interval as i64 }),
        Frequency::Weekly => Some(Track::Days { first: base_day as i64, step: (7 * r.interval) as i64 }),
        Frequency::Monthly => match civil_date_of(base_day) {
            Some((y, m, d)) => Some(
                Track::Months { year: y as i64, month: m as u32, day: d as u32, step: r.interval as i64 },
            ),
            None => None,
        },
        Frequency::Yearly => match civil_date_of(base_day) {
            Some((y, m, d)) => Some(
                Track::Months {
                    year: y as i64,
                    month: m as u32,
                    day: d as u32,
                    step: (12 * r.interval) as i64,
                },
            ),
            None => None,
        },
        Frequency::Other => None,
    }
}

/// The dates on which a rule repeats an event that starts on `base_day`,
/// not counting the event itself.
pub open spec fn dates_of(base_day: int, r: RuleView, horizon: int) -> Seq<int> {
    let limit = limit_of(r, horizon);
    if r.frequency == Frequency::Weekly && r.by_day.len() > 0 {
        by_day_dates(base_day, r, limit, r.by_day.len() as int)
    } else {
        match main_track(base_day, r) {
            Some(t) => run(t, 1, count_or(r, cap_of(r.frequency)) + 1, limit),
            None => seq![],
        }
    }
}

/// The occurrences of an event under a rule: the event itself, then an
/// instance on each date of [`dates_of`].
pub open spec fn expansion_of(base: Occurrence, r: RuleView, horizon: int) -> Seq<Occurrence> {
    seq![base] + dates_of(base.start.day as int, r, horizon).map_values(
        |d: int| instance_at(base, d),
    )
}

fn track_date_exec(t: &Track, k: u64) -> (r: Option<i64>)
    requires
        match *t {
            Track::Days { first, step } => -0x10_0000_0000 <= first <= 0x10_0000_0000 && 0
                <= step <= 0x10_0000_0000,
            Track::Months { year, month, day, step } => -0x10_0000_0000 <= year
                <= 0x10_0000_0000 && 0 <= step <= 0x10_0000_0000,
        },
        k <= 0x1_0000_0000,
    ensures
        match r {
            Some(d) => track_date(*t, k as int) == Some(d as int) && is_i32_day(d as int),
            None => track_date(*t, k as int) is None,
        },
{
    match *t {
        Track::Days { first, step } => {
            assert(0 <= k * step <= 0x1_0000_0000 * 0x10_0000_0000) by (nonlinear_arith)
                requires
                    0 <= k <= 0x1_0000_0000,
                    0 <= step <= 0x10_0000_0000,
            ;
            let d: i128 = first as i128 + (k as i128) * (step as i128);
            if d < i32::MIN as i128 || d > i32::MAX as i128 {
                None
            } else {
                Some(d as i64)
            }
        },
        Track::Months { year, month, day, step } => {
            assert(0 <= k * step <= 0x1_0000_0000 * 0x10_0000_0000) by (nonlinear_arith)
                requires
                    0 <= k <= 0x1_0000_0000,
                    0 <= step <= 0x10_0000_0000,
            ;
            let idx: i128 = (year as i128) * 12 + (month as i128 - 1) + (k as i128) * (step as i128);
            if idx < 0 {
                return None;
            }
            let y: i128 = idx / 12;
            if y > i32::MAX as i128 {
                return None;
            }
            let m: u32 = (idx % 12 + 1) as u32;
            let len = days_in_month(y as i64, m);
            let dd = if day <= len {
                day
            } else {
                len
            };
            match ce_day(y as i32, m, dd) {
                Some(n) => Some(n as i64),
                None => None,
            }
        },
    }
}

fn instance(base: &Occurrence, d: i64) -> (r: Occurrence)
    requires
        base.is_base(),
        is_i32_day(d as int),
    ensures
        r == instance_at(*base, d as int),
        r.wf(),
        r.duration() == base.duration(),
{
    let diff = base.end.day - base.start.day;
    let r = Occurrence {
        start: Stamp { day: d, ..base.start },
        end: Stamp { day: d + diff, ..base.end },
    };
    r
}

/// Appends the instances of `base` on the dates `run(t, lo, hi, limit)`.
fn push_run(
    base: &Occurrence,
    t: &Track,
    lo: u64,
    hi: u64,
    limit: i64,
    out: &mut Vec<Occurrence>,
)
    requires
        base.is_base(),
        match *t {
            Track::Days { first, step } => -0x10_0000_0000 <= first <= 0x10_0000_0000 && 0
                <= step <= 0x10_0000_0000,
            Track::Months { year, month, day, step } => -0x10_0000_0000 <= year
                <= 0x10_0000_0000 && 0 <= step <= 0x10_0000_0000,
        },
        hi <= 0x1_0000_0000,
    ensures
        final(out)@ == old(out)@ + run(*t, lo as int, hi as int, limit as int).map_values(
            |d: int| instance_at(*base, d),
        ),
{
    let ghost start = old(out)@;
    let ghost mut done: Seq<int> = seq![];
    let mut k: u64 = lo;
    assert(done.map_values(|d: int| instance_at(*base, d)) =~= seq![]);
    assert(out@ =~= start + done.map_values(|d: int| instance_at(*base, d)));
    while k < hi
        invariant
            base.is_base(),
            match *t {
                Track::Days { first, step } => -0x10_0000_0000 <= first <= 0x10_0000_0000 && 0
                    <= step <= 0x10_0000_0000,
                Track::Months { year, month, day, step } => -0x10_0000_0000 <= year
                    <= 0x10_0000_0000 && 0 <= step <= 0x10_0000_0000,
            },
            hi <= 0x1_0000_0000,
            lo <= k,
            run(*t, lo as int, hi as int, limit as int) == done + run(
                *t,
                k as int,
                hi as int,
                limit as int,
            ),
            out@ == start + done.map_values(|d: int| instance_at(*base, d)),
        ensures
            run(*t, k as int, hi as int, limit as int) == Seq::<int>::empty(),
        decreases hi - k,
    {
        match track_date_exec(t, k) {
            Some(d) => {
                if d > limit {
                    break;
                }
                let occ = instance(base, d);
                out.push(occ);
                proof {
                    assert(done.push(d as int) + run(*t, k + 1, hi as int, limit as int) =~= done
                        + (seq![d as int] + run(*t, k + 1, hi as int, limit as int)));
                    assert(done.push(d as int).map_values(|x: int| instance_at(*base, x))
                        =~= done.map_values(|x: int| instance_at(*base, x)).push(occ));
                    done = done.push(d as int);
                }
            },
            None => {
                break;
            },
        }
        k += 1;
    }
    assert(run(*t, lo as int, hi as int, limit as int) =~= done);
}

/// Day numbers well inside the range that tracks accept.
spec fn small_day(d: int) -> bool {
    -0x1_0000_0000 <= d <= 0x1_0000_0000
}

#[verifier::rlimit(60)]
/// Appends the instances of the weekday tracks `j..` of a `BYDAY` rule.
fn push_by_day(base: &Occurrence, rule: &Rule, limit: i64, out: &mut Vec<Occurrence>)
    requires
        base.is_base(),
        rule.interval >= 1,
    ensures
        final(out)@ == old(out)@ + by_day_dates(
            base.start.day as int,
            rule@,
            limit as int,
            rule@.by_day.len() as int,
        ).map_values(|d: int| instance_at(*base, d)),
{
    let ghost start = old(out)@;
    let ghost b = base.start.day as int;
    let n: u64 = match rule.count {
        Some(c) => c as u64,
        None => WEEKLY_CAP as u64,
    };
    let hi: u64 = if n >= 1 {
        n - 1
    } else {
        0
    };
    let bw = weekday(base.start.day);
    let step: i64 = 7 * rule.interval as i64;
    let mut j: usize = 0;
    assert(by_day_dates(b, rule@, limit as int, 0).map_values(|d: int| instance_at(*base, d))
        =~= seq![]);
    assert(out@ =~= start + by_day_dates(b, rule@, limit as int, 0).map_values(
        |d: int| instance_at(*base, d),
    ));
    while j < rule.by_day.len()
        invariant
            base.is_base(),
            b == base.start.day as int,
            rule.interval >= 1,
            j <= rule.by_day@.len(),
            bw == weekday_of(b),
            step == 7 * rule.interval,
            hi as int == (if count_or(rule@, WEEKLY_CAP as int) >= 1 {
                count_or(rule@, WEEKLY_CAP as int) - 1
            } else {
                0
            }),
            out@ == start + by_day_dates(b, rule@, limit as int, j as int).map_values(
                |d: int| instance_at(*base, d),
            ),
        decreases rule.by_day@.len() - j,
    {
        let w = rule.by_day[j].index();
        let off: i64 = (w as i64 - bw as i64 + 7) % 7;
        let first: i64 = if off == 0 {
            base.start.day + step
        } else {
            base.start.day + off
        };
        let t = Track::Days { first, step };
        proof {
            assert((w - bw) % 7 == (w - bw + 7) % 7);
            assert(t == weekday_track(b, rule@.by_day[j as int], rule@.interval));
            assert(run(t, 0, hi as int, limit as int) == run(
                t,
                0,
                count_or(rule@, WEEKLY_CAP as int) - 1,
                limit as int,
            )) by {
                if count_or(rule@, WEEKLY_CAP as int) < 1 {
                    lemma_run_empty(t, 0, hi as int, limit as int);
                    lemma_run_empty(t, 0, count_or(rule@, WEEKLY_CAP as int) - 1, limit as int);
                }
            }
        }
        let ghost mid = out@;
        push_run(base, &t, 0, hi, limit, out);
        proof {
            let f = |d: int| instance_at(*base, d);
            let prev = by_day_dates(b, rule@, limit as int, j as int);
            let piece = run(t, 0, hi as int, limit as int);
            assert((prev + piece).map_values(f) =~= prev.map_values(f) + piece.map_values(f));
        }
        j += 1;
    }
}

proof fn lemma_run_empty(t: Track, k: int, hi: int, limit: int)
    requires
        k >= hi,
    ensures
        run(t, k, hi, limit) == Seq::<int>::empty(),
{
}

fn main_track_exec(base_day: i64, rule: &Rule) -> (r: Option<Track>)
    requires
        is_i32_day(base_day as int),
        rule.interval >= 1,
    ensures
        r == main_track(base_day as int, rule@),
        r matches Some(t) ==> match t {
            Track::Days { first, step } => -0x10_0000_0000 <= first <= 0x10_0000_0000 && 0
                <= step <= 0x10_0000_0000,
            Track::Months { year, month, day, step } => -0x10_0000_0000 <= year
                <= 0x10_0000_0000 && 0 <= step <= 0x10_0000_0000,
        },
{
    let interval = rule.interval as i64;
    match rule.frequency {
        Frequency::Daily => Some(Track::Days { first: base_day, step: interval }),
        Frequency::Weekly => Some(Track::Days { first: base_day, step: 7 * interval }),
        Frequency::Monthly => match civil_date(base_day) {
            Some((y, m, d)) => Some(Track::Months { year: y as i64, month: m, day: d, step: interval }),
            None => None,
        },
        Frequency::Yearly => match civil_date(base_day) {
            Some((y, m, d)) => Some(
                Track::Months { year: y as i64, month: m, day: d, step: 12 * interval },
            ),
            None => None,
        },
        Frequency::Other => None,
    }
}

/// Expands an event under its recurrence rule up to the day `horizon`.
///
/// The event itself always comes first. Each track then adds instances in
/// order until its count is reached or the next date lies after the horizon
/// or after `UNTIL`; weekday tracks of `BYDAY` follow one another in the
/// order of the rule.
pub fn expand(base: &Occurrence, rule: &Rule, horizon: i64) -> (r: Vec<Occurrence>)
    requires
        base.is_base(),
        rule.interval >= 1,
    ensures
        r@ == expansion_of(*base, rule@, horizon as int),
{
    let mut out: Vec<Occurrence> = Vec::new();
    out.push(*base);
    let limit: i64 = match rule.until {
        Some(u) => if u < horizon {
            u
        } else {
            horizon
        },
        None => horizon,
    };
    if rule.frequency == Frequency::Weekly && rule.by_day.len() > 0 {
        push_by_day(base, rule, limit, &mut out);
    } else {
        match main_track_exec(base.start.day, rule) {
            Some(t) => {
                let cap: u64 = match rule.frequency {
                    Frequency::Daily => DAILY_CAP as u64,
                    Frequency::Weekly => WEEKLY_CAP as u64,
                    Frequency::Monthly => MONTHLY_CAP as u64,
                    Frequency::Yearly => YEARLY_CAP as u64,
                    Frequency::Other => 0,
                };
                let n: u64 = match rule.count {
                    Some(c) => c as u64,
                    None => cap,
                };
                push_run(base, &t, 1, n + 1, limit, &mut out);
            },
            None => {},
        }
    }
    assert(out@ =~= expansion_of(*base, rule@, horizon as int));
    out
}

proof fn lemma_run_bounded(t: Track, k: int, hi: int, limit: int)
    ensures
        forall|i: int|
            0 <= i < run(t, k, hi, limit).len() ==> #[trigger] run(t, k, hi, limit)[i] <= limit
                && is_i32_day(run(t, k, hi, limit)[i]),
    decreases hi - k,
{
    if k < hi {
        lemma_run_bounded(t, k + 1, hi, limit);
        if let Some(d) = track_date(t, k) {
            if d <= limit {
                let rest = run(t, k + 1, hi, limit);
                assert forall|i: int| 0 <= i < (seq![d] + rest).len() implies #[trigger] (seq![d]
                    + rest)[i] <= limit && is_i32_day((seq![d] + rest)[i]) by {
                    if i > 0 {
                        assert((seq![d] + rest)[i] == rest[i - 1]);
                    }
                }
            }
        }
    }
}

proof fn lemma_run_len(t: Track, k: int, hi: int, limit: int)
    requires
        forall|j: int| k <= j < hi ==> (#[trigger] track_date(t, j) matches Some(d) && d <= limit),
    ensures
        run(t, k, hi, limit).len() == if k <= hi {
            hi - k
        } else {
            0
        },
    decreases hi - k,
{
    if k < hi {
        lemma_run_len(t, k + 1, hi, limit);
    }
}

proof fn lemma_by_day_bounded(base_day: int, r: RuleView, limit: int, j: int)
    ensures
        forall|i: int|
            0 <= i < by_day_dates(base_day, r, limit, j).len() ==> #[trigger] by_day_dates(
                base_day,
                r,
                limit,
                j,
            )[i] <= limit && is_i32_day(by_day_dates(base_day, r, limit, j)[i]),
    decreases j,
{
    if j > 0 {
        lemma_by_day_bounded(base_day, r, limit, j - 1);
        let prev = by_day_dates(base_day, r, limit, j - 1);
        let t = weekday_track(base_day, r.by_day[j - 1], r.interval);
        let piece = run(t, 0, count_or(r, WEEKLY_CAP as int) - 1, limit);
        lemma_run_bounded(t, 0, count_or(r, WEEKLY_CAP as int) - 1, limit);
        assert forall|i: int| 0 <= i < (prev + piece).len() implies #[trigger] (prev + piece)[i]
            <= limit && is_i32_day((prev + piece)[i]) by {
            if i >= prev.len() {
                assert((prev + piece)[i] == piece[i - prev.len()]);
            }
        }
    }
}

/// Every generated date lies within chrono's range, on or before the
/// horizon, and on or before `UNTIL` when the rule has one.
pub proof fn lemma_dates_within_limits(base_day: int, r: RuleView, horizon: int)
    ensures
        forall|i: int|
            0 <= i < dates_of(base_day, r, horizon).len() ==> {
                let d = #[trigger] dates_of(base_day, r, horizon)[i];
                &&& d <= horizon
                &&& (r.until matches Some(u) ==> d <= u)
                &&& is_i32_day(d)
            },
{
    let limit = limit_of(r, horizon);
    if r.frequency == Frequency::Weekly && r.by_day.len() > 0 {
        lemma_by_day_bounded(base_day, r, limit, r.by_day.len() as int);
    } else if let Some(t) = main_track(base_day, r) {
        lemma_run_bounded(t, 1, count_or(r, cap_of(r.frequency)) + 1, limit);
    }
}

/// Occurrences after the event itself never start after the horizon, nor
/// after `UNTIL`.
pub proof fn lemma_instances_within_horizon(base: Occurrence, r: RuleView, horizon: int)
    requires
        base.is_base(),
    ensures
        forall|i: int|
            1 <= i < expansion_of(base, r, horizon).len() ==> {
                let o = #[trigger] expansion_of(base, r, horizon)[i];
                &&& o.start.day <= horizon
                &&& (r.until matches Some(u) ==> o.start.day <= u)
            },
{
    let ds = dates_of(base.start.day as int, r, horizon);
    lemma_dates_within_limits(base.start.day as int, r, horizon);
    assert forall|i: int| 1 <= i < expansion_of(base, r, horizon).len() implies {
        let o = #[trigger] expansion_of(base, r, horizon)[i];
        &&& o.start.day <= horizon
        &&& (r.until matches Some(u) ==> o.start.day <= u)
    } by {
        assert(expansion_of(base, r, horizon)[i] == instance_at(base, ds[i - 1]));
        assert(is_i32_day(ds[i - 1]));
    }
}

/// Every occurrence lasts as long as the event it repeats.
pub proof fn lemma_duration_kept(base: Occurrence, r: RuleView, horizon: int)
    requires
        base.is_base(),
    ensures
        forall|i: int|
            0 <= i < expansion_of(base, r, horizon).len() ==> (#[trigger] expansion_of(
                base,
                r,
                horizon,
            )[i]).duration() == base.duration(),
{
    let ds = dates_of(base.start.day as int, r, horizon);
    lemma_dates_within_limits(base.start.day as int, r, horizon);
    assert forall|i: int| 0 <= i < expansion_of(base, r, horizon).len() implies (
    #[trigger] expansion_of(base, r, horizon)[i]).duration() == base.duration() by {
        if i > 0 {
            let d = ds[i - 1];
            assert(expansion_of(base, r, horizon)[i] == instance_at(base, d));
            assert(is_i32_day(d));
            let o = instance_at(base, d);
            assert(o.start.day == d);
            assert(o.end.day == d + (base.end.day - base.start.day));
            assert(o.duration() == base.duration()) by (nonlinear_arith)
                requires
                    o.start.day == d,
                    o.end.day == d + (base.end.day - base.start.day),
                    o.start.hour == base.start.hour,
                    o.start.minute == base.start.minute,
                    o.end.hour == base.end.hour,
                    o.end.minute == base.end.minute,
            ;
        }
    }
}

/// A rule without `BYDAY` and with `COUNT = n` gives exactly `n` instances
/// besides the event itself, when none of the `n` dates is cut off by the
/// horizon, by `UNTIL` or by the calendar's range.
pub proof fn lemma_count_exact(base: Occurrence, r: RuleView, horizon: int, n: int)
    requires
        base.is_base(),
        r.count == Some(n),
        n >= 0,
        r.by_day.len() == 0,
        main_track(base.start.day as int, r) matches Some(t) && forall|k: int|
            1 <= k <= n ==> (#[trigger] track_date(t, k) matches Some(d) && d <= limit_of(
                r,
                horizon,
            )),
    ensures
        expansion_of(base, r, horizon).len() == n + 1,
{
    let t = main_track(base.start.day as int, r)->Some_0;
    lemma_run_len(t, 1, n + 1, limit_of(r, horizon));
}

/// With `BYDAY` and `COUNT = n`, every weekday track adds `n - 1` instances
/// besides the event itself, when none of those dates is cut off.
pub proof fn lemma_by_day_count(base: Occurrence, r: RuleView, horizon: int, n: int)
    requires
        base.is_base(),
        r.frequency == Frequency::Weekly,
        r.by_day.len() > 0,
        r.count == Some(n),
        n >= 1,
        forall|j: int, k: int|
            0 <= j < r.by_day.len() && 0 <= k < n - 1 ==> (#[trigger] track_date(
                weekday_track(base.start.day as int, r.by_day[j], r.interval),
                k,
            ) matches Some(d) && d <= limit_of(r, horizon)),
    ensures
        expansion_of(base, r, horizon).len() == 1 + r.by_day.len() * (n - 1),
{
    lemma_by_day_len(base.start.day as int, r, limit_of(r, horizon), n, r.by_day.len() as int);
}

proof fn lemma_by_day_len(base_day: int, r: RuleView, limit: int, n: int, j: int)
    requires
        r.count == Some(n),
        n >= 1,
        0 <= j <= r.by_day.len(),
        forall|i: int, k: int|
            0 <= i < r.by_day.len() && 0 <= k < n - 1 ==> (#[trigger] track_date(
                weekday_track(base_day, r.by_day[i], r.interval),
                k,
            ) matches Some(d) && d <= limit),
    ensures
        by_day_dates(base_day, r, limit, j).len() == j * (n - 1),
    decreases j,
{
    if j > 0 {
        lemma_by_day_len(base_day, r, limit, n, j - 1);
        let t = weekday_track(base_day, r.by_day[j - 1], r.interval);
        assert forall|k: int| 0 <= k < n - 1 implies (#[trigger] track_date(t, k) matches Some(d)
            && d <= limit) by {
            assert(track_date(weekday_track(base_day, r.by_day[j - 1], r.interval), k) matches Some(
                d,
            ) && d <= limit);
        }
        lemma_run_len(t, 0, n - 1, limit);
        assert(count_or(r, WEEKLY_CAP as int) - 1 == n - 1);
        let prev = by_day_dates(base_day, r, limit, j - 1);
        let piece = run(t, 0, n - 1, limit);
        assert(by_day_dates(base_day, r, limit, j) == prev + piece);
        assert(j * (n - 1) == (j - 1) * (n - 1) + (n - 1)) by (nonlinear_arith);
    } else {
        assert(by_day_dates(base_day, r, limit, j).len() == 0);
        assert(j * (n - 1) == 0) by (nonlinear_arith)
            requires
                j == 0,
        ;
    }
}

} // verus!
