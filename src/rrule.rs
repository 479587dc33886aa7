//! Recurrence rules (`RRULE` values).
use crate::civil::ce_day;
use crate::civil::ce_day_of;
use crate::stamp::field_value;
use crate::text::after_char;
use crate::text::all_digits;
use crate::text::all_digits_in;
use crate::text::before_char;
use crate::text::count_of;
use crate::text::digits_value;
use crate::text::equals_text;
use crate::text::parse_count;
use crate::text::split_chars;
use crate::text::split_on;
use crate::text::split_once;
use crate::text::views;
use vstd::prelude::*;

verus! {

/// How often a rule repeats. `Other` stands for a `FREQ` value that is not
/// one of the four known ones; such a rule expands to nothing.
#[derive(Clone, Copy, Debug, PartialEq, Eq, Structural)]
pub enum Frequency {
    Daily,
    Weekly,
    Monthly,
    Yearly,
    Other,
}

/// A day of the week, as the two-letter codes of `BYDAY` name it.
#[derive(Clone, Copy, Debug, PartialEq, Eq, Structural)]
pub enum Weekday {
    Su,
    Mo,
    Tu,
    We,
    Th,
    Fr,
    Sa,
}

impl Weekday {
    /// 0 for Sunday through 6 for Saturday.
    pub open spec fn index_of(self) -> int {
        match self {
            Weekday::Su => 0,
            Weekday::Mo => 1,
            Weekday::Tu => 2,
            Weekday::We => 3,
            Weekday::Th => 4,
            Weekday::Fr => 5,
            Weekday::Sa => 6,
        }
    }

    pub fn index(self) -> (r: u32)
        ensures
            r == self.index_of(),
            r < 7,
    {
        match self {
            Weekday::Su => 0,
            Weekday::Mo => 1,
            Weekday::Tu => 2,
            Weekday::We => 3,
            Weekday::Th => 4,
            Weekday::Fr => 5,
            Weekday::Sa => 6,
        }
    }
}

/// A parsed recurrence rule. `until` is a day number; `interval` is at least 1.
#[derive(Clone, Debug)]
pub struct Rule {
    pub frequency: Frequency,
    pub interval: u32,
    pub by_day: Vec<Weekday>,
    pub until: Option<i64>,
    pub count: Option<u32>,
}

/// What a [`Rule`] holds.
pub struct RuleView {
    pub frequency: Frequency,
    pub interval: int,
    pub by_day: Seq<Weekday>,
    pub until: Option<int>,
    pub count: Option<int>,
}

impl View for Rule {
    type V = RuleView;

    open spec fn view(&self) -> RuleView {
        RuleView {
            frequency: self.frequency,
            interval: self.interval as int,
            by_day: self.by_day@,
            until: match self.until {
                Some(d) => Some(d as int),
                None => None,
            },
            count: match self.count {
                Some(n) => Some(n as int),
                None => None,
            },
        }
    }
}

/// The value of the last `KEY=VALUE` pair whose key is `key`.
pub open spec fn field_of(parts: Seq<Seq<char>>, key: Seq<char>) -> Option<Seq<char>>
    decreases parts.len(),
{
    if parts.len() == 0 {
        None
    } else if before_char(parts.last(), '=') == key {
        Some(after_char(parts.last(), '='))
    } else {
        field_of(parts.drop_last(), key)
    }
}

pub open spec fn frequency_of(v: Seq<char>) -> Frequency {
    if v == "DAILY"@ {
        Frequency::Daily
    } else if v == "WEEKLY"@ {
        Frequency::Weekly
    } else if v == "MONTHLY"@ {
        Frequency::Monthly
    } else if v == "YEARLY"@ {
        Frequency::Yearly
    } else {
        Frequency::Other
    }
}

pub open spec fn weekday_code_of(c: Seq<char>) -> Option<Weekday> {
    if c == "SU"@ {
        Some(Weekday::Su)
    } else if c == "MO"@ {
        Some(Weekday::Mo)
    } else if c == "TU"@ {
        Some(Weekday::Tu)
    } else if c == "WE"@ {
        Some(Weekday::We)
    } else if c == "TH"@ {
        Some(Weekday::Th)
    } else if c == "FR"@ {
        Some(Weekday::Fr)
    } else if c == "SA"@ {
        Some(Weekday::Sa)
    } else {
        None
    }
}

/// The weekdays that a list of codes names, in order; unknown codes are left out.
pub open spec fn weekdays_of(codes: Seq<Seq<char>>) -> Seq<Weekday>
    decreases codes.len(),
{
    if codes.len() == 0 {
        seq![]
    } else {
        let rest = weekdays_of(codes.drop_last());
        match weekday_code_of(codes.last()) {
            Some(w) => rest.push(w),
            None => rest,
        }
    }
}

/// The day number of an `UNTIL` value: its date part (up to a `T`) must be
/// `YYYYMMDD` and name an existing date.
pub open spec fn until_of(v: Seq<char>) -> Option<int> {
    let date = before_char(v, 'T');
    if date.len() == 8 && all_digits(date) {
        ce_day_of(field_value(date, 0, 4), field_value(date, 4, 6), field_value(date, 6, 8))
    } else {
        None
    }
}

/// `INTERVAL`: a positive count, else 1.
pub open spec fn interval_of(v: Option<Seq<char>>) -> int {
    match v {
        Some(t) => match count_of(t) {
            Some(n) => if n > 0 {
                n
            } else {
                1
            },
            None => 1,
        },
        None => 1,
    }
}

/// The rule that an `RRULE` value states, or `None` when it has no `FREQ`.
pub open spec fn rule_of(text: Seq<char>) -> Option<RuleView> {
    let parts = split_on(text, ';');
    match field_of(parts, "FREQ"@) {
        None => None,
        Some(f) => Some(
            RuleView {
                frequency: frequency_of(f),
                interval: interval_of(field_of(parts, "INTERVAL"@)),
                by_day: match field_of(parts, "BYDAY"@) {
                    Some(v) => weekdays_of(split_on(v, ',')),
                    None => seq![],
                },
                until: match field_of(parts, "UNTIL"@) {
                    Some(v) => until_of(v),
                    None => None,
                },
                count: match field_of(parts, "COUNT"@) {
                    Some(v) => count_of(v),
                    None => None,
                },
            },
        ),
    }
}

fn find_field(parts: &Vec<Vec<char>>, key: &str) -> (r: Option<Vec<char>>)
    ensures
        match r {
            Some(v) => field_of(views(parts@), key@) == Some(v@),
            None => field_of(views(parts@), key@) is None,
        },
{
    let mut j: usize = parts.len();
    assert(views(parts@).take(j as int) =~= views(parts@));
    while j > 0
        invariant
            j <= parts@.len(),
            field_of(views(parts@), key@) == field_of(views(parts@).take(j as int), key@),
        decreases j,
    {
        let ghost prefix = views(parts@).take(j as int);
        assert(prefix.last() == parts@[j - 1]@);
        assert(prefix.drop_last() =~= views(parts@).take(j - 1));
        let (k, v) = split_once(&parts[j - 1], '=');
        if equals_text(&k, key) {
            return Some(v);
        }
        j -= 1;
    }
    assert(views(parts@).take(0).len() == 0);
    None
}

fn weekday_code(c: &Vec<char>) -> (r: Option<Weekday>)
    ensures
        r == weekday_code_of(c@),
{
    if equals_text(c, "SU") {
        Some(Weekday::Su)
    } else if equals_text(c, "MO") {
        Some(Weekday::Mo)
    } else if equals_text(c, "TU") {
        Some(Weekday::Tu)
    } else if equals_text(c, "WE") {
        Some(Weekday::We)
    } else if equals_text(c, "TH") {
        Some(Weekday::Th)
    } else if equals_text(c, "FR") {
        Some(Weekday::Fr)
    } else if equals_text(c, "SA") {
        Some(Weekday::Sa)
    } else {
        None
    }
}

fn weekdays(v: &Vec<char>) -> (r: Vec<Weekday>)
    ensures
        r@ == weekdays_of(split_on(v@, ',')),
{
    let codes = split_chars(v, ',');
    let ghost cs = views(codes@);
    let mut r: Vec<Weekday> = Vec::new();
    let mut i: usize = 0;
    while i < codes.len()
        invariant
            i <= codes@.len(),
            cs == views(codes@),
            cs == split_on(v@, ','),
            r@ == weekdays_of(cs.take(i as int)),
        decreases codes@.len() - i,
    {
        assert(cs.take(i + 1).drop_last() =~= cs.take(i as int));
        assert(cs.take(i + 1).last() == codes@[i as int]@);
        match weekday_code(&codes[i]) {
            Some(w) => r.push(w),
            None => {},
        }
        i += 1;
    }
    assert(cs.take(codes@.len() as int) =~= cs);
    r
}

fn until_day(v: &Vec<char>) -> (r: Option<i64>)
    ensures
        match r {
            Some(d) => until_of(v@) == Some(d as int),
            None => until_of(v@) is None,
        },
{
    let (date, _time) = split_once(v, 'T');
    if date.len() != 8 || !all_digits_in(&date, 0, 8) {
        proof {
            if date@.len() == 8 {
                assert(date@.subrange(0, 8) =~= date@);
            }
        }
        return None;
    }
    proof {
        assert(date@.subrange(0, 8) =~= date@);
        crate::stamp::lemma_digits_sub(date@, 0, 8, 0, 4);
        crate::stamp::lemma_digits_sub(date@, 0, 8, 4, 6);
        crate::stamp::lemma_digits_sub(date@, 0, 8, 6, 8);
        crate::stamp::lemma_small_field(date@, 0, 4);
    }
    let year = digits_value(&date, 0, 4);
    let month = digits_value(&date, 4, 6);
    let day = digits_value(&date, 6, 8);
    match ce_day(year as i32, month, day) {
        Some(n) => Some(n as i64),
        None => None,
    }
}

/// Reads an `RRULE` value: semicolon-separated `KEY=VALUE` pairs, where the
/// last pair of a key counts and unknown keys are ignored. `None` when there
/// is no `FREQ`.
pub fn parse_rule(text: &Vec<char>) -> (r: Option<Rule>)
    ensures
        match r {
            Some(rule) => rule_of(text@) == Some(rule@) && rule.interval >= 1,
            None => rule_of(text@) is None,
        },
{
    let parts = split_chars(text, ';');
    let freq = match find_field(&parts, "FREQ") {
        Some(f) => f,
        None => return None,
    };
    let frequency = if equals_text(&freq, "DAILY") {
        Frequency::Daily
    } else if equals_text(&freq, "WEEKLY") {
        Frequency::Weekly
    } else if equals_text(&freq, "MONTHLY") {
        Frequency::Monthly
    } else if equals_text(&freq, "YEARLY") {
        Frequency::Yearly
    } else {
        Frequency::Other
    };
    let interval: u32 = match find_field(&parts, "INTERVAL") {
        Some(v) => match parse_count(&v) {
            Some(n) => if n > 0 {
                n
            } else {
                1
            },
            None => 1,
        },
        None => 1,
    };
    let by_day = match find_field(&parts, "BYDAY") {
        Some(v) => weekdays(&v),
        None => Vec::new(),
    };
    let until = match find_field(&parts, "UNTIL") {
        Some(v) => until_day(&v),
        None => None,
    };
    let count = match find_field(&parts, "COUNT") {
        Some(v) => parse_count(&v),
        None => None,
    };
    let rule = Rule { frequency, interval, by_day, until, count };
    assert(rule@.by_day =~= rule_of(text@)->Some_0.by_day);
    Some(rule)
}

} // verus!
