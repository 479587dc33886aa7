//! Reading `VEVENT` blocks out of iCalendar text.
use crate::text::after_char;
use crate::text::before_char;
use crate::text::chars_of;
use crate::text::contains;
use crate::text::copy_range;
use crate::text::equals_text;
use crate::text::holds_at;
use crate::text::matches_at;
use crate::text::occurs_in;
use crate::text::split_chars;
use crate::text::split_on;
use crate::text::split_once;
use crate::text::strip_cr;
use crate::text::strip_trailing_cr;
use crate::text::views;
use vstd::prelude::*;

verus! {

/// The fields of one `VEVENT` block, as written.
#[derive(Clone, Debug)]
pub struct RawEvent {
    /// Value of `DTSTART`.
    pub start: Vec<char>,
    /// Value of `DTEND`.
    pub end: Vec<char>,
    /// Whether `DTSTART` carries the parameter `VALUE=DATE`.
    pub all_day: bool,
    /// Value of `RRULE`, if the block has one.
    pub rule: Option<Vec<char>>,
}

/// What a [`RawEvent`] holds.
pub struct RawEventView {
    pub start: Seq<char>,
    pub end: Seq<char>,
    pub all_day: bool,
    pub rule: Option<Seq<char>>,
}

pub open spec fn opt_view(o: Option<Vec<char>>) -> Option<Seq<char>> {
    match o {
        Some(v) => Some(v@),
        None => None,
    }
}

impl View for RawEvent {
    type V = RawEventView;

    open spec fn view(&self) -> RawEventView {
        RawEventView {
            start: self.start@,
            end: self.end@,
            all_day: self.all_day,
            rule: opt_view(self.rule),
        }
    }
}

pub open spec fn empty_event() -> RawEventView {
    RawEventView { start: seq![], end: seq![], all_day: false, rule: None }
}

/// Whether a finished block is passed on: both times at least fifteen
/// characters long (a full date and time), and not an all-day event.
pub open spec fn is_kept(e: RawEventView) -> bool {
    e.start.len() >= 15 && e.end.len() >= 15 && !e.all_day
}

/// The scanner's state after a line: whether it is inside a block, the
/// fields gathered so far, and the event that the line finished, if kept.
pub open spec fn scan_step(inside: bool, cur: RawEventView, line: Seq<char>) -> (
    bool,
    RawEventView,
    Option<RawEventView>,
) {
    if line == "BEGIN:VEVENT"@ {
        (true, empty_event(), None)
    } else if !inside {
        (inside, cur, None)
    } else if line == "END:VEVENT"@ {
        (false, cur, if is_kept(cur) { Some(cur) } else { None })
    } else if holds_at(line, 0, "DTSTART"@) {
        (
            true,
            RawEventView {
                start: after_char(line, ':'),
                all_day: occurs_in(before_char(line, ':'), "VALUE=DATE"@),
                ..cur
            },
            None,
        )
    } else if holds_at(line, 0, "DTEND"@) {
        (true, RawEventView { end: after_char(line, ':'), ..cur }, None)
    } else if holds_at(line, 0, "RRULE:"@) {
        (true, RawEventView { rule: Some(line.subrange(6, line.len() as int)), ..cur }, None)
    } else {
        (inside, cur, None)
    }
}

/// The events kept from the first `n` lines, and the scanner's state after them.
pub open spec fn scan_lines(lines: Seq<Seq<char>>, n: nat) -> (Seq<RawEventView>, bool, RawEventView)
    decreases n,
{
    if n == 0 {
        (seq![], false, empty_event())
    } else {
        let (done, inside, cur) = scan_lines(lines, (n - 1) as nat);
        let (inside2, cur2, out) = scan_step(inside, cur, lines[n - 1]);
        match out {
            Some(e) => (done.push(e), inside2, cur2),
            None => (done, inside2, cur2),
        }
    }
}

/// The lines of a text, without their line ends.
pub open spec fn lines_of(text: Seq<char>) -> Seq<Seq<char>> {
    split_on(text, '\n').map_values(|l: Seq<char>| strip_cr(l))
}

/// The events that a calendar text holds, in order.
pub open spec fn events_of(text: Seq<char>) -> Seq<RawEventView> {
    let lines = lines_of(text);
    scan_lines(lines, lines.len()).0
}

fn copy_event(e: &RawEvent) -> (r: RawEvent)
    ensures
        r@ == e@,
{
    let rule = match &e.rule {
        Some(v) => Some(copy_range(v, 0, v.len())),
        None => None,
    };
    proof {
        assert(e.start@.subrange(0, e.start@.len() as int) =~= e.start@);
        assert(e.end@.subrange(0, e.end@.len() as int) =~= e.end@);
        if let Some(v) = &e.rule {
            assert(v@.subrange(0, v@.len() as int) =~= v@);
        }
    }
    RawEvent {
        start: copy_range(&e.start, 0, e.start.len()),
        end: copy_range(&e.end, 0, e.end.len()),
        all_day: e.all_day,
        rule,
    }
}

/// Reads the `VEVENT` blocks of a calendar text. A block is kept when its
/// `DTSTART` and `DTEND` are each at least fifteen characters long and it is
/// not an all-day event; other blocks are dropped without an error.
pub fn parse_ics(text: &str) -> (r: Vec<RawEvent>)
    ensures
        r@.map_values(|e: RawEvent| e@) == events_of(text@),
        forall|i: int| 0 <= i < r@.len() ==> !(#[trigger] r@[i]).all_day,
        forall|i: int| 0 <= i < r@.len() ==> is_kept((#[trigger] r@[i])@),
{
    let chars = chars_of(text);
    let raw_lines = split_chars(&chars, '\n');
    let ghost lines = lines_of(text@);
    assert(lines.len() == raw_lines@.len());
    let mut out: Vec<RawEvent> = Vec::new();
    let mut inside = false;
    let mut cur = RawEvent { start: Vec::new(), end: Vec::new(), all_day: false, rule: None };
    let mut i: usize = 0;
    assert(cur@ == empty_event());
    while i < raw_lines.len()
        invariant
            i <= raw_lines@.len(),
            lines == lines_of(text@),
            lines.len() == raw_lines@.len(),
            views(raw_lines@) == split_on(text@, '\n'),
            (out@.map_values(|e: RawEvent| e@), inside, cur@) == scan_lines(lines, i as nat),
            forall|k: int| 0 <= k < out@.len() ==> is_kept((#[trigger] out@[k])@),
        decreases raw_lines@.len() - i,
    {
        let mut line = copy_range(&raw_lines[i], 0, raw_lines[i].len());
        strip_trailing_cr(&mut line);
        proof {
            assert(raw_lines@[i as int]@.subrange(0, raw_lines@[i as int]@.len() as int)
                =~= raw_lines@[i as int]@);
            assert(views(raw_lines@)[i as int] == raw_lines@[i as int]@);
            assert(line@ == lines[i as int]);
        }
        let ghost before = out@.map_values(|e: RawEvent| e@);
        if equals_text(&line, "BEGIN:VEVENT") {
            inside = true;
            cur = RawEvent { start: Vec::new(), end: Vec::new(), all_day: false, rule: None };
            assert(cur@ == empty_event());
        } else if !inside {
        } else if equals_text(&line, "END:VEVENT") {
            inside = false;
            if cur.start.len() >= 15 && cur.end.len() >= 15 && !cur.all_day {
                out.push(copy_event(&cur));
                assert(out@.map_values(|e: RawEvent| e@) =~= before.push(cur@));
            }
        } else if matches_at(&line, 0, "DTSTART") {
            let (name, value) = split_once(&line, ':');
            cur.all_day = contains(&name, "VALUE=DATE");
            cur.start = value;
        } else if matches_at(&line, 0, "DTEND") {
            let (_name, value) = split_once(&line, ':');
            cur.end = value;
        } else if matches_at(&line, 0, "RRULE:") {
            proof {
                reveal_strlit("RRULE:");
            }
            cur.rule = Some(copy_range(&line, 6, line.len()));
        }
        i += 1;
    }
    assert forall|k: int| 0 <= k < out@.len() implies !(#[trigger] out@[k]).all_day by {
        assert(is_kept(out@[k]@));
    }
    out
}

/// Every event that the scanner passes on is kept by its rule, so none is an
/// all-day event.
pub proof fn lemma_no_all_day_event(text: Seq<char>)
    ensures
        forall|i: int| 0 <= i < events_of(text).len() ==> !(#[trigger] events_of(text)[i]).all_day,
        forall|i: int| 0 <= i < events_of(text).len() ==> is_kept(#[trigger] events_of(text)[i]),
{
    let lines = lines_of(text);
    lemma_scan_kept(lines, lines.len());
    assert forall|i: int| 0 <= i < events_of(text).len() implies !(
    #[trigger] events_of(text)[i]).all_day by {
        assert(is_kept(events_of(text)[i]));
    }
}

proof fn lemma_scan_kept(lines: Seq<Seq<char>>, n: nat)
    ensures
        forall|i: int| 0 <= i < scan_lines(lines, n).0.len() ==> is_kept(
            #[trigger] scan_lines(lines, n).0[i],
        ),
    decreases n,
{
    if n > 0 {
        lemma_scan_kept(lines, (n - 1) as nat);
        let (done, inside, cur) = scan_lines(lines, (n - 1) as nat);
        let (inside2, cur2, out) = scan_step(inside, cur, lines[n - 1]);
        if let Some(e) = out {
            assert forall|i: int| 0 <= i < done.push(e).len() implies is_kept(
                #[trigger] done.push(e)[i],
            ) by {
                if i < done.len() {
                    assert(done.push(e)[i] == done[i]);
                }
            }
        }
    }
}

} // verus!
