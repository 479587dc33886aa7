//! From calendar text to the list of busy occurrences.
use crate::expand::expand;
use crate::expand::expansion_of;
use crate::expand::Occurrence;
use crate::ics::events_of;
use crate::ics::parse_ics;
use crate::ics::RawEvent;
use crate::ics::RawEventView;
use crate::rrule::parse_rule;
use crate::rrule::rule_of;
use crate::stamp::parse_stamp;
use crate::stamp::stamp_of;
use vstd::prelude::*;

verus! {

/// The text under the key `contents` when `text` is a JSON object that holds
/// a string there.
pub uninterp spec fn envelope_contents_of(text: Seq<char>) -> Option<Seq<char>>;

/// Relies on `serde_json::from_str` into a `serde_json::Value`, with
/// `Value::get` and `Value::as_str`: the string stored under `contents`, if
/// the text is JSON holding one.
#[verifier::external_body]
fn envelope_contents(text: &str) -> (r: Option<String>)
    ensures
        match r {
            Some(c) => envelope_contents_of(text@) == Some(c@),
            None => envelope_contents_of(text@) is None,
        },
{
    let value: serde_json::Value = serde_json::from_str(text).ok()?;
    value.get("contents")?.as_str().map(|c| c.to_string())
}

/// The calendar text inside a relay's reply: the `contents` of a JSON
/// envelope, or the reply itself when it is not one.
pub open spec fn unwrapped_of(text: Seq<char>) -> Seq<char> {
    match envelope_contents_of(text) {
        Some(c) => c,
        None => text,
    }
}

pub fn unwrap_envelope(text: &str) -> (r: String)
    ensures
        r@ == unwrapped_of(text@),
{
    match envelope_contents(text) {
        Some(c) => c,
        None => text.to_owned(),
    }
}

/// The event that a kept block describes, when both of its times can be read.
pub open spec fn event_of(e: RawEventView) -> Option<Occurrence> {
    match (stamp_of(e.start), stamp_of(e.end)) {
        (Some(s), Some(t)) => Some(Occurrence { start: s, end: t }),
        _ => None,
    }
}

/// The occurrences of one block: none when its times cannot be read, the
/// event alone when it has no rule or a rule without `FREQ`, and else its
/// expansion up to the horizon.
pub open spec fn block_occurrences(e: RawEventView, horizon: int) -> Seq<Occurrence> {
    match event_of(e) {
        None => seq![],
        Some(o) => match e.rule {
            None => seq![o],
            Some(text) => match rule_of(text) {
                None => seq![o],
                Some(r) => expansion_of(o, r, horizon),
            },
        },
    }
}

/// The occurrences of a list of blocks, block after block.
pub open spec fn blocks_occurrences(es: Seq<RawEventView>, horizon: int) -> Seq<Occurrence>
    decreases es.len(),
{
    if es.len() == 0 {
        seq![]
    } else {
        blocks_occurrences(es.drop_last(), horizon) + block_occurrences(es.last(), horizon)
    }
}

/// The occurrences that a calendar text describes up to the day `horizon`.
pub open spec fn calendar_of(text: Seq<char>, horizon: int) -> Seq<Occurrence> {
    blocks_occurrences(events_of(text), horizon)
}

/// Reads the times of a block.
pub fn read_event(e: &RawEvent) -> (r: Option<Occurrence>)
    ensures
        r == event_of(e@),
        r matches Some(o) ==> o.is_base(),
{
    match (parse_stamp(&e.start), parse_stamp(&e.end)) {
        (Some(s), Some(t)) => Some(Occurrence { start: s, end: t }),
        _ => None,
    }
}

/// The occurrences of one block up to the day `horizon`.
pub fn occurrences_of(e: &RawEvent, horizon: i64) -> (r: Vec<Occurrence>)
    ensures
        r@ == block_occurrences(e@, horizon as int),
{
    match read_event(e) {
        None => Vec::new(),
        Some(o) => match &e.rule {
            None => vec![o],
            Some(text) => match parse_rule(text) {
                None => vec![o],
                Some(rule) => expand(&o, &rule, horizon),
            },
        },
    }
}

/// Reads a calendar text and lists its busy occurrences up to the day
/// `horizon`: block by block, each event followed by its recurrences.
pub fn calendar_occurrences(text: &str, horizon: i64) -> (r: Vec<Occurrence>)
    ensures
        r@ == calendar_of(text@, horizon as int),
{
    let events = parse_ics(text);
    let ghost es = events@.map_values(|e: RawEvent| e@);
    let mut out: Vec<Occurrence> = Vec::new();
    let mut i: usize = 0;
    while i < events.len()
        invariant
            i <= events@.len(),
            es == events@.map_values(|e: RawEvent| e@),
            es == events_of(text@),
            out@ == blocks_occurrences(es.take(i as int), horizon as int),
        decreases events@.len() - i,
    {
        let mut more = occurrences_of(&events[i], horizon);
        proof {
            assert(es.take(i + 1).drop_last() =~= es.take(i as int));
            assert(es.take(i + 1).last() == events@[i as int]@);
        }
        out.append(&mut more);
        i += 1;
    }
    assert(es.take(events@.len() as int) =~= es);
    out
}

/// The occurrences of several calendar replies, one after another; each
/// reply may be wrapped in a relay's JSON envelope.
pub open spec fn feeds_of(replies: Seq<Seq<char>>, horizon: int) -> Seq<Occurrence>
    decreases replies.len(),
{
    if replies.len() == 0 {
        seq![]
    } else {
        feeds_of(replies.drop_last(), horizon) + calendar_of(
            unwrapped_of(replies.last()),
            horizon,
        )
    }
}

pub fn combine_feeds(replies: &Vec<String>, horizon: i64) -> (r: Vec<Occurrence>)
    ensures
        r@ == feeds_of(replies@.map_values(|s: String| s@), horizon as int),
{
    let ghost rs = replies@.map_values(|s: String| s@);
    let mut out: Vec<Occurrence> = Vec::new();
    let mut i: usize = 0;
    while i < replies.len()
        invariant
            i <= replies@.len(),
            rs == replies@.map_values(|s: String| s@),
            out@ == feeds_of(rs.take(i as int), horizon as int),
        decreases replies@.len() - i,
    {
        let text = unwrap_envelope(replies[i].as_str());
        let mut more = calendar_occurrences(text.as_str(), horizon);
        proof {
            assert(rs.take(i + 1).drop_last() =~= rs.take(i as int));
            assert(rs.take(i + 1).last() == replies@[i as int]@);
        }
        out.append(&mut more);
        i += 1;
    }
    assert(rs.take(replies@.len() as int) =~= rs);
    out
}

} // verus!
