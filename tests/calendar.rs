use homepage::civil::date_key;
use homepage::civil::day_number;
use homepage::civil::horizon_day;
use homepage::civil::weekday;
use homepage::expand::expand;
use homepage::expand::Occurrence;
use homepage::feed::calendar_occurrences;
use homepage::feed::combine_feeds;
use homepage::feed::unwrap_envelope;
use homepage::ics::parse_ics;
use homepage::rrule::parse_rule;
use homepage::rrule::Frequency;
use homepage::rrule::Weekday;
use homepage::stamp::normalize_stamp;
use homepage::stamp::parse_stamp;
use homepage::stamp::shift;
use homepage::stamp::LocalTime;
use homepage::stamp::Stamp;

fn chars(s: &str) -> Vec<char> {
    s.chars().collect()
}

fn day(y: i32, m: u32, d: u32) -> i64 {
    day_number(y, m, d).unwrap()
}

fn keys(occs: &[Occurrence]) -> Vec<u32> {
    occs.iter().map(|o| date_key(o.start.day).unwrap()).collect()
}

fn ics(body: &str) -> String {
    format!(
        "BEGIN:VCALENDAR\r\nVERSION:2.0\r\nBEGIN:VEVENT\r\n{}\r\nEND:VEVENT\r\nEND:VCALENDAR\r\n",
        body
    )
}

#[test]
fn weekly_by_day_scenario() {
    let text = ics(
        "DTSTART:20240805T140000Z\r\nDTEND:20240805T150000Z\r\nRRULE:FREQ=WEEKLY;BYDAY=MO,WE;COUNT=3",
    );
    let today = day(2024, 8, 5);
    let horizon = horizon_day(today as i32, 5);
    let occs = calendar_occurrences(&text, horizon);
    assert_eq!(keys(&occs), vec![20240805, 20240812, 20240819, 20240807, 20240814]);
    let mut sorted = keys(&occs);
    sorted.sort();
    assert_eq!(sorted, vec![20240805, 20240807, 20240812, 20240814, 20240819]);
    for o in &occs {
        assert_eq!((o.start.hour, o.start.minute), (14, 0));
        assert_eq!((o.end.hour, o.end.minute), (15, 0));
        assert!(o.start.utc && o.end.utc);
    }
}

#[test]
fn weekday_numbering_starts_on_sunday() {
    assert_eq!(weekday(day(2024, 8, 5)), 1);
    assert_eq!(weekday(day(2024, 8, 4)), 0);
    assert_eq!(weekday(day(2024, 8, 10)), 6);
    assert_eq!(weekday(day(1, 1, 1)), 1);
}

#[test]
fn horizon_is_saturday_of_last_week() {
    let today = day(2024, 8, 7);
    assert_eq!(date_key(horizon_day(today as i32, 0)), Some(20240810));
    assert_eq!(date_key(horizon_day(today as i32, 5)), Some(20240914));
}

#[test]
fn day_numbers_follow_chrono() {
    assert_eq!(day_number(1970, 1, 1), Some(719_163));
    assert_eq!(day_number(2023, 2, 29), None);
    assert_eq!(date_key(719_163), Some(19700101));
}

#[test]
fn all_day_events_are_dropped() {
    let text = ics("DTSTART;VALUE=DATE:20240805\r\nDTEND;VALUE=DATE:20240806");
    assert!(parse_ics(&text).is_empty());
    let long = ics("DTSTART;VALUE=DATE:20240805T000000\r\nDTEND:20240806T000000");
    assert!(parse_ics(&long).is_empty());
    assert!(calendar_occurrences(&long, i64::MAX).is_empty());
}

#[test]
fn short_times_are_dropped() {
    let text = ics("DTSTART:20240805\r\nDTEND:20240805T150000Z");
    assert!(parse_ics(&text).is_empty());
}

#[test]
fn fields_are_read_from_blocks() {
    let text = "BEGIN:VEVENT\nDTSTART;TZID=America/New_York:20240805T090000\nDTEND;TZID=America/New_York:20240805T093000\nRRULE:FREQ=DAILY;COUNT=2\nEND:VEVENT\nDTSTART:20990101T000000Z\n";
    let evs = parse_ics(text);
    assert_eq!(evs.len(), 1);
    assert_eq!(evs[0].start, chars("20240805T090000"));
    assert_eq!(evs[0].end, chars("20240805T093000"));
    assert!(!evs[0].all_day);
    assert_eq!(evs[0].rule, Some(chars("FREQ=DAILY;COUNT=2")));
}

#[test]
fn stamps_are_read() {
    let s = parse_stamp(&chars("20240805T140509Z")).unwrap();
    assert_eq!(s.day, day(2024, 8, 5));
    assert_eq!((s.hour, s.minute, s.second, s.utc), (14, 5, 9, true));
    let local = parse_stamp(&chars("20240805T140509")).unwrap();
    assert!(!local.utc);
    assert_eq!(parse_stamp(&chars("20240805T240000")), None);
    assert_eq!(parse_stamp(&chars("20230229T100000")), None);
    assert_eq!(parse_stamp(&chars("2024080ST100000")), None);
}

#[test]
fn rules_are_read() {
    let r = parse_rule(&chars("FREQ=WEEKLY;INTERVAL=2;BYDAY=MO,XX,FR;UNTIL=20241231T235959Z;COUNT=4")).unwrap();
    assert_eq!(r.frequency, Frequency::Weekly);
    assert_eq!(r.interval, 2);
    assert_eq!(r.by_day, vec![Weekday::Mo, Weekday::Fr]);
    assert_eq!(r.until, Some(day(2024, 12, 31)));
    assert_eq!(r.count, Some(4));
    let d = parse_rule(&chars("FREQ=HOURLY;INTERVAL=x;FOO=1")).unwrap();
    assert_eq!(d.frequency, Frequency::Other);
    assert_eq!(d.interval, 1);
    assert!(d.by_day.is_empty());
    assert_eq!(d.until, None);
    assert_eq!(d.count, None);
    assert!(parse_rule(&chars("COUNT=3;INTERVAL=2")).is_none());
    assert_eq!(parse_rule(&chars("FREQ=DAILY;INTERVAL=0")).unwrap().interval, 1);
}

fn base(start: &str, end: &str) -> Occurrence {
    Occurrence { start: parse_stamp(&chars(start)).unwrap(), end: parse_stamp(&chars(end)).unwrap() }
}

#[test]
fn count_gives_that_many_instances() {
    let b = base("20240805T140000Z", "20240805T150000Z");
    for n in [0u32, 1, 5, 12] {
        let rule = parse_rule(&chars(&format!("FREQ=DAILY;COUNT={}", n))).unwrap();
        assert_eq!(expand(&b, &rule, day(2030, 1, 1)).len(), n as usize + 1);
        let weekly = parse_rule(&chars(&format!("FREQ=WEEKLY;COUNT={}", n))).unwrap();
        assert_eq!(expand(&b, &weekly, day(2030, 1, 1)).len(), n as usize + 1);
    }
}

#[test]
fn horizon_cuts_before_exceeding() {
    let b = base("20240805T140000Z", "20240805T150000Z");
    let rule = parse_rule(&chars("FREQ=DAILY;COUNT=100")).unwrap();
    let horizon = day(2024, 8, 10);
    let occs = expand(&b, &rule, horizon);
    assert_eq!(keys(&occs), vec![20240805, 20240806, 20240807, 20240808, 20240809, 20240810]);
    let base_past = expand(&b, &rule, day(2024, 8, 1));
    assert_eq!(base_past.len(), 1);
}

#[test]
fn until_stops_generation() {
    let b = base("20240805T140000Z", "20240805T150000Z");
    let rule = parse_rule(&chars("FREQ=WEEKLY;UNTIL=20240820")).unwrap();
    assert_eq!(keys(&expand(&b, &rule, day(2030, 1, 1))), vec![20240805, 20240812, 20240819]);
}

#[test]
fn default_caps_apply() {
    let b = base("20240105T140000Z", "20240105T150000Z");
    let far = day(2999, 1, 1);
    let cases = [("FREQ=DAILY", 201), ("FREQ=WEEKLY", 31), ("FREQ=MONTHLY", 9), ("FREQ=YEARLY", 4), ("FREQ=SECONDLY", 1)];
    for (text, n) in cases {
        assert_eq!(expand(&b, &parse_rule(&chars(text)).unwrap(), far).len(), n);
    }
}

#[test]
fn monthly_and_yearly_clamp_to_month_end() {
    let b = base("20240131T100000", "20240131T110000");
    let rule = parse_rule(&chars("FREQ=MONTHLY;COUNT=3")).unwrap();
    assert_eq!(keys(&expand(&b, &rule, day(2030, 1, 1))), vec![20240131, 20240229, 20240331, 20240430]);
    let leap = base("20240229T100000", "20240229T110000");
    let yearly = parse_rule(&chars("FREQ=YEARLY;INTERVAL=2;COUNT=2")).unwrap();
    assert_eq!(keys(&expand(&leap, &yearly, day(2030, 1, 1))), vec![20240229, 20260228, 20280229]);
}

#[test]
fn durations_are_kept() {
    let b = base("20240805T233000Z", "20240806T011500Z");
    let minutes = |o: &Occurrence| {
        (o.end.day - o.start.day) * 1440 + (o.end.hour as i64 * 60 + o.end.minute as i64)
            - (o.start.hour as i64 * 60 + o.start.minute as i64)
    };
    for text in ["FREQ=DAILY;COUNT=3", "FREQ=WEEKLY;BYDAY=TU,SA;COUNT=3", "FREQ=MONTHLY;COUNT=3", "FREQ=YEARLY;COUNT=2"] {
        let occs = expand(&b, &parse_rule(&chars(text)).unwrap(), day(2030, 1, 1));
        assert!(occs.len() > 1);
        for o in &occs {
            assert_eq!(minutes(o), 105);
            assert_eq!(o.end.second, b.end.second);
        }
    }
}

#[test]
fn non_recurring_and_broken_rules_give_the_event() {
    let text = ics("DTSTART:20240805T140000Z\r\nDTEND:20240805T150000Z\r\nRRULE:COUNT=3");
    assert_eq!(calendar_occurrences(&text, i64::MAX).len(), 1);
    let plain = ics("DTSTART:20240805T140000Z\r\nDTEND:20240805T150000Z");
    assert_eq!(calendar_occurrences(&plain, i64::MAX).len(), 1);
}

#[test]
fn envelopes_are_unwrapped() {
    let inner = "BEGIN:VEVENT\nDTSTART:20240805T140000Z\nDTEND:20240805T150000Z\nEND:VEVENT";
    let wrapped = format!("{{\"contents\": {:?}, \"status\": 200}}", inner);
    assert_eq!(unwrap_envelope(&wrapped), inner);
    assert_eq!(unwrap_envelope(inner), inner);
    assert_eq!(unwrap_envelope("{\"other\": 1}"), "{\"other\": 1}");
    let both = combine_feeds(&vec![wrapped.clone(), inner.to_string()], i64::MAX);
    assert_eq!(both.len(), 2);
}

#[test]
fn utc_round_trip_through_zone() {
    let s = parse_stamp(&chars("20240805T233000Z")).unwrap();
    let zone = "Asia/Kolkata".to_string();
    let local = normalize_stamp(&s, &zone, &zone, Some(330), Some(330));
    assert_eq!(local, LocalTime { day: s.day + 1, hour: 5, minute: 0 });
    let back = shift(&local, -330);
    assert_eq!(back, LocalTime { day: s.day, hour: 23, minute: 30 });
}

#[test]
fn local_times_follow_viewer_zone() {
    let s = Stamp { day: 100, hour: 9, minute: 0, second: 0, utc: false };
    let ny = "America/New_York".to_string();
    let la = "America/Los_Angeles".to_string();
    assert_eq!(normalize_stamp(&s, &ny, &ny, Some(-240), Some(-420)), LocalTime { day: 100, hour: 9, minute: 0 });
    assert_eq!(normalize_stamp(&s, &ny, &la, Some(-240), Some(-420)), LocalTime { day: 100, hour: 6, minute: 0 });
    assert_eq!(normalize_stamp(&s, &ny, &la, None, Some(-420)), LocalTime { day: 100, hour: 9, minute: 0 });
    let u = Stamp { utc: true, hour: 2, ..s };
    assert_eq!(normalize_stamp(&u, &ny, &la, None, Some(-420)), LocalTime { day: 99, hour: 19, minute: 0 });
    assert_eq!(normalize_stamp(&u, &ny, &la, None, None), LocalTime { day: 100, hour: 2, minute: 0 });
}
