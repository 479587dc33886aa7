use homepage::civil::day_number;
use homepage::expand::Occurrence;
use homepage::grid::can_go_next;
use homepage::grid::can_go_previous;
use homepage::grid::clamp_week;
use homepage::grid::classify_slot;
use homepage::grid::next_week;
use homepage::grid::normalize_all;
use homepage::grid::normalize_occurrence;
use homepage::grid::previous_week;
use homepage::grid::slot_rows;
use homepage::grid::NormalizedOccurrence;
use homepage::grid::SlotClass;
use homepage::publication::get_publications;
use homepage::routes::page_for;
use homepage::routes::Director;
use homepage::routes::Page;
use homepage::routes::Route;
use homepage::stamp::LocalTime;
use homepage::stamp::Stamp;

fn day(y: i32, m: u32, d: u32) -> i64 {
    day_number(y, m, d).unwrap()
}

// Wednesday, 7 August 2024, 10:32.
fn now() -> LocalTime {
    LocalTime { day: day(2024, 8, 7), hour: 10, minute: 32 }
}

#[test]
fn saturday_is_unavailable() {
    for week in [-2, 0, 1, 7] {
        for hour in [0u32, 9, 23] {
            assert_eq!(classify_slot(week, 6, hour, 0, &now(), &vec![]), SlotClass::Unavailable);
            assert_eq!(classify_slot(week, 0, hour, 55, &now(), &vec![]), SlotClass::Unavailable);
        }
    }
}

#[test]
fn present_slot_comes_first() {
    let busy = vec![NormalizedOccurrence { day: day(2024, 8, 7), start_minute: 600, end_minute: 660 }];
    assert_eq!(classify_slot(0, 3, 10, 30, &now(), &busy), SlotClass::CurrentTime);
    assert_eq!(classify_slot(0, 3, 10, 35, &now(), &busy), SlotClass::Busy);
    assert_eq!(classify_slot(1, 3, 10, 30, &now(), &busy), SlotClass::Available);
}

#[test]
fn past_days_are_unavailable() {
    assert_eq!(classify_slot(0, 2, 12, 0, &now(), &vec![]), SlotClass::Unavailable);
    assert_eq!(classify_slot(-1, 4, 12, 0, &now(), &vec![]), SlotClass::Unavailable);
    assert_eq!(classify_slot(0, 4, 12, 0, &now(), &vec![]), SlotClass::Available);
    assert_eq!(classify_slot(0, 3, 8, 0, &now(), &vec![]), SlotClass::Available);
}

#[test]
fn touching_occurrences_leave_slot_free() {
    let thursday = day(2024, 8, 8);
    let slot = 9 * 60;
    let before = vec![NormalizedOccurrence { day: thursday, start_minute: slot - 60, end_minute: slot }];
    let after = vec![NormalizedOccurrence { day: thursday, start_minute: slot + 5, end_minute: slot + 65 }];
    let inside = vec![NormalizedOccurrence { day: thursday, start_minute: slot + 4, end_minute: slot + 6 }];
    let other_day = vec![NormalizedOccurrence { day: thursday + 1, start_minute: 0, end_minute: 1440 }];
    assert_eq!(classify_slot(0, 4, 9, 0, &now(), &before), SlotClass::Available);
    assert_eq!(classify_slot(0, 4, 9, 0, &now(), &after), SlotClass::Available);
    assert_eq!(classify_slot(0, 4, 9, 0, &now(), &inside), SlotClass::Busy);
    assert_eq!(classify_slot(0, 4, 9, 0, &now(), &other_day), SlotClass::Available);
}

#[test]
fn navigation_stays_in_range() {
    assert_eq!(clamp_week(1, 0), 0);
    assert_eq!(clamp_week(-3, 4), 0);
    assert_eq!(clamp_week(3, 4), 3);
    assert_eq!(clamp_week(9, 4), 4);
    assert!(!can_go_next(0, 0));
    assert!(!can_go_previous(0));
    assert_eq!(next_week(0, 0), 0);
    assert_eq!(next_week(0, 2), 1);
    assert_eq!(previous_week(0, 2), 0);
    assert_eq!(previous_week(2, 2), 1);
    assert!(can_go_next(1, 2));
}

#[test]
fn rows_cover_hours_in_five_minutes() {
    let rows = slot_rows(9, 11);
    assert_eq!(rows.len(), 24);
    assert_eq!(rows[0], (9, 0));
    assert_eq!(rows[1], (9, 5));
    assert_eq!(rows[11], (9, 55));
    assert_eq!(rows[12], (10, 0));
    assert_eq!(rows[23], (10, 55));
}

#[test]
fn occurrences_are_normalized() {
    let o = Occurrence {
        start: Stamp { day: 200, hour: 22, minute: 0, second: 0, utc: true },
        end: Stamp { day: 200, hour: 23, minute: 30, second: 0, utc: true },
    };
    let z = "Europe/Berlin".to_string();
    let n = normalize_occurrence(&o, &z, &z, Some(120), Some(120));
    assert_eq!(n, NormalizedOccurrence { day: 201, start_minute: 0, end_minute: 90 });
    let m = normalize_occurrence(&o, &z, &z, Some(-60), Some(-60));
    assert_eq!(m, NormalizedOccurrence { day: 200, start_minute: 21 * 60, end_minute: 22 * 60 + 30 });
    let all = normalize_all(&vec![o, o], &z, &z, Some(120), Some(120));
    assert_eq!(all, vec![n, n]);
}

#[test]
fn built_in_publications_are_empty() {
    assert!(get_publications().is_empty());
}

#[test]
fn page_names_select_pages() {
    assert_eq!(Director("pub"), Page::Publications);
    assert_eq!(Director("code"), Page::Code);
    assert_eq!(Director("info"), Page::Info);
    assert_eq!(Director("gaim"), Page::Lab);
    assert_eq!(Director("res"), Page::Resources);
    assert_eq!(Director("meet"), Page::Meet);
    assert_eq!(Director("home"), Page::Home);
    assert_eq!(Director("nowhere"), Page::Home);
    assert_eq!(page_for(&Route::Home), Page::Home);
    assert_eq!(page_for(&Route::Director { pagename: "meet".to_string() }), Page::Meet);
}
