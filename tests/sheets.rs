use homepage::civil::day_number;
use homepage::grid::week_grid;
use homepage::grid::NormalizedOccurrence;
use homepage::grid::SlotClass;
use homepage::resources::compare_captions;
use homepage::resources::filter_and_sort_resources;
use homepage::resources::nonempty_keywords;
use homepage::resources::parse_expiration;
use homepage::resources::parse_keywords;
use homepage::resources::ResourceRow;
use homepage::sheet::publication_rows_from_csv;
use homepage::sheet::resource_rows_from_csv;
use homepage::stamp::LocalTime;
use std::cmp::Ordering;

fn day(y: i32, m: u32, d: u32) -> i64 {
    day_number(y, m, d).unwrap()
}

fn row(caption: &str, expires: Option<i64>) -> ResourceRow {
    ResourceRow { caption: caption.to_string(), link: String::new(), expiration_day: expires, keywords: vec![] }
}

#[test]
fn keywords_are_trimmed_and_kept_when_not_empty() {
    assert_eq!(parse_keywords(" grant , PhD,, travel ,"), vec!["grant", "PhD", "travel"]);
    assert!(parse_keywords("").is_empty());
    assert!(parse_keywords(" , ,").is_empty());
    assert_eq!(nonempty_keywords(vec!["a".to_string(), String::new(), "b".to_string()]), vec!["a", "b"]);
}

#[test]
fn expiration_cells_are_read() {
    assert_eq!(parse_expiration(" 2024/08/31 "), Some(day(2024, 8, 31)));
    assert_eq!(parse_expiration(""), None);
    assert_eq!(parse_expiration("   "), None);
    assert_eq!(parse_expiration("soon"), None);
    assert_eq!(parse_expiration("2023/02/29"), None);
}

#[test]
fn resources_are_filtered_and_sorted() {
    let today = day(2024, 8, 1);
    let rows = vec![
        row("zeta", None),
        row("late", Some(today + 200)),
        row("second", Some(today + 30)),
        row("alpha", None),
        row("past", Some(today - 1)),
        row("first", Some(today)),
        row("edge", Some(today + 180)),
    ];
    let shown = filter_and_sort_resources(rows, 180, today);
    let captions: Vec<&str> = shown.iter().map(|r| r.caption.as_str()).collect();
    assert_eq!(captions, vec!["first", "second", "edge", "alpha", "zeta"]);
}

#[test]
fn captions_compare_by_code_point() {
    assert_eq!(compare_captions(&row("Apple", None), &row("apple", None)), Ordering::Less);
    assert_eq!(compare_captions(&row("ab", None), &row("a", None)), Ordering::Greater);
    assert_eq!(compare_captions(&row("same", None), &row("same", None)), Ordering::Equal);
}

#[test]
fn publication_sheet_rows() {
    let text = "Year,Title,Authors,Journal,Website,Note\n2024,\"Maps, models\",A. B,J. Geo,https://x.org,\n2023,Short\n";
    let rows = publication_rows_from_csv(text);
    assert_eq!(rows.len(), 1);
    assert_eq!(rows[0].year, "2024");
    assert_eq!(rows[0].title, "Maps, models");
    assert_eq!(rows[0].website, "https://x.org");
    assert_eq!(rows[0].note, "");
}

#[test]
fn resource_sheet_rows() {
    let text = "Caption,Expires,Keywords,Link\nFellowship,2024/10/01,\"grant, PhD\",https://f.org\nTutorial,,,https://t.org\n";
    let rows = resource_rows_from_csv(text);
    assert_eq!(rows.len(), 2);
    assert_eq!(rows[0].caption, "Fellowship");
    assert_eq!(rows[0].expiration_day, Some(day(2024, 10, 1)));
    assert_eq!(rows[0].keywords, vec!["grant", "PhD"]);
    assert_eq!(rows[0].link, "https://f.org");
    assert_eq!(rows[1].expiration_day, None);
    assert!(rows[1].keywords.is_empty());
}

#[test]
fn week_grid_classifies_every_slot() {
    let now = LocalTime { day: day(2024, 8, 7), hour: 9, minute: 7 };
    let busy = vec![NormalizedOccurrence { day: day(2024, 8, 8), start_minute: 9 * 60 + 10, end_minute: 9 * 60 + 20 }];
    let grid = week_grid(0, 9, 10, &now, &busy);
    assert_eq!(grid.len(), 12);
    assert!(grid.iter().all(|r| r.len() == 7));
    assert_eq!(grid[1][3], SlotClass::CurrentTime);
    assert_eq!(grid[0][3], SlotClass::Available);
    assert_eq!(grid[1][2], SlotClass::Unavailable);
    assert_eq!(grid[2][4], SlotClass::Busy);
    assert_eq!(grid[3][4], SlotClass::Busy);
    assert_eq!(grid[4][4], SlotClass::Available);
    assert_eq!(grid[5][6], SlotClass::Unavailable);
}
