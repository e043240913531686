use rust_request::dates::{is_valid_date, Date};
use rust_request::report::{encode_result, render_report, sort_newest_first};
use rust_request::tracks::{collect_tracks, merge_track_lists, Artist, Track, TrackItem};

fn track(name: &str, date: &str, precision: &str, artists: &[&str]) -> Track {
    Track {
        id: "id".to_string(),
        name: name.to_string(),
        release_date: date.to_string(),
        release_date_precision: precision.to_string(),
        artists: artists.iter().map(|a| Artist { name: a.to_string() }).collect(),
        track_type: "album".to_string(),
    }
}

fn item(name: &str, y: i32, m: u32, d: u32) -> TrackItem {
    TrackItem { name: name.to_string(), date: Date { year: y, month: m, day: d }, artists: "X, ".to_string() }
}

fn date_of(text: &str) -> Result<Date, String> {
    track("t", text, "day", &[]).parse_tracks().map(|t| t.date)
}

fn printed(y: i32, m: u32, d: u32) -> String {
    let line = render_report(&vec![item("n", y, m, d)]);
    line.trim_end().rsplit(", ").next().unwrap().to_string()
}

#[test]
fn parses_dates_with_chrono() {
    assert_eq!(date_of("2024-03-05").unwrap(), Date { year: 2024, month: 3, day: 5 });
    assert!(date_of("2023-02-30").is_err());
    assert!(date_of("2023").is_err());
    assert_eq!(date_of("2024-02-29").unwrap(), Date { year: 2024, month: 2, day: 29 });
}

#[test]
fn prints_dates_like_chrono() {
    assert_eq!(printed(2015, 9, 5), "2015-09-05");
    assert_eq!(printed(0, 1, 1), "0000-01-01");
    assert_eq!(printed(-1, 1, 1), "-0001-01-01");
    assert_eq!(printed(10000, 12, 31), "+10000-12-31");
}

#[test]
fn checks_calendar_dates() {
    assert!(is_valid_date(&Date { year: 2024, month: 2, day: 29 }));
    assert!(!is_valid_date(&Date { year: 2023, month: 2, day: 29 }));
    assert!(!is_valid_date(&Date { year: 1900, month: 2, day: 29 }));
    assert!(is_valid_date(&Date { year: 2000, month: 2, day: 29 }));
    assert!(!is_valid_date(&Date { year: 2021, month: 4, day: 31 }));
    assert!(!is_valid_date(&Date { year: 2021, month: 13, day: 1 }));
    assert!(!is_valid_date(&Date { year: 300000, month: 1, day: 1 }));
}

#[test]
fn record_with_day_precision() {
    let t = track("Album", "2021-06-18", "day", &["A", "B"]);
    let it = t.parse_tracks().unwrap();
    assert_eq!(it.name, "Album");
    assert_eq!(it.date, Date { year: 2021, month: 6, day: 18 });
    assert_eq!(it.artists, "A, B, ");
}

#[test]
fn record_with_year_precision_starts_on_new_year() {
    let it = track("Old", "1999", "year", &["C"]).parse_tracks().unwrap();
    assert_eq!(it.date, Date { year: 1999, month: 1, day: 1 });
    assert_eq!(it.artists, "C, ");
}

#[test]
fn record_with_month_precision_is_an_error() {
    let e = track("M", "2010-05", "month", &[]).parse_tracks().err().unwrap();
    assert!(e.starts_with("fmt = %Y-%m-%d, "), "{}", e);
}

#[test]
fn with_parsed_date_builds_the_message() {
    let e = track("M", "x", "day", &[])
        .with_parsed_date(Err(("input contains invalid characters".to_string(), "Invalid".to_string())))
        .err()
        .unwrap();
    assert_eq!(e, "fmt = %Y-%m-%d, input contains invalid characters, Invalid");
    let ok = track("N", "x", "day", &["Z"]).with_parsed_date(Ok(Date { year: 2000, month: 2, day: 29 })).unwrap();
    assert_eq!(ok.date, Date { year: 2000, month: 2, day: 29 });
    assert_eq!(ok.artists, "Z, ");
}

#[test]
fn collects_parsed_records_and_errors() {
    let (ok, errs) = collect_tracks(vec![
        track("a", "2020-01-02", "day", &["A"]),
        track("b", "bad", "day", &["B"]),
        track("c", "2019", "year", &["C"]),
    ]);
    assert_eq!(ok.len(), 2);
    assert_eq!(ok[0].name, "a");
    assert_eq!(ok[1].name, "c");
    assert_eq!(errs.len(), 1);
}

#[test]
fn merges_present_lists_in_order() {
    let merged = merge_track_lists(vec![Some(vec![item("a", 2000, 1, 1)]), None, Some(vec![item("b", 2001, 1, 1), item("c", 1990, 1, 1)])]);
    let names: Vec<&str> = merged.iter().map(|t| t.name.as_str()).collect();
    assert_eq!(names, vec!["a", "b", "c"]);
}

#[test]
fn sorts_newest_first() {
    let sorted = sort_newest_first(vec![item("a", 2000, 1, 1), item("b", 2021, 5, 3), item("c", 2021, 4, 30), item("d", 1999, 12, 31)]);
    let names: Vec<&str> = sorted.iter().map(|t| t.name.as_str()).collect();
    assert_eq!(names, vec!["b", "c", "a", "d"]);
}

#[test]
fn renders_report_lines() {
    let r = render_report(&vec![item("Song", 2024, 1, 9)]);
    assert_eq!(r, "1. X,  - Song, 2024-01-09\n");
}

#[test]
fn report_lists_at_most_twenty_newest() {
    let tracks: Vec<TrackItem> = (1..=25).map(|i| item(&format!("t{}", i), 2000 + i, 1, 1)).collect();
    let r = encode_result(tracks);
    let lines: Vec<&str> = r.lines().collect();
    assert_eq!(lines.len(), 20);
    assert_eq!(lines[0], "1. X,  - t25, 2025-01-01");
    assert_eq!(lines[19], "20. X,  - t6, 2006-01-01");
}

#[test]
fn empty_report() {
    assert_eq!(encode_result(Vec::new()), "");
}
