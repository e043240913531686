use rust_request::artists::{artist_ids_of_page, get_artist, ArtistCounts};
use rust_request::json::JsonValue;
use rust_request::request::UserTracks;

fn parse_json(text: &str) -> Result<JsonValue, String> {
    UserTracks::read_page(Some(text.to_string()))
}

const PAGE: &str = r#"{
  "total": 3,
  "items": [
    {"track": {"artists": [{"id": "a1", "name": "A"}, {"id": "b2", "name": "B"}]}},
    {"track": {"artists": [{"id": "a1", "name": "A"}]}},
    {"track": {"artists": "none"}}
  ]
}"#;

#[test]
fn lists_artist_ids_in_page_order() {
    let page = parse_json(PAGE).unwrap();
    assert_eq!(artist_ids_of_page(&page).unwrap(), vec!["a1", "b2", "a1"]);
}

#[test]
fn malformed_pages_give_no_ids() {
    for text in [
        r#"{"total": 1}"#,
        r#"{"items": {}}"#,
        r#"{"items": [{"nottrack": 1}]}"#,
        r#"{"items": [{"track": {}}]}"#,
        r#"{"items": [{"track": {"artists": [{"name": "x"}]}}]}"#,
        r#"{"items": [{"track": {"artists": [{"id": 5}]}}]}"#,
        r#"[1, 2]"#,
    ] {
        let page = parse_json(text).unwrap();
        assert!(artist_ids_of_page(&page).is_none(), "{}", text);
    }
    let empty = parse_json(r#"{"items": []}"#).unwrap();
    assert_eq!(artist_ids_of_page(&empty).unwrap().len(), 0);
}

#[test]
fn counts_each_appearance() {
    let page = parse_json(PAGE).unwrap();
    let mut counts = ArtistCounts::new();
    assert!(counts.fits_page(&page));
    assert!(get_artist(&page, &mut counts));
    assert!(get_artist(&page, &mut counts));
    assert_eq!(counts.count("a1"), 4);
    assert_eq!(counts.count("b2"), 2);
    assert_eq!(counts.count("zz"), 0);
}

#[test]
fn malformed_page_leaves_tally_unchanged() {
    let page = parse_json(PAGE).unwrap();
    let bad = parse_json(r#"{"items": [{"track": {}}]}"#).unwrap();
    let mut counts = ArtistCounts::new();
    assert!(get_artist(&page, &mut counts));
    assert!(!get_artist(&bad, &mut counts));
    assert_eq!(counts.count("a1"), 2);
}

#[test]
fn keeps_artists_with_enough_tracks() {
    let page = parse_json(PAGE).unwrap();
    let mut counts = ArtistCounts::new();
    get_artist(&page, &mut counts);
    let mut at2 = counts.at_least(2);
    at2.sort();
    assert_eq!(at2, vec!["a1"]);
    let mut at1 = counts.at_least(1);
    at1.sort();
    assert_eq!(at1, vec!["a1", "b2"]);
    assert!(counts.at_least(3).is_empty());
}

#[test]
fn tally_reports_overflow_risk() {
    let mut counts = ArtistCounts::new();
    counts.add("x".to_string());
    assert!(counts.can_tally(&vec!["x".to_string(), "y".to_string()]));
    assert_eq!(counts.len(), 1);
}

#[test]
fn tally_does_not_depend_on_page_order() {
    let p1 = parse_json(PAGE).unwrap();
    let p2 = parse_json(r#"{"items": [{"track": {"artists": [{"id": "b2"}, {"id": "c3"}]}}]}"#).unwrap();
    let mut x = ArtistCounts::new();
    get_artist(&p1, &mut x);
    get_artist(&p2, &mut x);
    let mut y = ArtistCounts::new();
    get_artist(&p2, &mut y);
    get_artist(&p1, &mut y);
    for id in ["a1", "b2", "c3", "d4"] {
        assert_eq!(x.count(id), y.count(id));
    }
    assert_eq!(x.count("b2"), 2);
    assert_eq!(x.len(), 3);
    assert_eq!(y.len(), 3);
}
