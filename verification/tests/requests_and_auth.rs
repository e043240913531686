use rust_request::auth::{check_callback, login, redirect_uri, token_form, token_status, CHARSET_STATE};
use rust_request::db::{AttributeValue, JobRecord, TABLE_NAME};
use rust_request::json::JsonValue;
use rust_request::request::{
    is_success, page_offsets, saved_tracks_total, NewTracksRequest, RetryState, RetryStep, StatusAction, UserTracks,
};

fn parse_json(text: &str) -> Result<JsonValue, String> {
    UserTracks::read_page(Some(text.to_string()))
}

#[test]
fn appends_query_to_urls_that_have_one() {
    let req = NewTracksRequest::new("tok", "x y?a=b#frag".to_string());
    assert_eq!(
        req.request_url().unwrap(),
        "https://api.spotify.com/v1/artists/x%20y?a=b&offset=0&limit=3#frag/albums"
    );
    let req = NewTracksRequest::new("tok", "x?#f".to_string());
    assert_eq!(req.request_url().unwrap(), "https://api.spotify.com/v1/artists/x?offset=0&limit=3#f/albums");
}

#[test]
fn encodes_query_values() {
    let f = login("a b&c=é*-._~");
    assert!(f.url.unwrap().contains("&client_id=a+b%26c%3D%C3%A9*-._%7E&"));
}

#[test]
fn saved_tracks_url() {
    let req = UserTracks::new("tok", 150);
    assert_eq!(req.request_url().unwrap(), "https://api.spotify.com/v1/me/tracks?offset=150&limit=50");
    assert_eq!(req.token, "tok");
}

#[test]
fn artist_albums_url() {
    let req = NewTracksRequest::new("tok", "0OdUWJ0sBjDrqHygGUXeCF".to_string());
    assert_eq!(
        req.request_url().unwrap(),
        "https://api.spotify.com/v1/artists/0OdUWJ0sBjDrqHygGUXeCF/albums?offset=0&limit=3"
    );
}

#[test]
fn decides_on_status_codes() {
    assert!(is_success(200) && is_success(299) && !is_success(300) && !is_success(199));
    assert!(matches!(NewTracksRequest::status_action(200), StatusAction::Proceed));
    assert!(matches!(NewTracksRequest::status_action(429), StatusAction::PauseThenFail(m) if m == "Rate limit, Retry"));
    assert!(matches!(NewTracksRequest::status_action(500), StatusAction::Fail(m) if m == "Failed to get releases"));
    assert_eq!(token_status(200), Ok(()));
    assert_eq!(token_status(400), Err("error in console".to_string()));
}

#[test]
fn page_failures_and_bodies() {
    assert_eq!(UserTracks::failure_message("nope"), "Failed to get tracks: nope");
    assert_eq!(UserTracks::read_page(None).err().unwrap(), "timeout");
    assert!(UserTracks::read_page(Some("{\"total\": 2}".to_string())).is_ok());
    assert!(UserTracks::read_page(Some("]".to_string())).is_err());
}

#[test]
fn retries_three_times_at_most() {
    let mut st = RetryState::new();
    assert!(matches!(st.record::<u32>(Err("a".to_string())), RetryStep::TryAgain));
    assert!(matches!(st.record::<u32>(Err("b".to_string())), RetryStep::TryAgain));
    assert!(matches!(st.record::<u32>(Err("c".to_string())), RetryStep::Finish(Err(m)) if m == "max retries"));
    let mut st = RetryState::new();
    assert!(matches!(st.record::<u32>(Err("a".to_string())), RetryStep::TryAgain));
    assert!(matches!(st.record::<u32>(Ok(7)), RetryStep::Finish(Ok(7))));
}

#[test]
fn pages_cover_the_total() {
    assert!(page_offsets(0).is_empty());
    assert_eq!(page_offsets(1), vec![0]);
    assert_eq!(page_offsets(50), vec![0]);
    assert_eq!(page_offsets(51), vec![0, 50]);
    assert_eq!(page_offsets(120), vec![0, 50, 100]);
}

#[test]
fn reads_the_announced_total() {
    assert_eq!(saved_tracks_total(&parse_json("{\"total\": 120}").unwrap()), Some(120));
    assert_eq!(saved_tracks_total(&parse_json("{\"total\": -1}").unwrap()), Some(usize::MAX));
    assert_eq!(saved_tracks_total(&parse_json("{\"total\": 1.5}").unwrap()), None);
    assert_eq!(saved_tracks_total(&parse_json("{}").unwrap()), None);
}

#[test]
fn callback_checks() {
    assert_eq!(check_callback(None, "s", Some("c".into()), None), Err("No state in cookie".to_string()));
    assert_eq!(
        check_callback(Some("t".into()), "s", Some("c".into()), None),
        Err("state mismatch, possible CSRF attack".to_string())
    );
    assert_eq!(check_callback(Some("s".into()), "s", None, Some("access_denied".into())), Err("access_denied".to_string()));
    assert_eq!(check_callback(Some("s".into()), "s", Some("code1".into()), None), Ok("code1".to_string()));
}

#[test]
fn login_redirect_carries_fresh_state() {
    let r = login("client");
    assert_eq!(r.state.chars().count(), 16);
    assert!(r.state.chars().all(|c| CHARSET_STATE.contains(c)));
    let url = r.url.unwrap();
    assert_eq!(
        url,
        format!(
            "https://accounts.spotify.com/authorize?response_type=code&client_id=client&scope=user-library-read&redirect_uri=http%3A%2F%2F127.0.0.1%3A3000%2Flogincallback&state={}",
            r.state
        )
    );
}

#[test]
fn token_request_form() {
    assert_eq!(redirect_uri(), "http://127.0.0.1:3000/logincallback");
    let f = token_form("abc");
    assert_eq!(f[0], ("code".to_string(), "abc".to_string()));
    assert_eq!(f[1].1, "http://127.0.0.1:3000/logincallback");
    assert_eq!(f[2], ("grant_type".to_string(), "authorization_code".to_string()));
}

#[test]
fn job_records() {
    assert_eq!(TABLE_NAME, "rust_cache");
    assert!(JobRecord::init("code", "abc".to_string()).is_none());
    let job = JobRecord::init("code", "1700000000".to_string()).unwrap();
    let item = job.result_item("res".to_string());
    assert_eq!(item.len(), 4);
    assert!(matches!(&item[1], (k, AttributeValue::N(v)) if k == "job_expire_time" && v == "1700000000"));
    assert!(matches!(&item[2], (k, AttributeValue::S(v)) if k == "job_state" && v == "DONE"));
    assert!(matches!(&item[3], (k, AttributeValue::S(v)) if k == "job_result" && v == "res"));
    let p = job.progress_item(-3);
    assert!(matches!(&p[2], (_, AttributeValue::S(v)) if v == "PROGRESS"));
    assert!(matches!(&p[3], (_, AttributeValue::S(v)) if v == "-3"));
    assert!(matches!(&p[0], (k, AttributeValue::S(v)) if k == "job_auth_code" && v == "code"));
}
