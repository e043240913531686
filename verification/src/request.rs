//! The two Spotify Web API requests of the service: a page of the user's
//! saved tracks, and the latest records of one artist; with the decisions
//! taken on their responses and the retry policy around them.

use vstd::prelude::*;
use crate::json::{JsonValue, JsonSpec, member, get_member, parse_json, serde_json_value_from_str};
use crate::text::{decimal_digits, int_text, i32_text, u64_text};
use crate::urls::{url_parse, url_with_query, with_query_pairs};

verus! {

/// How many times a request is tried before the service gives up on it.
pub const RETRY: usize = 3;

/// How many saved tracks one page request asks for.
pub const REQUEST_STEP: usize = 50;

/// How many records are asked for per artist.
pub const TRACK_PER_ARTIST: usize = 3;

/// The endpoint of the user's saved tracks.
pub const SAVED_TRACKS_ENDPOINT: &'static str = "https://api.spotify.com/v1/me/tracks";

/// The part of an artist's albums endpoint before the artist id.
pub const ARTISTS_ENDPOINT_PREFIX: &'static str = "https://api.spotify.com/v1/artists/";

/// The part of an artist's albums endpoint after the artist id.
pub const ALBUMS_ENDPOINT_SUFFIX: &'static str = "/albums";

/// Whether an HTTP status code is a success (`200` to `299`), as
/// `StatusCode::is_success` decides.
pub open spec fn status_is_success(status: u16) -> bool {
    200 <= status < 300
}

/// Whether an HTTP status code is a success (`200` to `299`).
pub fn is_success(status: u16) -> (r: bool)
    ensures
        r == status_is_success(status),
{
    200 <= status && status < 300
}

/// The query of a saved-tracks page request.
pub open spec fn saved_tracks_query(offset: i32) -> Seq<(Seq<char>, Seq<char>)> {
    seq![("offset"@, int_text(offset as int)), ("limit"@, decimal_digits(REQUEST_STEP as nat))]
}

/// The query of an artist's records request.
pub open spec fn artist_albums_query() -> Seq<(Seq<char>, Seq<char>)> {
    seq![("offset"@, "0"@), ("limit"@, decimal_digits(TRACK_PER_ARTIST as nat))]
}

/// The albums endpoint of an artist.
pub open spec fn artist_albums_endpoint(artist: Seq<char>) -> Seq<char> {
    ARTISTS_ENDPOINT_PREFIX@ + artist + ALBUMS_ENDPOINT_SUFFIX@
}

/// What a request URL is made of `base` and `query`, given what `url_parse`
/// makes of `base`.
pub open spec fn request_url_matches(r: Result<String, String>, base: Seq<char>, query: Seq<(Seq<char>, Seq<char>)>) -> bool {
    &&& (r is Ok <==> url_parse(base) is Ok)
    &&& (r matches Err(e) ==> (url_parse(base) matches Err(pe) && pe == e@))
    &&& (r matches Ok(s) ==> (url_parse(base) matches Ok(u) && s@ == with_query_pairs(u, query)))
}

/// A request for one page of the user's saved tracks.
pub struct UserTracks {
    pub offset: i32,
    pub token: String,
}

impl UserTracks {
    /// A request for the page that starts at `offset`, authorized by `tk`.
    pub fn new(tk: &str, offset: i32) -> (r: UserTracks)
        ensures
            r.offset == offset,
            r.token@ == tk@,
    {
        UserTracks { offset, token: String::from_str(tk) }
    }

    /// The URL of the page: the saved-tracks endpoint with `offset` and `limit`.
    pub fn request_url(&self) -> (r: Result<String, String>)
        ensures
            request_url_matches(r, SAVED_TRACKS_ENDPOINT@, saved_tracks_query(self.offset)),
    {
        let mut pairs: Vec<(String, String)> = Vec::new();
        pairs.push((String::from_str("offset"), i32_text(self.offset)));
        pairs.push((String::from_str("limit"), u64_text(REQUEST_STEP as u64)));
        let r = url_with_query(SAVED_TRACKS_ENDPOINT, &pairs);
        assert(crate::urls::pairs_view(pairs@) =~= saved_tracks_query(self.offset));
        r
    }

    /// The error of a page request whose status is not a success.
    pub fn failure_message(body: &str) -> (r: String)
        ensures
            r@ == "Failed to get tracks: "@ + body@,
    {
        let mut m = String::from_str("Failed to get tracks: ");
        m.append(body);
        m
    }

    /// Reads the body of a successful page request: `None` stands for a body
    /// that did not arrive in time.
    pub fn read_page(body: Option<String>) -> (r: Result<JsonValue, String>)
        ensures
            match body {
                None => r matches Err(e) && e@ == "timeout"@,
                Some(b) => match r {
                    Ok(v) => serde_json_value_from_str(b@) == Ok::<JsonSpec, Seq<char>>(v@),
                    Err(e) => serde_json_value_from_str(b@) == Err::<JsonSpec, Seq<char>>(e@),
                },
            },
    {
        match body {
            None => Err(String::from_str("timeout")),
            Some(b) => parse_json(b.as_str()),
        }
    }
}

/// A request for the latest records of one artist.
pub struct NewTracksRequest {
    pub artist: String,
    pub token: String,
}

/// What the service does with the status of an artist's records request.
pub enum StatusAction {
    /// Read the body.
    Proceed,
    /// Pause before failing with this message, so that a retry comes later.
    PauseThenFail(String),
    /// Fail with this message.
    Fail(String),
}

impl NewTracksRequest {
    /// A request for the records of `artist`, authorized by `tk`.
    pub fn new(tk: &str, artist: String) -> (r: NewTracksRequest)
        ensures
            r.artist == artist,
            r.token@ == tk@,
    {
        NewTracksRequest { artist, token: String::from_str(tk) }
    }

    /// The URL of the request: the artist's albums endpoint with `offset` and `limit`.
    pub fn request_url(&self) -> (r: Result<String, String>)
        ensures
            request_url_matches(r, artist_albums_endpoint(self.artist@), artist_albums_query()),
    {
        let mut base = String::from_str(ARTISTS_ENDPOINT_PREFIX);
        base.append(self.artist.as_str());
        base.append(ALBUMS_ENDPOINT_SUFFIX);
        let mut pairs: Vec<(String, String)> = Vec::new();
        pairs.push((String::from_str("offset"), String::from_str("0")));
        pairs.push((String::from_str("limit"), u64_text(TRACK_PER_ARTIST as u64)));
        let r = url_with_query(base.as_str(), &pairs);
        assert(crate::urls::pairs_view(pairs@) =~= artist_albums_query());
        r
    }

    /// The decision taken on the status of the response: `429` asks for a
    /// pause and a retry, any other status that is not a success fails.
    pub fn status_action(status: u16) -> (r: StatusAction)
        ensures
            status == 429 ==> (r matches StatusAction::PauseThenFail(m) && m@ == "Rate limit, Retry"@),
            status != 429 && !status_is_success(status) ==> (r matches StatusAction::Fail(m) && m@
                == "Failed to get releases"@),
            status_is_success(status) ==> r is Proceed,
    {
        if status == 429 {
            StatusAction::PauseThenFail(String::from_str("Rate limit, Retry"))
        } else if !is_success(status) {
            StatusAction::Fail(String::from_str("Failed to get releases"))
        } else {
            StatusAction::Proceed
        }
    }
}


/// What to do after an attempt of a request.
pub enum RetryStep<T> {
    /// Try the request again.
    TryAgain,
    /// Stop, with this outcome.
    Finish(Result<T, String>),
}

/// The step taken after attempt number `attempts + 1` gave `outcome`: a
/// success is kept, a failure is retried until `RETRY` attempts have been made.
pub open spec fn retry_step<T>(attempts: nat, outcome: Result<T, String>) -> (nat, Option<Result<T, Seq<char>>>) {
    if attempts >= RETRY {
        (attempts, Some(Err("max retries"@)))
    } else {
        match outcome {
            Ok(v) => ((attempts + 1) as nat, Some(Ok(v))),
            Err(_) => if attempts + 1 >= RETRY {
                ((attempts + 1) as nat, Some(Err("max retries"@)))
            } else {
                ((attempts + 1) as nat, None)
            },
        }
    }
}

/// The model of a step: `None` to try again, or the final outcome.
pub open spec fn step_view<T>(step: RetryStep<T>) -> Option<Result<T, Seq<char>>> {
    match step {
        RetryStep::TryAgain => None,
        RetryStep::Finish(Ok(v)) => Some(Ok(v)),
        RetryStep::Finish(Err(e)) => Some(Err(e@)),
    }
}

/// The attempts made so far of a request that is retried.
pub struct RetryState {
    attempts: usize,
}

impl View for RetryState {
    type V = nat;

    closed spec fn view(&self) -> nat {
        self.attempts as nat
    }
}

impl RetryState {
    /// No attempt made yet.
    pub fn new() -> (r: RetryState)
        ensures
            r@ == 0,
    {
        RetryState { attempts: 0 }
    }

    /// Records the outcome of one more attempt and decides what comes next.
    pub fn record<T>(&mut self, outcome: Result<T, String>) -> (step: RetryStep<T>)
        ensures
            (final(self)@, step_view(step)) == retry_step(old(self)@, outcome),
            old(self)@ <= RETRY ==> final(self)@ <= RETRY,
    {
        if self.attempts >= RETRY {
            return RetryStep::Finish(Err(String::from_str("max retries")));
        }
        self.attempts = self.attempts + 1;
        match outcome {
            Ok(v) => RetryStep::Finish(Ok(v)),
            Err(e) => {
                if self.attempts >= RETRY {
                    RetryStep::Finish(Err(String::from_str("max retries")))
                } else {
                    RetryStep::TryAgain
                }
            },
        }
    }
}

/// Runs the retry policy over the outcomes of successive attempts, from
/// `attempts` attempts made: the number of attempts made in the end and the
/// final outcome, if one was reached.
pub open spec fn retry_run<T>(attempts: nat, outcomes: Seq<Result<T, String>>) -> (nat, Option<Result<T, Seq<char>>>)
    decreases outcomes.len(),
{
    if outcomes.len() == 0 {
        (attempts, None)
    } else {
        let (n, step) = retry_step(attempts, outcomes[0]);
        match step {
            Some(r) => (n, Some(r)),
            None => retry_run(n, outcomes.drop_first()),
        }
    }
}

/// Retry law: a request is attempted at most `RETRY` times; the outcome is
/// the first success among the first `RETRY` attempts, or the error
/// `max retries` when all of them failed.
pub proof fn lemma_retry_policy<T>(outcomes: Seq<Result<T, String>>)
    requires
        outcomes.len() >= RETRY,
    ensures
        RETRY == 3,
        retry_run(0, outcomes).0 <= RETRY,
        (exists|i: int| 0 <= i < RETRY && #[trigger] outcomes[i] is Ok) ==> {
            let i = choose|i: int| 0 <= i < RETRY && #[trigger] outcomes[i] is Ok && forall|j: int| 0 <= j < i ==> outcomes[j] is Err;
            retry_run(0, outcomes) == ((i + 1) as nat, Some(Ok::<T, Seq<char>>(outcomes[i]->Ok_0)))
        },
        (forall|i: int| 0 <= i < RETRY ==> #[trigger] outcomes[i] is Err) ==> retry_run(0, outcomes) == (
        RETRY as nat, Some(Err::<T, Seq<char>>("max retries"@))),
{
    reveal_with_fuel(retry_run, 4);
    let o0 = outcomes;
    let o1 = o0.drop_first();
    let o2 = o1.drop_first();
    assert(o1[0] == o0[1]);
    assert(o2[0] == o0[2]);
    if exists|i: int| 0 <= i < RETRY && #[trigger] outcomes[i] is Ok {
        if o0[0] is Ok {
            assert(0 <= 0 < RETRY && outcomes[0] is Ok && forall|j: int| 0 <= j < 0 ==> outcomes[j] is Err);
        } else if o0[1] is Ok {
            assert(0 <= 1 < RETRY && outcomes[1] is Ok && forall|j: int| 0 <= j < 1 ==> outcomes[j] is Err);
        } else {
            assert(o0[2] is Ok);
            assert(0 <= 2 < RETRY && outcomes[2] is Ok && forall|j: int| 0 <= j < 2 ==> outcomes[j] is Err);
        }
        let i = choose|i: int| 0 <= i < RETRY && #[trigger] outcomes[i] is Ok && forall|j: int| 0 <= j < i ==> outcomes[j] is Err;
        if i > 0 {
            assert(outcomes[0] is Err);
        }
        if i > 1 {
            assert(outcomes[1] is Err);
        }
    }
}


/// The number of saved tracks announced by a first page: its `total`
/// member, read as an `i64` and converted to `usize` by `as`.
pub open spec fn announced_total(page: JsonSpec) -> Option<usize> {
    match member(page, "total"@) {
        Some(JsonSpec::Number(Some(n))) => Some(n as usize),
        _ => None,
    }
}

/// Reads the number of saved tracks from a first page; `None` when the page
/// has no `total` member holding an `i64`.
pub fn saved_tracks_total(first_page: &JsonValue) -> (r: Option<usize>)
    ensures
        r == announced_total(first_page@),
{
    match get_member(first_page, "total") {
        Some(JsonValue::Number(Some(n))) => Some(*n as usize),
        _ => None,
    }
}

/// The offsets of the pages that cover `total` saved tracks: `0`,
/// `REQUEST_STEP`, `2 * REQUEST_STEP`, ... below `total`, each converted to
/// `i32` by `as`.
pub fn page_offsets(total: usize) -> (r: Vec<i32>)
    ensures
        r@.len() * REQUEST_STEP >= total,
        r@.len() * REQUEST_STEP < total + REQUEST_STEP,
        forall|k: int| 0 <= k < r@.len() ==> #[trigger] r@[k] == (k * REQUEST_STEP) as i32,
{
    let mut out: Vec<i32> = Vec::new();
    let mut offset: usize = 0;
    let mut done = total == 0;
    while !done
        invariant
            !done ==> offset == out@.len() * REQUEST_STEP,
            done ==> out@.len() * REQUEST_STEP >= total,
            !done ==> offset < total,
            out@.len() * REQUEST_STEP < total + REQUEST_STEP,
            forall|k: int| 0 <= k < out@.len() ==> #[trigger] out@[k] == (k * REQUEST_STEP) as i32,
        decreases total - offset, if done { 0int } else { 1int },
    {
        out.push(offset as i32);
        if total - offset <= REQUEST_STEP {
            done = true;
        } else {
            offset = offset + REQUEST_STEP;
        }
    }
    out
}

} // verus!
