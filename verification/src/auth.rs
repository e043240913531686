//! The authorization-code flow with Spotify: the login redirect, the checks
//! on the callback, and the token request's form.

use vstd::prelude::*;
use crate::urls::{url_with_query, pairs_view};
use crate::request::{request_url_matches, is_success, status_is_success};

verus! {

/// The local port of the login server.
pub const PORT: &'static str = "3000";

/// The characters that the login state is drawn from.
pub const CHARSET_STATE: &'static str = "abcdefghijklmnopqrstuvwxyzABCDEFGHIJKLMNOPQRSTUVWXYZ0123456789";

/// The length of the login state.
pub const STATE_LENGTH: usize = 16;

/// Spotify's authorization endpoint.
pub const AUTHORIZE_ENDPOINT: &'static str = "https://accounts.spotify.com/authorize";

/// Spotify's token endpoint.
pub const TOKEN_ENDPOINT: &'static str = "https://accounts.spotify.com/api/token";

/// The name of the cookie that keeps the login state.
pub const STATE_COOKIE: &'static str = "spotify_auth_state";

/// The application's client id and secret.
pub struct IdSecret {
    pub client_id: String,
    pub client_secret: String,
}

/// The part of the token response that the service reads.
pub struct TockenResponse {
    pub access_token: String,
}

/// The callback URL registered with Spotify.
pub open spec fn redirect_uri_text() -> Seq<char> {
    "http://127.0.0.1:"@ + PORT@ + "/logincallback"@
}

/// The callback URL registered with Spotify.
pub fn redirect_uri() -> (r: String)
    ensures
        r@ == redirect_uri_text(),
{
    let mut r = String::from_str("http://127.0.0.1:");
    r.append(PORT);
    r.append("/logincallback");
    r
}

/// The form of the token request that exchanges an authorization code.
pub open spec fn token_form_spec(code: Seq<char>) -> Seq<(Seq<char>, Seq<char>)> {
    seq![("code"@, code), ("redirect_uri"@, redirect_uri_text()), ("grant_type"@, "authorization_code"@)]
}

/// The form of the token request that exchanges the authorization code `code`.
pub fn token_form(code: &str) -> (r: Vec<(String, String)>)
    ensures
        pairs_view(r@) == token_form_spec(code@),
{
    let mut form: Vec<(String, String)> = Vec::new();
    form.push((String::from_str("code"), String::from_str(code)));
    form.push((String::from_str("redirect_uri"), redirect_uri()));
    form.push((String::from_str("grant_type"), String::from_str("authorization_code")));
    assert(pairs_view(form@) =~= token_form_spec(code@));
    form
}

/// The query of the authorization redirect.
pub open spec fn authorize_query(client_id: Seq<char>, state: Seq<char>) -> Seq<(Seq<char>, Seq<char>)> {
    seq![
        ("response_type"@, "code"@),
        ("client_id"@, client_id),
        ("scope"@, "user-library-read"@),
        ("redirect_uri"@, redirect_uri_text()),
        ("state"@, state),
    ]
}

/// Draws a string of `length` characters of `charset` with
/// `random_string::generate`. The contract states the length and the
/// alphabet of the result; which characters come out is chance.
#[verifier::external_body]
fn random_text(length: usize, charset: &str) -> (r: String)
    requires
        charset@.len() > 0,
    ensures
        r@.len() == length,
        forall|i: int| 0 <= i < length ==> charset@.contains(#[trigger] r@[i]),
{
    random_string::generate(length, charset)
}

/// Where to send the user to log in, and the state that the callback must bring back.
pub struct LoginRedirect {
    pub state: String,
    pub url: Result<String, String>,
}

/// Starts a login: draws a fresh state of `STATE_LENGTH` characters of
/// `CHARSET_STATE` and builds the authorization URL that carries it.
pub fn login(client_id: &str) -> (r: LoginRedirect)
    ensures
        r.state@.len() == STATE_LENGTH,
        forall|i: int| 0 <= i < STATE_LENGTH ==> CHARSET_STATE@.contains(#[trigger] r.state@[i]),
        request_url_matches(r.url, AUTHORIZE_ENDPOINT@, authorize_query(client_id@, r.state@)),
{
    proof {
        reveal_strlit("abcdefghijklmnopqrstuvwxyzABCDEFGHIJKLMNOPQRSTUVWXYZ0123456789");
    }
    let state = random_text(STATE_LENGTH, CHARSET_STATE);
    let mut pairs: Vec<(String, String)> = Vec::new();
    pairs.push((String::from_str("response_type"), String::from_str("code")));
    pairs.push((String::from_str("client_id"), String::from_str(client_id)));
    pairs.push((String::from_str("scope"), String::from_str("user-library-read")));
    pairs.push((String::from_str("redirect_uri"), redirect_uri()));
    pairs.push((String::from_str("state"), state.clone()));
    assert(pairs_view(pairs@) =~= authorize_query(client_id@, state@));
    let url = url_with_query(AUTHORIZE_ENDPOINT, &pairs);
    LoginRedirect { state, url }
}

/// Checks the callback of a login against the state kept in the cookie and
/// gives back the authorization code; the error is the answer to the
/// browser. A matching callback without error must carry a code.
pub fn check_callback(cookie_state: Option<String>, state: &str, code: Option<String>, error: Option<String>) -> (r: Result<String, String>)
    requires
        (cookie_state matches Some(c) && c@ == state@ && error is None) ==> code is Some,
    ensures
        cookie_state is None ==> (r matches Err(m) && m@ == "No state in cookie"@),
        (cookie_state matches Some(c) && c@ != state@) ==> (r matches Err(m) && m@
            == "state mismatch, possible CSRF attack"@),
        (cookie_state matches Some(c) && c@ == state@ && error is Some) ==> (r matches Err(m) && m
            == error->Some_0),
        (cookie_state matches Some(c) && c@ == state@ && error is None) ==> (r matches Ok(c2) && c2
            == code->Some_0),
{
    let cookie = match cookie_state {
        None => return Err(String::from_str("No state in cookie")),
        Some(c) => c,
    };
    let expected = String::from_str(state);
    if !(cookie == expected) {
        return Err(String::from_str("state mismatch, possible CSRF attack"));
    }
    match error {
        Some(e) => Err(e),
        None => Ok(code.unwrap()),
    }
}


/// The decision taken on the status of the token response: anything but a
/// success ends the run with the message the service answers.
pub fn token_status(status: u16) -> (r: Result<(), String>)
    ensures
        status_is_success(status) <==> r is Ok,
        r matches Err(m) ==> m@ == "error in console"@,
{
    if is_success(status) {
        Ok(())
    } else {
        Err(String::from_str("error in console"))
    }
}


/// Token form law: for every code, the form has exactly the fields `code`
/// (the code itself), `redirect_uri` and `grant_type` = `authorization_code`,
/// and its `redirect_uri` is the very pair sent with the authorization
/// request, which the code exchange must repeat.
pub proof fn lemma_token_form_fields(code: Seq<char>, client_id: Seq<char>, state: Seq<char>)
    ensures
        token_form_spec(code).len() == 3,
        token_form_spec(code)[0] == ("code"@, code),
        token_form_spec(code)[1].0 == "redirect_uri"@,
        token_form_spec(code)[2] == ("grant_type"@, "authorization_code"@),
        authorize_query(client_id, state)[3].0 == "redirect_uri"@,
        token_form_spec(code)[1] == authorize_query(client_id, state)[3],
        redirect_uri_text() == "http://127.0.0.1:3000/logincallback"@,
{
    reveal_strlit("http://127.0.0.1:");
    reveal_strlit("3000");
    reveal_strlit("/logincallback");
    reveal_strlit("http://127.0.0.1:3000/logincallback");
    assert(redirect_uri_text() =~= "http://127.0.0.1:3000/logincallback"@);
}

/// Authorization query law: for every client id and state, the query asks
/// for a `code` response for `client_id`, with scope `user-library-read`,
/// and carries the state unchanged.
pub proof fn lemma_authorize_query_fields(client_id: Seq<char>, state: Seq<char>)
    ensures
        authorize_query(client_id, state).len() == 5,
        authorize_query(client_id, state)[0] == ("response_type"@, "code"@),
        authorize_query(client_id, state)[1] == ("client_id"@, client_id),
        authorize_query(client_id, state)[2] == ("scope"@, "user-library-read"@),
        authorize_query(client_id, state)[4] == ("state"@, state),
{
}

} // verus!
