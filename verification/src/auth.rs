//! OAuth 2.0 for installed apps with PKCE and a loopback redirect: the
//! consent URL, the PKCE pair, the loopback protocol and the token grants.
//! Sockets and HTTP belong to the caller; these functions decide.
use vstd::prelude::*;
use vstd::string::StringExecFns;
use sha2::Digest;
use base64::Engine;
use crate::text::{
    chars_of, decimal_chars, first_line, first_line_chars, push_decimal, string_from_chars,
    words, words_of,
};

verus! {

/// The Google OAuth client of the app ("Desktop app" credentials).
pub struct ClientCreds {
    pub client_id: String,
    pub client_secret: String,
    pub auth_uri: String,
    pub token_uri: String,
}

/// What a successful connection yields.
pub struct Connected {
    pub email: String,
    pub display_name: String,
    pub refresh_token: String,
    pub access_token: String,
    pub expires_in: i64,
}

/// An authorization in progress: the consent URL and the PKCE context that
/// the token exchange needs (the loopback listener stays with the caller).
pub struct PendingAuth {
    pub auth_url: String,
    pub verifier: String,
    pub state: String,
    pub redirect_uri: String,
}

/// The token endpoint's answer.
pub struct TokenResponse {
    pub access_token: String,
    pub expires_in: i64,
    pub refresh_token: Option<String>,
}

/// The userinfo endpoint's answer.
pub struct UserInfo {
    pub email: String,
    pub name: Option<String>,
}

/// Why an authorization step failed.
#[derive(Debug)]
pub enum AuthError {
    /// The system's random source failed (its message).
    Randomness(String),
    /// The client's `auth_uri` is not an absolute URL (the parser's message).
    InvalidAuthUri(String),
    /// The redirect carried another `state` than the one sent.
    StateMismatch,
    /// The user refused on the consent screen (the `error` parameter).
    Denied(String),
    /// The token endpoint answered without a refresh token.
    NoRefreshToken,
}

/// The scopes asked for: identity and read-only calendar access.
pub const SCOPES: &'static str = "openid email https://www.googleapis.com/auth/calendar.readonly";

/// Where the account's address and name are read.
pub const USERINFO_URL: &'static str = "https://openidconnect.googleapis.com/v1/userinfo";

// ---------------------------------------------------------------------------
// outside computations
// ---------------------------------------------------------------------------

/// Key/value pairs as character sequences.
pub open spec fn pairs_view(pairs: Seq<(String, String)>) -> Seq<(Seq<char>, Seq<char>)> {
    pairs.map_values(|p: (String, String)| (p.0@, p.1@))
}

/// What `url::Url::parse_with_params` gives for `input` and `pairs`: the
/// serialization of the URL it builds, or, when `input` is not an absolute
/// URL, the message of its parse error.
pub uninterp spec fn url_with_params(
    input: Seq<char>,
    pairs: Seq<(Seq<char>, Seq<char>)>,
) -> Result<Seq<char>, Seq<char>>;

/// `url::Url::parse_with_params(input, pairs)`, serialized (its error as
/// its message).
///
/// Trusted: the result is the named `url_with_params` of the arguments;
/// nothing more is claimed of the URL syntax.
#[verifier::external_body]
fn parse_with_params(input: &str, pairs: &Vec<(String, String)>) -> (r: Result<String, String>)
    ensures
        r matches Ok(s) ==> (url_with_params(input@, pairs_view(pairs@)) matches Ok(u) && u == s@),
        r matches Err(m) ==> (url_with_params(input@, pairs_view(pairs@)) matches Err(t) && t
            == m@),
{
    match url::Url::parse_with_params(input, pairs.iter()) {
        Ok(u) => Ok(u.to_string()),
        Err(e) => Err(e.to_string()),
    }
}

/// The decoded query pairs, in order, of the URL that `url::Url::parse`
/// reads from `input`; `None` when `input` does not parse.
pub uninterp spec fn url_query_pairs(input: Seq<char>) -> Option<Seq<(Seq<char>, Seq<char>)>>;

/// `url::Url::parse(input)` followed by `query_pairs()`.
///
/// Trusted: the result is the named `url_query_pairs` of `input`.
#[verifier::external_body]
pub(crate) fn query_pairs_of(input: &str) -> (r: Option<Vec<(String, String)>>)
    ensures
        r matches Some(v) ==> url_query_pairs(input@) == Some(pairs_view(v@)),
        r is None ==> url_query_pairs(input@) is None,
{
    match url::Url::parse(input) {
        Ok(u) => Some(u.query_pairs().map(|(k, v)| (k.into_owned(), v.into_owned())).collect()),
        Err(_) => None,
    }
}

/// The unpadded base64url encoding (RFC 4648 §5) of `bytes`.
pub uninterp spec fn base64_url_no_pad(bytes: Seq<u8>) -> Seq<char>;

/// A character of the URL-safe base64 alphabet: letters, digits, `-`, `_`.
pub open spec fn url_safe_char(c: char) -> bool {
    ||| ('A' <= c && c <= 'Z')
    ||| ('a' <= c && c <= 'z')
    ||| ('0' <= c && c <= '9')
    ||| c == '-'
    ||| c == '_'
}

/// Every character of `s` is of the URL-safe base64 alphabet.
pub open spec fn url_safe_text(s: Seq<char>) -> bool {
    forall|i: int| 0 <= i < s.len() ==> url_safe_char(#[trigger] s[i])
}

/// `base64::engine::general_purpose::URL_SAFE_NO_PAD.encode(bytes)`.
///
/// Trusted: the result is the named `base64_url_no_pad` of `bytes`, and has
/// the length that the crate's `encoded_len` gives without padding
/// (4 characters per 3 bytes, 2 or 3 for a last partial group), written
/// with the URL-safe alphabet and no `=` padding.  The crate panics when
/// that length overflows, hence the bound.
#[verifier::external_body]
fn b64url(bytes: &[u8]) -> (s: String)
    requires
        bytes@.len() <= 1_000_000,
    ensures
        s@ == base64_url_no_pad(bytes@),
        s@.len() == (4 * bytes@.len() + 2) / 3,
        url_safe_text(s@),
{
    base64::engine::general_purpose::URL_SAFE_NO_PAD.encode(bytes)
}

/// The SHA-256 digest of `bytes`.
pub uninterp spec fn sha256(bytes: Seq<u8>) -> Seq<u8>;

/// `sha2::Sha256::digest(bytes)`.
///
/// Trusted: the result is the named `sha256` of `bytes`, 32 bytes long
/// (the digest's output size).
#[verifier::external_body]
fn sha256_digest(bytes: &[u8]) -> (d: Vec<u8>)
    ensures
        d@ == sha256(bytes@),
        d@.len() == 32,
{
    sha2::Sha256::digest(bytes).to_vec()
}

/// `getrandom::getrandom(buf)`: fills `buf` with random bytes (an error
/// comes back as its message).
///
/// Trusted: the buffer keeps its length.  Not stated: its new content and
/// the text of an error, which come from the operating system.
#[verifier::external_body]
fn fill_random(buf: &mut Vec<u8>) -> (r: Result<(), String>)
    ensures
        final(buf)@.len() == old(buf)@.len(),
{
    match getrandom::getrandom(buf.as_mut_slice()) {
        Ok(()) => Ok(()),
        Err(e) => Err(e.to_string()),
    }
}

// ---------------------------------------------------------------------------
// PKCE and the consent URL
// ---------------------------------------------------------------------------

/// `n` random bytes, base64url-encoded.
fn random_b64(n: usize) -> (r: Result<String, AuthError>)
    requires
        n <= 1_000_000,
    ensures
        r matches Err(e) ==> e is Randomness,
        r matches Ok(s) ==> s@.len() == (4 * n + 2) / 3 && url_safe_text(s@) && exists|b: Seq<u8>|
            b.len() == n && s@ == base64_url_no_pad(b),
{
    let mut buf: Vec<u8> = vec![0u8; n];
    match fill_random(&mut buf) {
        Ok(()) => {
            let s = b64url(buf.as_slice());
            assert(buf@.len() == n);
            Ok(s)
        },
        Err(e) => Err(AuthError::Randomness(e)),
    }
}

/// The PKCE (S256) challenge of `verifier`: the base64url SHA-256 of its
/// UTF-8 bytes.
pub open spec fn challenge_of(verifier: Seq<char>) -> Seq<char> {
    base64_url_no_pad(sha256(vstd::utf8::encode_utf8(verifier)))
}

/// The PKCE challenge of `verifier`.
pub fn pkce_challenge(verifier: &String) -> (c: String)
    ensures
        c@ == challenge_of(verifier@),
        c@.len() == 43,
        url_safe_text(c@),
{
    let bytes = verifier.as_str().as_bytes();
    let d = sha256_digest(bytes);
    b64url(d.as_slice())
}

/// A fresh PKCE pair: a verifier made of 48 random bytes (64 characters)
/// and its S256 challenge.
pub fn pkce() -> (r: Result<(String, String), AuthError>)
    ensures
        r matches Ok(p) ==> p.0@.len() == 64 && url_safe_text(p.0@) && p.1@ == challenge_of(p.0@)
            && p.1@.len() == 43 && url_safe_text(p.1@) && exists|b: Seq<u8>|
            b.len() == 48 && p.0@ == base64_url_no_pad(b),
        r matches Err(e) ==> e is Randomness,
{
    let verifier = random_b64(48)?;
    let challenge = pkce_challenge(&verifier);
    Ok((verifier, challenge))
}

/// The redirect URI of a loopback listener on `port`.
pub open spec fn loopback_uri(port: u16) -> Seq<char> {
    "http://127.0.0.1:"@ + decimal_chars(port as nat)
}

/// `http://127.0.0.1:<port>`.
pub fn loopback_redirect_uri(port: u16) -> (r: String)
    ensures
        r@ == loopback_uri(port),
{
    let mut v = chars_of("http://127.0.0.1:");
    push_decimal(&mut v, port as u64);
    string_from_chars(&v)
}

/// The query of the consent URL, in order.
pub open spec fn consent_params(
    client_id: Seq<char>,
    redirect_uri: Seq<char>,
    challenge: Seq<char>,
    state: Seq<char>,
) -> Seq<(Seq<char>, Seq<char>)> {
    seq![
        ("client_id"@, client_id),
        ("redirect_uri"@, redirect_uri),
        ("response_type"@, "code"@),
        ("scope"@, SCOPES@),
        ("code_challenge"@, challenge),
        ("code_challenge_method"@, "S256"@),
        ("state"@, state),
        ("access_type"@, "offline"@),
        ("prompt"@, "consent"@),
    ]
}

pub fn pair(k: &str, v: &str) -> (p: (String, String))
    ensures
        p.0@ == k@,
        p.1@ == v@,
{
    (String::from_str(k), String::from_str(v))
}

/// Builds the pending authorization for a listener on `port`, given the
/// PKCE verifier and the anti-forgery `state`.
pub fn auth_request(creds: &ClientCreds, port: u16, verifier: String, state: String) -> (r:
    Result<PendingAuth, AuthError>)
    ensures
        r matches Ok(p) ==> {
            &&& p.verifier@ == verifier@
            &&& p.state@ == state@
            &&& p.redirect_uri@ == loopback_uri(port)
            &&& url_with_params(
                creds.auth_uri@,
                consent_params(creds.client_id@, loopback_uri(port), challenge_of(verifier@), state@),
            ) matches Ok(u) && u == p.auth_url@
        },
        r matches Err(e) ==> (e matches AuthError::InvalidAuthUri(m) && url_with_params(
            creds.auth_uri@,
            consent_params(creds.client_id@, loopback_uri(port), challenge_of(verifier@), state@),
        ) matches Err(t) && t == m@),
{
    let redirect_uri = loopback_redirect_uri(port);
    let challenge = pkce_challenge(&verifier);
    let mut params: Vec<(String, String)> = Vec::new();
    params.push(pair("client_id", creds.client_id.as_str()));
    params.push(pair("redirect_uri", redirect_uri.as_str()));
    params.push(pair("response_type", "code"));
    params.push(pair("scope", SCOPES));
    params.push(pair("code_challenge", challenge.as_str()));
    params.push(pair("code_challenge_method", "S256"));
    params.push(pair("state", state.as_str()));
    params.push(pair("access_type", "offline"));
    params.push(pair("prompt", "consent"));
    assert(pairs_view(params@) =~= consent_params(
        creds.client_id@,
        loopback_uri(port),
        challenge_of(verifier@),
        state@,
    ));
    match parse_with_params(creds.auth_uri.as_str(), &params) {
        Ok(auth_url) => Ok(PendingAuth { auth_url, verifier, state, redirect_uri }),
        Err(e) => Err(AuthError::InvalidAuthUri(e)),
    }
}

/// Prepares the authorization for a loopback listener on `port`: a fresh
/// PKCE verifier (64 characters) and state (32 characters from 24 random
/// bytes), and the consent URL built from them.
pub fn begin(creds: &ClientCreds, port: u16) -> (r: Result<PendingAuth, AuthError>)
    ensures
        r matches Ok(p) ==> {
            &&& p.verifier@.len() == 64
            &&& p.state@.len() == 32
            &&& url_safe_text(p.verifier@)
            &&& url_safe_text(p.state@)
            &&& exists|b: Seq<u8>| b.len() == 48 && p.verifier@ == base64_url_no_pad(b)
            &&& exists|b: Seq<u8>| b.len() == 24 && p.state@ == base64_url_no_pad(b)
            &&& p.redirect_uri@ == loopback_uri(port)
            &&& url_with_params(
                creds.auth_uri@,
                consent_params(creds.client_id@, loopback_uri(port), challenge_of(p.verifier@), p.state@),
            ) matches Ok(u) && u == p.auth_url@
        },
        r matches Err(e) ==> e is Randomness || e is InvalidAuthUri,
{
    let verifier = random_b64(48)?;
    let state = random_b64(24)?;
    auth_request(creds, port, verifier, state)
}

// ---------------------------------------------------------------------------
// the loopback redirect
// ---------------------------------------------------------------------------

/// The value of the last pair with key `key`.
pub open spec fn last_value(pairs: Seq<(Seq<char>, Seq<char>)>, key: Seq<char>) -> Option<Seq<char>>
    decreases pairs.len(),
{
    if pairs.len() == 0 {
        None
    } else if pairs.last().0 == key {
        Some(pairs.last().1)
    } else {
        last_value(pairs.drop_last(), key)
    }
}

/// The value of the last pair whose key is `key`.
pub fn last_value_of(pairs: &Vec<(String, String)>, key: &str) -> (r: Option<String>)
    ensures
        r matches Some(v) ==> last_value(pairs_view(pairs@), key@) == Some(v@),
        r is None ==> last_value(pairs_view(pairs@), key@) is None,
{
    let k = String::from_str(key);
    let mut i: usize = pairs.len();
    let ghost pv = pairs_view(pairs@);
    assert(pv.take(i as int) =~= pv);
    while i > 0
        invariant
            i <= pairs@.len(),
            pv == pairs_view(pairs@),
            k@ == key@,
            last_value(pv, key@) == last_value(pv.take(i as int), key@),
        decreases i,
    {
        assert(pv.take(i as int).drop_last() =~= pv.take(i - 1));
        if pairs[i - 1].0 == k {
            return Some(pairs[i - 1].1.clone());
        }
        i = i - 1;
    }
    None
}

/// What a request to the loopback listener means.
pub enum LoopbackOutcome {
    /// Not the redirect (a favicon request, say): keep listening.
    Waiting,
    /// The redirect with an authorization code.
    Authorized { code: String, state: String },
    /// The redirect of a refusal.
    Denied { error: String },
}

/// The answer to a loopback request and what it means.
pub struct LoopbackReply {
    pub response: String,
    pub outcome: LoopbackOutcome,
}

/// The page shown once the redirect arrived.
pub const DONE_PAGE: &'static str = "<html><body style='font-family:sans-serif;text-align:center;padding-top:15vh'><h2>Pode fechar esta aba \u{2713}</h2><p>Volte ao Calendar Notifier.</p></body></html>";

/// The page shown to any other request.
pub const BLANK_PAGE: &'static str = "<html><body></body></html>";

/// The path of an HTTP request: the second word of its first line, `/`
/// when there is none.
pub open spec fn request_path(request: Seq<char>) -> Seq<char> {
    let w = words(first_line(request));
    if w.len() > 1 {
        w[1]
    } else {
        "/"@
    }
}

/// The query pairs of the redirect that a request carries (empty when the
/// URL does not parse).
pub open spec fn request_pairs(request: Seq<char>) -> Seq<(Seq<char>, Seq<char>)> {
    match url_query_pairs("http://127.0.0.1"@ + request_path(request)) {
        Some(p) => p,
        None => Seq::empty(),
    }
}

/// A `200 OK` HTML response with `body`.
pub open spec fn http_ok(body: &str) -> Seq<char> {
    "HTTP/1.1 200 OK\r\nContent-Type: text/html; charset=utf-8\r\nContent-Length: "@
        + decimal_chars(vstd::utf8::encode_utf8(body@).len()) + "\r\nConnection: close\r\n\r\n"@ + body@
}

/// A UTF-8 encoding takes at most four bytes per character.
proof fn lemma_utf8_len(s: Seq<char>)
    ensures
        vstd::utf8::encode_utf8(s).len() <= 4 * s.len(),
    decreases s.len(),
{
    if s.len() > 0 {
        lemma_utf8_len(s.drop_first());
    }
}

fn http_ok_response(body: &str) -> (r: String)
    requires
        body@.len() <= 4096,
    ensures
        r@ == http_ok(body),
{
    proof {
        lemma_utf8_len(body@);
    }
    let mut v = chars_of(
        "HTTP/1.1 200 OK\r\nContent-Type: text/html; charset=utf-8\r\nContent-Length: ",
    );
    let n = body.len();
    push_decimal(&mut v, n as u64);
    let mut tail = chars_of("\r\nConnection: close\r\n\r\n");
    let mut b = chars_of(body);
    v.append(&mut tail);
    v.append(&mut b);
    string_from_chars(&v)
}

/// Answers one request to the loopback listener.  A request whose query
/// holds `error` is a refusal; one with both `code` and `state` is the
/// redirect (the last value of each counts); the page thanks the user in
/// both cases and is blank otherwise.
pub fn handle_loopback_request(request: &str) -> (r: LoopbackReply)
    ensures
        ({
            let pairs = request_pairs(request@);
            let code = last_value(pairs, "code"@);
            let state = last_value(pairs, "state"@);
            let error = last_value(pairs, "error"@);
            let done = error is Some || (code is Some && state is Some);
            &&& r.response@ == (if done {
                http_ok(DONE_PAGE)
            } else {
                http_ok(BLANK_PAGE)
            })
            &&& match r.outcome {
                LoopbackOutcome::Denied { error: e } => error == Some(e@),
                LoopbackOutcome::Authorized { code: c, state: s } => error is None && code == Some(
                    c@,
                ) && state == Some(s@),
                LoopbackOutcome::Waiting => !done,
            }
        }),
{
    let cs = chars_of(request);
    let line = first_line_chars(&cs);
    let ws = words_of(&line);
    let mut url = chars_of("http://127.0.0.1");
    if ws.len() > 1 {
        let mut p: Vec<char> = Vec::new();
        let mut i: usize = 0;
        while i < ws[1].len()
            invariant
                ws@.len() > 1,
                i <= ws@[1]@.len(),
                p@ == ws@[1]@.take(i as int),
            decreases ws@[1]@.len() - i,
        {
            p.push(ws[1][i]);
            i = i + 1;
            assert(p@ =~= ws@[1]@.take(i as int));
        }
        assert(ws@[1]@.take(ws@[1]@.len() as int) =~= ws@[1]@);
        url.append(&mut p);
    } else {
        let mut slash = chars_of("/");
        url.append(&mut slash);
    }
    assert(url@ =~= "http://127.0.0.1"@ + request_path(request@));
    let url_text = string_from_chars(&url);
    let pairs = match query_pairs_of(url_text.as_str()) {
        Some(p) => p,
        None => Vec::new(),
    };
    assert(pairs_view(pairs@) =~= request_pairs(request@));
    let code = last_value_of(&pairs, "code");
    let state = last_value_of(&pairs, "state");
    let error = last_value_of(&pairs, "error");
    let done = error.is_some() || (code.is_some() && state.is_some());
    proof {
        reveal_strlit("<html><body style='font-family:sans-serif;text-align:center;padding-top:15vh'><h2>Pode fechar esta aba \u{2713}</h2><p>Volte ao Calendar Notifier.</p></body></html>");
        reveal_strlit("<html><body></body></html>");
    }
    assert(DONE_PAGE@.len() <= 4096);
    assert(BLANK_PAGE@.len() <= 4096);
    let response = if done {
        http_ok_response(DONE_PAGE)
    } else {
        http_ok_response(BLANK_PAGE)
    };
    let outcome = match error {
        Some(e) => LoopbackOutcome::Denied { error: e },
        None => match (code, state) {
            (Some(c), Some(s)) => LoopbackOutcome::Authorized { code: c, state: s },
            _ => LoopbackOutcome::Waiting,
        },
    };
    LoopbackReply { response, outcome }
}

// ---------------------------------------------------------------------------
// token grants
// ---------------------------------------------------------------------------

/// What the token exchange needs.
pub struct ExchangeRequest {
    pub code: String,
    pub verifier: String,
    pub redirect_uri: String,
}

/// The redirect came back: the code can be exchanged if the `state` is the
/// one sent (otherwise it may be a forged request).
pub fn finish(pending: &PendingAuth, code: String, got_state: &str) -> (r: Result<
    ExchangeRequest,
    AuthError,
>)
    ensures
        r is Ok <==> got_state@ == pending.state@,
        r matches Ok(x) ==> x.code@ == code@ && x.verifier@ == pending.verifier@
            && x.redirect_uri@ == pending.redirect_uri@,
        r matches Err(e) ==> e is StateMismatch,
{
    let got = String::from_str(got_state);
    if got != pending.state {
        return Err(AuthError::StateMismatch);
    }
    Ok(
        ExchangeRequest {
            code,
            verifier: pending.verifier.clone(),
            redirect_uri: pending.redirect_uri.clone(),
        },
    )
}

/// The form posted to the token endpoint to exchange a code.
pub open spec fn exchange_params(
    creds: ClientCreds,
    code: Seq<char>,
    verifier: Seq<char>,
    redirect_uri: Seq<char>,
) -> Seq<(Seq<char>, Seq<char>)> {
    seq![
        ("client_id"@, creds.client_id@),
        ("client_secret"@, creds.client_secret@),
        ("code"@, code),
        ("code_verifier"@, verifier),
        ("grant_type"@, "authorization_code"@),
        ("redirect_uri"@, redirect_uri),
    ]
}

/// The code-exchange form.
pub fn exchange_form(creds: &ClientCreds, req: &ExchangeRequest) -> (r: Vec<(String, String)>)
    ensures
        pairs_view(r@) == exchange_params(*creds, req.code@, req.verifier@, req.redirect_uri@),
{
    let mut r: Vec<(String, String)> = Vec::new();
    r.push(pair("client_id", creds.client_id.as_str()));
    r.push(pair("client_secret", creds.client_secret.as_str()));
    r.push(pair("code", req.code.as_str()));
    r.push(pair("code_verifier", req.verifier.as_str()));
    r.push(pair("grant_type", "authorization_code"));
    r.push(pair("redirect_uri", req.redirect_uri.as_str()));
    assert(pairs_view(r@) =~= exchange_params(*creds, req.code@, req.verifier@, req.redirect_uri@));
    r
}

/// The form posted to the token endpoint to refresh an access token.
pub open spec fn refresh_params(creds: ClientCreds, refresh_token: Seq<char>) -> Seq<
    (Seq<char>, Seq<char>),
> {
    seq![
        ("client_id"@, creds.client_id@),
        ("client_secret"@, creds.client_secret@),
        ("refresh_token"@, refresh_token),
        ("grant_type"@, "refresh_token"@),
    ]
}

/// The refresh form.
pub fn refresh_form(creds: &ClientCreds, refresh_token: &str) -> (r: Vec<(String, String)>)
    ensures
        pairs_view(r@) == refresh_params(*creds, refresh_token@),
{
    let mut r: Vec<(String, String)> = Vec::new();
    r.push(pair("client_id", creds.client_id.as_str()));
    r.push(pair("client_secret", creds.client_secret.as_str()));
    r.push(pair("refresh_token", refresh_token));
    r.push(pair("grant_type", "refresh_token"));
    assert(pairs_view(r@) =~= refresh_params(*creds, refresh_token@));
    r
}

/// The tokens of a successful code exchange.
pub struct TokenGrant {
    pub access_token: String,
    pub refresh_token: String,
    pub expires_in: i64,
}

/// The code exchange succeeds only with a refresh token (Google omits it
/// when the app was already authorized without `prompt=consent`).
pub fn token_grant(res: TokenResponse) -> (r: Result<TokenGrant, AuthError>)
    ensures
        r is Ok <==> res.refresh_token is Some,
        r matches Ok(g) ==> g.access_token == res.access_token && Some(g.refresh_token)
            == res.refresh_token && g.expires_in == res.expires_in,
        r matches Err(e) ==> e is NoRefreshToken,
{
    match res.refresh_token {
        Some(rt) => Ok(
            TokenGrant {
                access_token: res.access_token,
                refresh_token: rt,
                expires_in: res.expires_in,
            },
        ),
        None => Err(AuthError::NoRefreshToken),
    }
}

/// The connected account: address from userinfo, its name (the address when
/// it has none) and the granted tokens.
pub fn exchange(grant: TokenGrant, info: UserInfo) -> (c: Connected)
    ensures
        c.email == info.email,
        c.display_name@ == (match info.name {
            Some(n) => n@,
            None => info.email@,
        }),
        c.refresh_token == grant.refresh_token,
        c.access_token == grant.access_token,
        c.expires_in == grant.expires_in,
{
    let display_name = match info.name {
        Some(n) => n,
        None => info.email.clone(),
    };
    Connected {
        email: info.email,
        display_name,
        refresh_token: grant.refresh_token,
        access_token: grant.access_token,
        expires_in: grant.expires_in,
    }
}

/// A refreshed access token and its lifetime.
pub fn refresh_access_token(res: TokenResponse) -> (r: (String, i64))
    ensures
        r.0 == res.access_token,
        r.1 == res.expires_in,
{
    (res.access_token, res.expires_in)
}

impl AuthError {
    /// The message shown to the user.
    pub fn message(&self) -> (m: String)
        ensures
            m@ == auth_error_text(*self),
    {
        match self {
            AuthError::Randomness(e) => {
                let mut m = String::from_str("falha ao gerar aleatoriedade: ");
                m.append(e.as_str());
                m
            },
            AuthError::InvalidAuthUri(e) => e.clone(),
            AuthError::StateMismatch => String::from_str(
                "state inválido (possível CSRF) — tente conectar novamente",
            ),
            AuthError::Denied(e) => {
                let mut m = String::from_str("autorização negada: ");
                m.append(e.as_str());
                m
            },
            AuthError::NoRefreshToken => String::from_str(
                "Google não retornou refresh_token. Revogue o acesso do app em myaccount.google.com/permissions e conecte novamente.",
            ),
        }
    }
}

/// The text of each authorization error.
pub open spec fn auth_error_text(e: AuthError) -> Seq<char> {
    match e {
        AuthError::Randomness(m) => "falha ao gerar aleatoriedade: "@ + m@,
        AuthError::InvalidAuthUri(m) => m@,
        AuthError::StateMismatch => "state inválido (possível CSRF) — tente conectar novamente"@,
        AuthError::Denied(m) => "autorização negada: "@ + m@,
        AuthError::NoRefreshToken => "Google não retornou refresh_token. Revogue o acesso do app em myaccount.google.com/permissions e conecte novamente."@,
    }
}

} // verus!
