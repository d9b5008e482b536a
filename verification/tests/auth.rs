use calendar_notifier::auth::{
    auth_request, begin, exchange, exchange_form, finish, handle_loopback_request,
    loopback_redirect_uri, pkce, pkce_challenge, refresh_access_token, refresh_form, token_grant,
    AuthError, ClientCreds, ExchangeRequest, LoopbackOutcome, PendingAuth, TokenResponse, UserInfo,
    BLANK_PAGE, DONE_PAGE, SCOPES, USERINFO_URL,
};

fn creds(auth_uri: &str) -> ClientCreds {
    ClientCreds {
        client_id: "cid".to_string(),
        client_secret: "secret".to_string(),
        auth_uri: auth_uri.to_string(),
        token_uri: "https://oauth2.googleapis.com/token".to_string(),
    }
}

fn strs(v: &[(String, String)]) -> Vec<(&str, &str)> {
    v.iter().map(|(a, b)| (a.as_str(), b.as_str())).collect()
}

#[test]
fn pkce_challenge_rfc7636_vector() {
    let v = "dBjftJeZ4CVP-mB92K27uhbUJU1p1r_wW1gFWFOEjXk".to_string();
    assert_eq!(pkce_challenge(&v), "E9Melhoa2OwvFrEMTJguCHaoeK1t8URWbuGJSstw-cM");
}

#[test]
fn pkce_pair_is_consistent() {
    let (verifier, challenge) = pkce().unwrap();
    assert_eq!(verifier.chars().count(), 64);
    assert!(verifier.chars().all(|c| c.is_ascii_alphanumeric() || c == '-' || c == '_'));
    assert_eq!(challenge, pkce_challenge(&verifier));
    assert_eq!(challenge.chars().count(), 43);
    assert!(challenge.chars().all(|c| c.is_ascii_alphanumeric() || c == '-' || c == '_'));
    let (v2, _) = pkce().unwrap();
    assert_ne!(verifier, v2);
}

#[test]
fn loopback_uri_text() {
    assert_eq!(loopback_redirect_uri(5555), "http://127.0.0.1:5555");
    assert_eq!(loopback_redirect_uri(0), "http://127.0.0.1:0");
}

#[test]
fn consent_url_exact() {
    let p = auth_request(
        &creds("https://accounts.google.com/o/oauth2/auth"),
        5555,
        "dBjftJeZ4CVP-mB92K27uhbUJU1p1r_wW1gFWFOEjXk".to_string(),
        "st".to_string(),
    )
    .unwrap();
    assert_eq!(
        p.auth_url,
        "https://accounts.google.com/o/oauth2/auth?client_id=cid&redirect_uri=http%3A%2F%2F127.0.0.1%3A5555&response_type=code&scope=openid+email+https%3A%2F%2Fwww.googleapis.com%2Fauth%2Fcalendar.readonly&code_challenge=E9Melhoa2OwvFrEMTJguCHaoeK1t8URWbuGJSstw-cM&code_challenge_method=S256&state=st&access_type=offline&prompt=consent"
    );
    assert_eq!(p.redirect_uri, "http://127.0.0.1:5555");
    assert_eq!(p.state, "st");
    assert_eq!(SCOPES, "openid email https://www.googleapis.com/auth/calendar.readonly");
    assert_eq!(USERINFO_URL, "https://openidconnect.googleapis.com/v1/userinfo");
}

#[test]
fn consent_url_rejects_relative_auth_uri() {
    let r = auth_request(&creds("not a url"), 1, "v".to_string(), "s".to_string());
    assert!(matches!(r, Err(AuthError::InvalidAuthUri(_))));
}

#[test]
fn begin_makes_fresh_context() {
    let p = begin(&creds("https://accounts.google.com/o/oauth2/auth"), 4242).unwrap();
    assert_eq!(p.verifier.chars().count(), 64);
    assert_eq!(p.state.chars().count(), 32);
    assert_eq!(p.redirect_uri, "http://127.0.0.1:4242");
    assert!(p.auth_url.starts_with("https://accounts.google.com/o/oauth2/auth?client_id=cid&"));
    assert!(p.auth_url.contains(&format!("&state={}&", p.state)));
    assert!(p.auth_url.contains(&format!("code_challenge={}&", pkce_challenge(&p.verifier))));
    assert!(matches!(begin(&creds(""), 1), Err(AuthError::InvalidAuthUri(_))));
}

#[test]
fn loopback_redirect_with_code() {
    let r = handle_loopback_request("GET /?state=xyz&code=4%2Fabc&scope=email HTTP/1.1\r\nHost: 127.0.0.1\r\n\r\n");
    match r.outcome {
        LoopbackOutcome::Authorized { code, state } => {
            assert_eq!(code, "4/abc");
            assert_eq!(state, "xyz");
        }
        _ => panic!("expected the authorization"),
    }
    let expected = format!(
        "HTTP/1.1 200 OK\r\nContent-Type: text/html; charset=utf-8\r\nContent-Length: {}\r\nConnection: close\r\n\r\n{}",
        DONE_PAGE.len(),
        DONE_PAGE
    );
    assert_eq!(r.response, expected);
}

#[test]
fn loopback_other_requests_wait() {
    let r = handle_loopback_request("GET /favicon.ico HTTP/1.1\r\n\r\n");
    assert!(matches!(r.outcome, LoopbackOutcome::Waiting));
    assert!(r.response.ends_with(BLANK_PAGE));
    assert!(r.response.contains("Content-Length: 26\r\n"));
    let r = handle_loopback_request("");
    assert!(matches!(r.outcome, LoopbackOutcome::Waiting));
    let r = handle_loopback_request("GET /?code=only HTTP/1.1\r\n\r\n");
    assert!(matches!(r.outcome, LoopbackOutcome::Waiting));
}

#[test]
fn loopback_refusal() {
    let r = handle_loopback_request("GET /?error=access_denied&state=s HTTP/1.1\r\n\r\n");
    match r.outcome {
        LoopbackOutcome::Denied { error } => assert_eq!(error, "access_denied"),
        _ => panic!("expected the refusal"),
    }
    assert!(r.response.ends_with(DONE_PAGE));
}

fn pending() -> PendingAuth {
    PendingAuth {
        auth_url: String::new(),
        verifier: "ver".to_string(),
        state: "st".to_string(),
        redirect_uri: "http://127.0.0.1:1".to_string(),
    }
}

#[test]
fn finish_checks_state() {
    let x = finish(&pending(), "code".to_string(), "st").unwrap();
    assert_eq!(x.code, "code");
    assert_eq!(x.verifier, "ver");
    assert_eq!(x.redirect_uri, "http://127.0.0.1:1");
    assert!(matches!(finish(&pending(), "code".to_string(), "other"), Err(AuthError::StateMismatch)));
}

#[test]
fn token_forms() {
    let c = creds("https://a");
    let req = ExchangeRequest { code: "k".to_string(), verifier: "v".to_string(), redirect_uri: "r".to_string() };
    let f = exchange_form(&c, &req);
    assert_eq!(
        strs(&f),
        vec![
            ("client_id", "cid"),
            ("client_secret", "secret"),
            ("code", "k"),
            ("code_verifier", "v"),
            ("grant_type", "authorization_code"),
            ("redirect_uri", "r"),
        ]
    );
    let f = refresh_form(&c, "rt");
    assert_eq!(
        strs(&f),
        vec![("client_id", "cid"), ("client_secret", "secret"), ("refresh_token", "rt"), ("grant_type", "refresh_token")]
    );
}

#[test]
fn grants_and_connection() {
    let missing = TokenResponse { access_token: "a".to_string(), expires_in: 10, refresh_token: None };
    assert!(matches!(token_grant(missing), Err(AuthError::NoRefreshToken)));
    let ok = TokenResponse { access_token: "a".to_string(), expires_in: 10, refresh_token: Some("r".to_string()) };
    let g = token_grant(ok).unwrap();
    assert_eq!(g.refresh_token, "r");
    let c = exchange(g, UserInfo { email: "e@x".to_string(), name: None });
    assert_eq!(c.display_name, "e@x");
    assert_eq!(c.access_token, "a");
    assert_eq!(c.expires_in, 10);
    let g = token_grant(TokenResponse { access_token: "a".to_string(), expires_in: 1, refresh_token: Some("r".to_string()) }).unwrap();
    let c = exchange(g, UserInfo { email: "e@x".to_string(), name: Some("Eva".to_string()) });
    assert_eq!(c.display_name, "Eva");
    let (at, exp) = refresh_access_token(TokenResponse { access_token: "new".to_string(), expires_in: 3599, refresh_token: None });
    assert_eq!(at, "new");
    assert_eq!(exp, 3599);
}

#[test]
fn auth_error_messages() {
    assert_eq!(AuthError::StateMismatch.message(), "state inválido (possível CSRF) — tente conectar novamente");
    assert_eq!(AuthError::Denied("access_denied".to_string()).message(), "autorização negada: access_denied");
    assert_eq!(AuthError::Randomness("x".to_string()).message(), "falha ao gerar aleatoriedade: x");
    assert_eq!(AuthError::InvalidAuthUri("bad".to_string()).message(), "bad");
    assert!(AuthError::NoRefreshToken.message().starts_with("Google não retornou refresh_token."));
}
