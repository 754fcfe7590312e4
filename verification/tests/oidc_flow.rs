use kosmos_explorer::oidc::{
    authorization_url, callback_step, check_discovery_status, discovery_url, generate_pkce,
    generate_state, html_page, pkce_pair, redirect_uri, success_message, token_form,
    token_refused, CallbackStep,
};

const RFC7636_SEED: [u8; 32] = [
    116, 24, 223, 180, 151, 153, 224, 37, 79, 250, 96, 125, 216, 173, 187, 186, 22, 212, 37, 77,
    105, 214, 191, 240, 91, 88, 5, 88, 83, 132, 141, 121,
];

fn is_verifier_char(c: char) -> bool {
    c.is_ascii_alphanumeric() || c == '-' || c == '.' || c == '_' || c == '~'
}

#[test]
fn pkce_pair_matches_rfc7636_example() {
    let (verifier, challenge) = pkce_pair(&RFC7636_SEED);
    assert_eq!(verifier, "dBjftJeZ4CVP-mB92K27uhbUJU1p1r_wW1gFWFOEjXk");
    assert_eq!(challenge, "E9Melhoa2OwvFrEMTJguCHaoeK1t8URWbuGJSstw-cM");
}

#[test]
fn pkce_pair_of_short_seeds() {
    assert_eq!(pkce_pair(&[]).0, "");
    assert_eq!(pkce_pair(&[0xfb]).0, "-w");
    assert_eq!(pkce_pair(&[0xfb, 0xff]).0, "-_8");
}

#[test]
fn generated_verifier_meets_rfc7636() {
    let (verifier, challenge) = generate_pkce();
    assert_eq!(verifier.chars().count(), 43);
    assert!(verifier.chars().all(is_verifier_char));
    assert_eq!(challenge.chars().count(), 43);
    assert!(challenge.chars().all(is_verifier_char));
}

#[test]
fn generated_state_has_22_characters() {
    let state = generate_state();
    assert_eq!(state.chars().count(), 22);
    assert!(state.chars().all(is_verifier_char));
}

#[test]
fn discovery_url_of_server() {
    assert_eq!(
        discovery_url("https://cloud.example/"),
        "https://cloud.example/.well-known/openid-configuration"
    );
}

#[test]
fn discovery_status_check() {
    assert_eq!(check_discovery_status(200, "200 OK"), Ok(()));
    assert_eq!(
        check_discovery_status(404, "404 Not Found"),
        Err("OIDC Discovery: HTTP 404 Not Found".to_string())
    );
    assert_eq!(
        check_discovery_status(401, "401 Unauthorized"),
        Err("OIDC Discovery: HTTP 401 Unauthorized".to_string())
    );
}

#[test]
fn redirect_uri_names_the_port() {
    assert_eq!(redirect_uri(8080), "http://127.0.0.1:8080/callback");
    assert_eq!(redirect_uri(0), "http://127.0.0.1:0/callback");
    assert_eq!(redirect_uri(65535), "http://127.0.0.1:65535/callback");
}

#[test]
fn authorization_url_has_every_parameter() {
    let url = authorization_url(
        "https://idp.example/auth",
        "http://127.0.0.1:8080/callback",
        "st4te",
        "ch4llenge",
    );
    assert_eq!(
        url,
        "https://idp.example/auth?response_type=code&client_id=OpenCloudDesktop&redirect_uri=http%3A%2F%2F127.0.0.1%3A8080%2Fcallback&scope=openid%20profile%20email&state=st4te&code_challenge=ch4llenge&code_challenge_method=S256"
    );
}

#[test]
fn callback_with_code_and_state_is_exchanged() {
    let req = b"GET /callback?code=abc&state=xyz HTTP/1.1\r\nHost: 127.0.0.1\r\n\r\n";
    match callback_step(req, "xyz") {
        CallbackStep::Exchange { code } => assert_eq!(code, "abc"),
        _ => panic!("expected an exchange"),
    }
}

#[test]
fn callback_with_wrong_state_is_refused() {
    let req = b"GET /callback?code=abc&state=xyz HTTP/1.1\r\n\r\n";
    match callback_step(req, "other") {
        CallbackStep::Reject { page_message, error } => {
            assert_eq!(page_message, "Ungültiger State");
            assert_eq!(error, "State mismatch");
        },
        _ => panic!("expected a rejection"),
    }
}

#[test]
fn callback_without_state_is_refused() {
    let req = b"GET /callback?code=abc HTTP/1.1\r\n\r\n";
    assert!(matches!(callback_step(req, "xyz"), CallbackStep::Reject { .. }));
}

#[test]
fn callback_with_provider_error_shows_it() {
    let req = b"GET /callback?error=access_denied&error_description=User+denied%21&code=abc HTTP/1.1\r\n\r\n";
    match callback_step(req, "xyz") {
        CallbackStep::Reject { page_message, error } => {
            assert_eq!(error, "access_denied: User denied!");
            assert_eq!(page_message, "Fehler: access_denied: User denied!");
        },
        _ => panic!("expected a rejection"),
    }
}

#[test]
fn callback_with_error_without_description() {
    let req = b"GET /callback?error=server_error HTTP/1.1\r\n\r\n";
    match callback_step(req, "xyz") {
        CallbackStep::Reject { error, .. } => assert_eq!(error, "server_error: "),
        _ => panic!("expected a rejection"),
    }
}

#[test]
fn callback_without_code_aborts() {
    let req = b"GET /callback?state=xyz HTTP/1.1\r\n\r\n";
    match callback_step(req, "xyz") {
        CallbackStep::Abort { error } => assert_eq!(error, "Kein Code"),
        _ => panic!("expected an abort"),
    }
}

#[test]
fn empty_request_aborts_without_code() {
    match callback_step(b"", "xyz") {
        CallbackStep::Abort { error } => assert_eq!(error, "Kein Code"),
        _ => panic!("expected an abort"),
    }
}

#[test]
fn callback_with_unparsable_target_aborts() {
    let req = b"GET :99999 HTTP/1.1\r\n\r\n";
    match callback_step(req, "xyz") {
        CallbackStep::Abort { error } => assert_eq!(error, "URL parse error"),
        _ => panic!("expected an abort"),
    }
}

#[test]
fn callback_last_duplicate_parameter_wins() {
    let req = b"GET /callback?code=a&code=b&state=s HTTP/1.1\r\n\r\n";
    match callback_step(req, "s") {
        CallbackStep::Exchange { code } => assert_eq!(code, "b"),
        _ => panic!("expected an exchange"),
    }
}

#[test]
fn callback_reads_invalid_utf8_lossily() {
    let mut req = b"GET /callback?code=x".to_vec();
    req.push(0xff);
    req.extend_from_slice(b"&state=s HTTP/1.1\r\n\r\n");
    match callback_step(&req, "s") {
        CallbackStep::Exchange { code } => assert_eq!(code, "x\u{FFFD}"),
        _ => panic!("expected an exchange"),
    }
}

#[test]
fn callback_request_line_with_tabs() {
    let req = b"GET\t/callback?code=c1&state=s\tHTTP/1.1";
    match callback_step(req, "s") {
        CallbackStep::Exchange { code } => assert_eq!(code, "c1"),
        _ => panic!("expected an exchange"),
    }
}

#[test]
fn token_form_fields() {
    let form = token_form("the-code", "http://127.0.0.1:1/callback", "ver");
    let expected = vec![
        ("grant_type".to_string(), "authorization_code".to_string()),
        ("client_id".to_string(), "OpenCloudDesktop".to_string()),
        ("code".to_string(), "the-code".to_string()),
        ("redirect_uri".to_string(), "http://127.0.0.1:1/callback".to_string()),
        ("code_verifier".to_string(), "ver".to_string()),
    ];
    assert_eq!(form, expected);
}

#[test]
fn refused_token_shows_the_body() {
    match token_refused("invalid_grant") {
        CallbackStep::Reject { page_message, error } => {
            assert_eq!(page_message, "Token-Fehler: invalid_grant");
            assert_eq!(error, "invalid_grant");
        },
        _ => panic!("expected a rejection"),
    }
}

#[test]
fn html_page_wraps_the_message() {
    let page = html_page("Hallo");
    assert!(page.starts_with("HTTP/1.1 200 OK\r\nContent-Type: text/html; charset=utf-8\r\nConnection: close\r\n\r\n<html><body style='font-family:Segoe UI,sans-serif;"));
    assert!(page.ends_with("<p>Hallo</p></body></html>"));
    assert_eq!(success_message(), "Anmeldung erfolgreich. Fenster wird geschlossen...");
}
