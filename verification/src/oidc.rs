//! The OpenID Connect login with PKCE (RFC 7636): the URLs of the flow, the
//! verifier and challenge, and the decisions on the browser's callback.
use vstd::prelude::*;
use vstd::utf8::encode_utf8;
use crate::text::{
    chars_of, string_of, decimal, decimal_exec, words, words_exec, first_line, first_line_exec,
    views,
};
use crate::bindings::{
    base64_url, base64_url_encode, b64_char, sha256, sha256_digest, random_bytes, url_encode,
    percent_encode, url_query_pairs, query_pairs, utf8_lossy, from_utf8_lossy,
};
use crate::graph::{endpoint_url, api_url};

verus! {

/// The part of the token endpoint's reply that the login uses.
#[derive(Debug)]
pub struct TokenResponse {
    pub access_token: String,
}

// ---------------------------------------------------------------------
// URLs of the flow
// ---------------------------------------------------------------------

/// The client id under which the explorer logs in.
pub open spec fn client_id() -> Seq<char> {
    "OpenCloudDesktop"@
}

/// The OpenID discovery document of the server at `base`.
pub fn discovery_url(base: &str) -> (r: String)
    ensures
        r@ == endpoint_url(base@, "/.well-known/openid-configuration"@),
{
    api_url(base, "/.well-known/openid-configuration")
}

/// The error that the discovery reply with HTTP status `status` (shown as
/// `status_text`) gives: any status outside 200..=299.
pub open spec fn discovery_status_error(status: u16, status_text: Seq<char>) -> Option<Seq<char>> {
    if !(200 <= status <= 299) {
        Some("OIDC Discovery: HTTP "@ + status_text)
    } else {
        None
    }
}

/// Checks the HTTP status of the discovery reply.
pub fn check_discovery_status(status: u16, status_text: &str) -> (r: Result<(), String>)
    ensures
        match r {
            Ok(()) => discovery_status_error(status, status_text@) is None,
            Err(e) => discovery_status_error(status, status_text@) == Some(e@),
        },
        r is Ok <==> 200 <= status <= 299,
{
    if !(200 <= status && status <= 299) {
        let mut e = String::from_str("OIDC Discovery: HTTP ");
        e.append(status_text);
        Err(e)
    } else {
        Ok(())
    }
}

/// The redirect URI of the local callback server listening on `port`.
pub open spec fn redirect_uri_for(port: u16) -> Seq<char> {
    "http://127.0.0.1:"@ + decimal(port as nat) + "/callback"@
}

/// The redirect URI of the local callback server listening on `port`.
pub fn redirect_uri(port: u16) -> (r: String)
    ensures
        r@ == redirect_uri_for(port),
{
    let mut r = String::from_str("http://127.0.0.1:");
    r.append(string_of(decimal_exec(port as u64).as_slice()).as_str());
    r.append("/callback");
    r
}

/// The authorization request: authorization code flow with the S256 PKCE
/// challenge, scope `openid profile email`.
pub open spec fn authorization_request(
    endpoint: Seq<char>,
    redirect_uri: Seq<char>,
    state: Seq<char>,
    challenge: Seq<char>,
) -> Seq<char> {
    endpoint + "?response_type=code&client_id="@ + client_id() + "&redirect_uri="@ + url_encode(
        redirect_uri,
    ) + "&scope="@ + url_encode("openid profile email"@) + "&state="@ + state
        + "&code_challenge="@ + challenge + "&code_challenge_method=S256"@
}

/// The URL to which the browser is sent to log in.
pub fn authorization_url(
    endpoint: &str,
    redirect_uri: &str,
    state: &str,
    challenge: &str,
) -> (r: String)
    ensures
        r@ == authorization_request(endpoint@, redirect_uri@, state@, challenge@),
{
    let mut r = String::from_str(endpoint);
    r.append("?response_type=code&client_id=");
    r.append("OpenCloudDesktop");
    r.append("&redirect_uri=");
    r.append(percent_encode(redirect_uri).as_str());
    r.append("&scope=");
    r.append(percent_encode("openid profile email").as_str());
    r.append("&state=");
    r.append(state);
    r.append("&code_challenge=");
    r.append(challenge);
    r.append("&code_challenge_method=S256");
    r
}

// ---------------------------------------------------------------------
// PKCE
// ---------------------------------------------------------------------

/// The PKCE verifier made from the random bytes `seed`.
pub open spec fn pkce_verifier(seed: Seq<u8>) -> Seq<char> {
    base64_url(seed)
}

/// The S256 challenge of a verifier: base64url of the SHA-256 of its
/// UTF-8 bytes.
pub open spec fn pkce_challenge(verifier: Seq<char>) -> Seq<char> {
    base64_url(sha256(encode_utf8(verifier)))
}

/// The PKCE verifier and S256 challenge made from the random bytes `seed`.
pub fn pkce_pair(seed: &[u8]) -> (r: (String, String))
    requires
        seed@.len() <= 0x1000_0000,
    ensures
        r.0@ == pkce_verifier(seed@),
        r.1@ == pkce_challenge(r.0@),
        r.1@.len() == 43,
{
    let verifier = base64_url_encode(seed);
    let hash = sha256_digest(verifier.as_str().as_bytes());
    let challenge = base64_url_encode(hash.as_slice());
    proof {
        lemma_base64_url_shape(hash@);
    }
    (verifier, challenge)
}

/// The characters that RFC 7636 allows in a code verifier.
pub open spec fn is_verifier_char(c: char) -> bool {
    ('A' <= c <= 'Z') || ('a' <= c <= 'z') || ('0' <= c <= '9') || c == '-' || c == '.' || c
        == '_' || c == '~'
}

/// A verifier as RFC 7636 (section 4.1) requires: 43 to 128 characters,
/// each a letter, a digit, `-`, `.`, `_` or `~`.
pub open spec fn is_valid_verifier(v: Seq<char>) -> bool {
    43 <= v.len() <= 128 && forall|i: int| 0 <= i < v.len() ==> is_verifier_char(#[trigger] v[i])
}

/// Every character of the URL-safe alphabet is allowed in a verifier.
pub proof fn lemma_b64_char(v: nat)
    requires
        v < 64,
    ensures
        is_verifier_char(b64_char(v)),
{
}

/// Base64url without padding gives 4 characters for every 3 bytes, rounded
/// up, and only characters of its alphabet.
pub proof fn lemma_base64_url_shape(b: Seq<u8>)
    ensures
        base64_url(b).len() == (4 * b.len() + 2) / 3,
        forall|i: int| 0 <= i < base64_url(b).len() ==> is_verifier_char(#[trigger] base64_url(b)[i]),
    decreases b.len(),
{
    if b.len() == 0 {
    } else if b.len() == 1 {
        lemma_b64_char(b[0] as nat / 4);
        lemma_b64_char((b[0] as nat % 4) * 16);
    } else if b.len() == 2 {
        lemma_b64_char(b[0] as nat / 4);
        lemma_b64_char((b[0] as nat % 4) * 16 + b[1] as nat / 16);
        lemma_b64_char((b[1] as nat % 16) * 4);
    } else {
        lemma_base64_url_shape(b.skip(3));
        lemma_b64_char(b[0] as nat / 4);
        lemma_b64_char((b[0] as nat % 4) * 16 + b[1] as nat / 16);
        lemma_b64_char((b[1] as nat % 16) * 4 + b[2] as nat / 64);
        lemma_b64_char(b[2] as nat % 64);
        let head = seq![
            b64_char(b[0] as nat / 4),
            b64_char((b[0] as nat % 4) * 16 + b[1] as nat / 16),
            b64_char((b[1] as nat % 16) * 4 + b[2] as nat / 64),
            b64_char(b[2] as nat % 64),
        ];
        assert(base64_url(b) == head + base64_url(b.skip(3)));
        assert forall|i: int| 0 <= i < base64_url(b).len() implies is_verifier_char(
            #[trigger] base64_url(b)[i],
        ) by {
            if i >= 4 {
                assert(base64_url(b)[i] == base64_url(b.skip(3))[i - 4]);
            }
        }
    }
}

/// A fresh PKCE verifier and its S256 challenge, made from 32 random
/// bytes. The verifier meets RFC 7636: 43 characters from its allowed set.
pub fn generate_pkce() -> (r: (String, String))
    ensures
        exists|seed: Seq<u8>|
            seed.len() == 32 && r.0@ == pkce_verifier(seed) && r.1@ == pkce_challenge(r.0@),
        is_valid_verifier(r.0@),
        r.1@.len() == 43,
{
    let seed = random_bytes(32);
    let r = pkce_pair(seed.as_slice());
    proof {
        lemma_base64_url_shape(seed@);
    }
    r
}

/// A fresh `state` value for the authorization request: 16 random bytes
/// in base64url, 22 characters.
pub fn generate_state() -> (r: String)
    ensures
        exists|seed: Seq<u8>| seed.len() == 16 && r@ == base64_url(seed),
        r@.len() == 22,
{
    let seed = random_bytes(16);
    proof {
        lemma_base64_url_shape(seed@);
    }
    base64_url_encode(seed.as_slice())
}

// ---------------------------------------------------------------------
// The callback
// ---------------------------------------------------------------------

/// What to do with the browser's request to the callback server.
pub enum CallbackStep {
    /// Answer the browser with a page showing `page_message`, and end the
    /// login with `error`.
    Reject { page_message: String, error: String },
    /// End the login with `error` without answering the browser.
    Abort { error: String },
    /// Exchange the authorization `code` for a token.
    Exchange { code: String },
}

/// The mathematical value of a `CallbackStep`.
pub enum StepModel {
    Reject { page_message: Seq<char>, error: Seq<char> },
    Abort { error: Seq<char> },
    Exchange { code: Seq<char> },
}

impl View for CallbackStep {
    type V = StepModel;

    open spec fn view(&self) -> StepModel {
        match self {
            CallbackStep::Reject { page_message, error } => StepModel::Reject {
                page_message: page_message@,
                error: error@,
            },
            CallbackStep::Abort { error } => StepModel::Abort { error: error@ },
            CallbackStep::Exchange { code } => StepModel::Exchange { code: code@ },
        }
    }
}

/// The request target of an HTTP request: the second word of its first
/// line, or the empty string.
pub open spec fn request_target(request: Seq<char>) -> Seq<char> {
    let w = words(first_line(request));
    if w.len() > 1 {
        w[1]
    } else {
        seq![]
    }
}

/// The value of the last pair with key `key`, as collecting the pairs into
/// a map keeps it.
pub open spec fn lookup(pairs: Seq<(Seq<char>, Seq<char>)>, key: Seq<char>) -> Option<Seq<char>>
    decreases pairs.len(),
{
    if pairs.len() == 0 {
        None
    } else if pairs.last().0 == key {
        Some(pairs.last().1)
    } else {
        lookup(pairs.drop_last(), key)
    }
}

/// The value for `key`, or the empty string.
pub open spec fn lookup_or_empty(pairs: Seq<(Seq<char>, Seq<char>)>, key: Seq<char>) -> Seq<char> {
    match lookup(pairs, key) {
        Some(v) => v,
        None => seq![],
    }
}

/// The decision on a callback request `request` (raw bytes) when the login
/// was started with `expected_state`: a provider error is shown and ends
/// the login; a missing code ends it silently; a state that is not the
/// expected one is refused; otherwise the code is exchanged.
pub open spec fn callback_decision(request: Seq<u8>, expected_state: Seq<char>) -> StepModel {
    let target = request_target(utf8_lossy(request));
    match url_query_pairs("http://localhost"@ + target) {
        None => StepModel::Abort { error: "URL parse error"@ },
        Some(pairs) => match lookup(pairs, "error"@) {
            Some(err) => {
                let msg = err + ": "@ + lookup_or_empty(pairs, "error_description"@);
                StepModel::Reject { page_message: "Fehler: "@ + msg, error: msg }
            },
            None => match lookup(pairs, "code"@) {
                None => StepModel::Abort { error: "Kein Code"@ },
                Some(code) => {
                    if lookup_or_empty(pairs, "state"@) != expected_state {
                        StepModel::Reject {
                            page_message: "Ungültiger State"@,
                            error: "State mismatch"@,
                        }
                    } else {
                        StepModel::Exchange { code }
                    }
                },
            },
        },
    }
}

/// The pairs as character sequences.
pub open spec fn pair_views(v: Seq<(String, String)>) -> Seq<(Seq<char>, Seq<char>)> {
    v.map_values(|p: (String, String)| (p.0@, p.1@))
}

/// The value of the last pair with key `key`.
fn lookup_exec(pairs: &Vec<(String, String)>, key: &str) -> (r: Option<String>)
    ensures
        match r {
            Some(v) => lookup(pair_views(pairs@), key@) == Some(v@),
            None => lookup(pair_views(pairs@), key@) is None,
        },
{
    let k = String::from_str(key);
    let mut n = pairs.len();
    assert(pair_views(pairs@).take(n as int) =~= pair_views(pairs@));
    while n > 0
        invariant
            n <= pairs@.len(),
            k@ == key@,
            lookup(pair_views(pairs@).take(n as int), key@) == lookup(pair_views(pairs@), key@),
        decreases n,
    {
        let ghost prefix = pair_views(pairs@).take(n as int);
        assert(prefix.last() == (pairs@[n - 1].0@, pairs@[n - 1].1@));
        if pairs[n - 1].0 == k {
            return Some(pairs[n - 1].1.clone());
        }
        assert(prefix.drop_last() =~= pair_views(pairs@).take(n - 1));
        n = n - 1;
    }
    None
}

/// The value for `key`, or the empty string.
fn lookup_or_empty_exec(pairs: &Vec<(String, String)>, key: &str) -> (r: String)
    ensures
        r@ == lookup_or_empty(pair_views(pairs@), key@),
{
    match lookup_exec(pairs, key) {
        Some(v) => v,
        None => String::new(),
    }
}

/// The request target of the request text `request`.
fn request_target_exec(request: &str) -> (r: String)
    ensures
        r@ == request_target(request@),
{
    let chars = chars_of(request);
    let line = first_line_exec(chars.as_slice());
    let w = words_exec(line.as_slice());
    if w.len() > 1 {
        assert(views(w@)[1] == w@[1]@);
        string_of(w[1].as_slice())
    } else {
        String::new()
    }
}

/// Decides what to do with the browser's callback request.
pub fn callback_step(request: &[u8], expected_state: &str) -> (r: CallbackStep)
    ensures
        r@ == callback_decision(request@, expected_state@),
{
    let text = from_utf8_lossy(request);
    let target = request_target_exec(text.as_str());
    let mut url = String::from_str("http://localhost");
    url.append(target.as_str());
    let pairs = match query_pairs(url.as_str()) {
        Some(p) => p,
        None => return CallbackStep::Abort { error: String::from_str("URL parse error") },
    };
    assert(pair_views(pairs@) == pairs@.map_values(|p: (String, String)| (p.0@, p.1@)));
    if let Some(err) = lookup_exec(&pairs, "error") {
        let desc = lookup_or_empty_exec(&pairs, "error_description");
        let mut msg = err;
        msg.append(": ");
        msg.append(desc.as_str());
        let mut page_message = String::from_str("Fehler: ");
        page_message.append(msg.as_str());
        return CallbackStep::Reject { page_message, error: msg };
    }
    let code = match lookup_exec(&pairs, "code") {
        Some(c) => c,
        None => return CallbackStep::Abort { error: String::from_str("Kein Code") },
    };
    let state = lookup_or_empty_exec(&pairs, "state");
    let expected = String::from_str(expected_state);
    if !(state == expected) {
        return CallbackStep::Reject {
            page_message: String::from_str("Ungültiger State"),
            error: String::from_str("State mismatch"),
        };
    }
    CallbackStep::Exchange { code }
}

/// The form of the token request that exchanges `code`.
pub open spec fn token_form_fields(
    code: Seq<char>,
    redirect_uri: Seq<char>,
    verifier: Seq<char>,
) -> Seq<(Seq<char>, Seq<char>)> {
    seq![
        ("grant_type"@, "authorization_code"@),
        ("client_id"@, client_id()),
        ("code"@, code),
        ("redirect_uri"@, redirect_uri),
        ("code_verifier"@, verifier),
    ]
}

/// The form of the token request that exchanges `code`.
pub fn token_form(code: &str, redirect_uri: &str, verifier: &str) -> (r: Vec<(String, String)>)
    ensures
        pair_views(r@) == token_form_fields(code@, redirect_uri@, verifier@),
{
    let mut r: Vec<(String, String)> = Vec::new();
    r.push((String::from_str("grant_type"), String::from_str("authorization_code")));
    r.push((String::from_str("client_id"), String::from_str("OpenCloudDesktop")));
    r.push((String::from_str("code"), String::from_str(code)));
    r.push((String::from_str("redirect_uri"), String::from_str(redirect_uri)));
    r.push((String::from_str("code_verifier"), String::from_str(verifier)));
    assert(pair_views(r@) =~= token_form_fields(code@, redirect_uri@, verifier@));
    r
}

/// The decision when the token endpoint refuses the exchange with `body`:
/// the body is shown and ends the login.
pub fn token_refused(body: &str) -> (r: CallbackStep)
    ensures
        r@ == (StepModel::Reject { page_message: "Token-Fehler: "@ + body@, error: body@ }),
{
    let mut page_message = String::from_str("Token-Fehler: ");
    page_message.append(body);
    CallbackStep::Reject { page_message, error: String::from_str(body) }
}

/// The message shown when the login succeeded.
pub fn success_message() -> (r: String)
    ensures
        r@ == "Anmeldung erfolgreich. Fenster wird geschlossen..."@,
{
    String::from_str("Anmeldung erfolgreich. Fenster wird geschlossen...")
}

/// The start of the callback server's answer, up to the message.
pub open spec fn page_head() -> Seq<char> {
    "HTTP/1.1 200 OK\r\nContent-Type: text/html; charset=utf-8\r\nConnection: close\r\n\r\n<html><body style='font-family:Segoe UI,sans-serif;display:flex;align-items:center;justify-content:center;height:100vh;color:#333'><p>"@
}

/// The end of the callback server's answer, after the message.
pub open spec fn page_tail() -> Seq<char> {
    "</p></body></html>"@
}

/// The complete HTTP answer of the callback server showing `message`.
pub fn html_page(message: &str) -> (r: String)
    ensures
        r@ == page_head() + message@ + page_tail(),
{
    let mut r = String::from_str(
        "HTTP/1.1 200 OK\r\nContent-Type: text/html; charset=utf-8\r\nConnection: close\r\n\r\n<html><body style='font-family:Segoe UI,sans-serif;display:flex;align-items:center;justify-content:center;height:100vh;color:#333'><p>",
    );
    r.append(message);
    r.append("</p></body></html>");
    r
}

// ---------------------------------------------------------------------
// Laws
// ---------------------------------------------------------------------

/// A code is only exchanged when the callback carries no error and exactly
/// the state with which the login was started.
pub proof fn law_exchange_only_with_expected_state(request: Seq<u8>, expected_state: Seq<char>)
    requires
        expected_state.len() > 0,
        callback_decision(request, expected_state) is Exchange,
    ensures
        ({
            let url = "http://localhost"@ + request_target(utf8_lossy(request));
            &&& url_query_pairs(url) is Some
            &&& lookup(url_query_pairs(url)->0, "state"@) == Some(expected_state)
            &&& lookup(url_query_pairs(url)->0, "error"@) is None
            &&& callback_decision(request, expected_state)->code == lookup(
                url_query_pairs(url)->0,
                "code"@,
            )->0
        }),
{
}

/// A discovery reply is accepted exactly when its status is a success (200
/// to 299); every other status names the status.
pub proof fn law_discovery_success_statuses(status: u16, status_text: Seq<char>)
    ensures
        discovery_status_error(status, status_text) is None <==> 200 <= status <= 299,
        !(200 <= status <= 299) ==> discovery_status_error(status, status_text) == Some(
            "OIDC Discovery: HTTP "@ + status_text,
        ),
{
}

/// The value looked up for `key` is that of the last pair whose key is
/// exactly `key`; there is none when no pair has that key. A pair added
/// with another key leaves the lookup unchanged; one added with `key`
/// decides it.
pub proof fn law_lookup_last_with_key(
    pairs: Seq<(Seq<char>, Seq<char>)>,
    key: Seq<char>,
    k2: Seq<char>,
    v2: Seq<char>,
)
    ensures
        match lookup(pairs, key) {
            Some(v) => exists|i: int|
                0 <= i < pairs.len() && pairs[i] == (key, v) && forall|j: int|
                    i < j < pairs.len() ==> pairs[j].0 != key,
            None => forall|i: int| 0 <= i < pairs.len() ==> pairs[i].0 != key,
        },
        lookup(pairs.push((k2, v2)), key) == (if k2 == key {
            Some(v2)
        } else {
            lookup(pairs, key)
        }),
    decreases pairs.len(),
{
    let pushed = pairs.push((k2, v2));
    assert(pushed.drop_last() =~= pairs);
    if pairs.len() > 0 {
        let prev = pairs.drop_last();
        law_lookup_last_with_key(prev, key, k2, v2);
        if pairs.last().0 == key {
            assert(pairs[pairs.len() - 1] == (key, pairs.last().1));
        } else {
            match lookup(prev, key) {
                Some(v) => {
                    let i = choose|i: int|
                        0 <= i < prev.len() && prev[i] == (key, v) && forall|j: int|
                            i < j < prev.len() ==> prev[j].0 != key;
                    assert(pairs[i] == prev[i]);
                    assert forall|j: int| i < j < pairs.len() implies pairs[j].0 != key by {
                        if j < prev.len() {
                            assert(pairs[j] == prev[j]);
                        }
                    }
                },
                None => {
                    assert forall|i: int| 0 <= i < pairs.len() implies pairs[i].0 != key by {
                        if i < prev.len() {
                            assert(pairs[i] == prev[i]);
                        }
                    }
                },
            }
        }
    }
}

} // verus!
