use kosmos_explorer::graph::{
    api_url, check_api_status, check_request_url, drives_url, spaces_from_json, user_from_json,
    user_url,
};

#[test]
fn api_url_drops_trailing_slashes_of_base() {
    assert_eq!(api_url("https://c.example//", "/x"), "https://c.example/x");
    assert_eq!(api_url("https://c.example", "/x"), "https://c.example/x");
}

#[test]
fn user_and_drives_urls() {
    assert_eq!(user_url("https://c.example/"), "https://c.example/graph/v1.0/me");
    assert_eq!(drives_url("https://c.example"), "https://c.example/graph/v1.0/me/drives");
}

#[test]
fn status_401_is_expired_session() {
    assert_eq!(check_api_status(401, "401 Unauthorized"), Err("sitzung_abgelaufen".to_string()));
}

#[test]
fn status_outside_success_names_the_status() {
    assert_eq!(
        check_api_status(500, "500 Internal Server Error"),
        Err("API-Fehler 500 Internal Server Error".to_string())
    );
    assert_eq!(check_api_status(302, "302 Found"), Err("API-Fehler 302 Found".to_string()));
    assert_eq!(check_api_status(199, "199 <unknown status code>"), Err("API-Fehler 199 <unknown status code>".to_string()));
}

#[test]
fn success_statuses_pass() {
    assert_eq!(check_api_status(200, "200 OK"), Ok(()));
    assert_eq!(check_api_status(204, "204 No Content"), Ok(()));
    assert_eq!(check_api_status(299, "299 <unknown status code>"), Ok(()));
}

#[test]
fn request_url_that_does_not_parse() {
    assert_eq!(
        check_request_url("cloud.example/graph"),
        Err("URL-Fehler: relative URL without a base".to_string())
    );
    assert_eq!(check_request_url("https://cloud.example/graph"), Ok(()));
}

#[test]
fn user_prefers_display_name() {
    let u = user_from_json(r#"{"displayName":"Ada Lovelace","mail":"ada@example.org"}"#).unwrap();
    assert_eq!(u.name, "Ada Lovelace");
}

#[test]
fn user_falls_back_to_mail() {
    let u = user_from_json(r#"{"displayName":42,"mail":"ada@example.org"}"#).unwrap();
    assert_eq!(u.name, "ada@example.org");
}

#[test]
fn user_falls_back_to_unknown() {
    let u = user_from_json(r#"{"id":"1"}"#).unwrap();
    assert_eq!(u.name, "Unbekannt");
    let u = user_from_json("[1,2]").unwrap();
    assert_eq!(u.name, "Unbekannt");
}

#[test]
fn user_from_invalid_json_is_an_error() {
    let e = user_from_json("{").unwrap_err();
    assert!(e.starts_with("JSON-Fehler: "));
    assert!(e.len() > "JSON-Fehler: ".len());
}

#[test]
fn spaces_personal_first_then_by_lowercase_name() {
    let body = r#"{"value":[
        {"id":"3","name":"beta","driveType":"project"},
        {"id":"1","name":"Zed","driveType":"personal"},
        {"id":"2","name":"Alpha","driveType":"project"}
    ]}"#;
    let spaces = spaces_from_json(body).unwrap();
    let ids: Vec<&str> = spaces.iter().map(|s| s.id.as_str()).collect();
    assert_eq!(ids, vec!["1", "2", "3"]);
    assert_eq!(spaces[0].drive_type, "personal");
    assert_eq!(spaces[1].name, "Alpha");
}

#[test]
fn spaces_compare_names_lowercased() {
    let body = r#"{"value":[
        {"id":"B","name":"B","driveType":"project"},
        {"id":"a","name":"a","driveType":"project"}
    ]}"#;
    let spaces = spaces_from_json(body).unwrap();
    assert_eq!(spaces[0].id, "a");
    assert_eq!(spaces[1].id, "B");
}

#[test]
fn spaces_with_equal_keys_keep_their_order() {
    let body = r#"{"value":[
        {"id":"first","name":"Same","driveType":"project"},
        {"id":"second","name":"same","driveType":"project"}
    ]}"#;
    let spaces = spaces_from_json(body).unwrap();
    assert_eq!(spaces[0].id, "first");
    assert_eq!(spaces[1].id, "second");
}

#[test]
fn spaces_missing_fields_read_as_empty() {
    let body = r#"{"value":[{"id":"x"}, 7]}"#;
    let spaces = spaces_from_json(body).unwrap();
    assert_eq!(spaces.len(), 2);
    assert_eq!(spaces[0].id, "x");
    assert_eq!(spaces[0].name, "");
    assert_eq!(spaces[0].drive_type, "");
    assert_eq!(spaces[1].id, "");
}

#[test]
fn spaces_without_value_array_are_empty() {
    assert!(spaces_from_json(r#"{"other":[]}"#).unwrap().is_empty());
    assert!(spaces_from_json(r#"{"value":"x"}"#).unwrap().is_empty());
}

#[test]
fn spaces_from_invalid_json_is_an_error() {
    let e = spaces_from_json("not json").unwrap_err();
    assert!(e.starts_with("JSON-Fehler: "));
}
