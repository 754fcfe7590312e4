use kosmos_explorer::cloud::extract_xml;
use kosmos_explorer::webdav::{check_dav_status, dav_url, files_from_propfind};

#[test]
fn dav_url_of_space_root() {
    assert_eq!(dav_url("https://c.example/", "abc$def", ""), "https://c.example/dav/spaces/abc%24def/");
    assert_eq!(dav_url("https://c.example/", "abc$def", "/"), "https://c.example/dav/spaces/abc%24def/");
}

#[test]
fn dav_url_of_folder_normalizes_slashes() {
    let expected = "https://c.example/dav/spaces/id/Docs/Sub/";
    assert_eq!(dav_url("https://c.example", "id", "/Docs/Sub/"), expected);
    assert_eq!(dav_url("https://c.example", "id", "Docs/Sub"), expected);
    assert_eq!(dav_url("https://c.example//", "id", "//Docs/Sub//"), expected);
}

#[test]
fn dav_url_of_only_slashes() {
    assert_eq!(dav_url("https://c.example", "id", "///"), "https://c.example/dav/spaces/id//");
}

#[test]
fn dav_status_checks() {
    assert_eq!(check_dav_status(207, "207 Multi-Status"), Ok(()));
    assert_eq!(check_dav_status(200, "200 OK"), Ok(()));
    assert_eq!(check_dav_status(401, "401 Unauthorized"), Err("sitzung_abgelaufen".to_string()));
    assert_eq!(check_dav_status(404, "404 Not Found"), Err("WebDAV-Fehler 404 Not Found".to_string()));
}

#[test]
fn extract_xml_reads_the_first_element() {
    assert_eq!(extract_xml("<a><d:href>/x</d:href></a>", "d:href"), Some("/x".to_string()));
    assert_eq!(extract_xml("<t>one</t><t>two</t>", "t"), Some("one".to_string()));
}

#[test]
fn extract_xml_round_trip() {
    let content = "some text & more";
    let xml = format!("<oc:size>{}</oc:size>", content);
    assert_eq!(extract_xml(&xml, "oc:size"), Some(content.to_string()));
}

#[test]
fn extract_xml_missing_or_empty_is_none() {
    assert_eq!(extract_xml("<a></a>", "a"), None);
    assert_eq!(extract_xml("<a>x", "a"), None);
    assert_eq!(extract_xml("x</a>", "a"), None);
    assert_eq!(extract_xml("</a>x<a>", "a"), None);
    assert_eq!(extract_xml("", "a"), None);
}

fn listing() -> String {
    [
    r#"<?xml version="1.0"?><d:multistatus xmlns:d="DAV:" xmlns:oc="http://owncloud.org/ns">"#,
    r#"<d:response><d:href>/dav/spaces/id/</d:href><d:propstat><d:prop><d:resourcetype><d:collection/></d:resourcetype></d:prop></d:propstat></d:response>"#,
    r#"<d:response><d:href>/dav/spaces/id/b%20file.txt</d:href><d:propstat><d:prop><d:getcontentlength>1234</d:getcontentlength><d:getcontenttype>text/plain</d:getcontenttype><d:getlastmodified>Mon, 01 Jan 2024 00:00:00 GMT</d:getlastmodified><oc:fileid>f1</oc:fileid><d:resourcetype/></d:prop></d:propstat></d:response>"#,
    r#"<d:response><d:href>/dav/spaces/id/Zeta/</d:href><d:propstat><d:prop><oc:size>99</oc:size><oc:fileid>f2</oc:fileid><d:resourcetype><d:collection/></d:resourcetype></d:prop></d:propstat></d:response>"#,
    r#"<d:response><d:href>/dav/spaces/id/.hidden</d:href></d:response>"#,
    r#"<d:response><d:href>/dav/spaces/id/A.txt</d:href><d:propstat><d:prop><d:getcontentlength>oops</d:getcontentlength></d:prop></d:propstat></d:response>"#,
    r#"</d:multistatus>"#,
    ]
    .concat()
}

#[test]
fn listing_skips_the_folder_itself_and_hidden_entries() {
    let items = files_from_propfind(&listing());
    let names: Vec<&str> = items.iter().map(|f| f.name.as_str()).collect();
    assert_eq!(names, vec!["Zeta", "A.txt", "b file.txt"]);
}

#[test]
fn listing_reads_every_field() {
    let items = files_from_propfind(&listing());
    let zeta = &items[0];
    assert!(zeta.is_folder);
    assert_eq!(zeta.size, 99);
    assert_eq!(zeta.id, "f2");
    assert_eq!(zeta.mime_type, "");
    let a = &items[1];
    assert!(!a.is_folder);
    assert_eq!(a.size, 0);
    assert_eq!(a.id, "");
    let b = &items[2];
    assert_eq!(b.name, "b file.txt");
    assert_eq!(b.size, 1234);
    assert_eq!(b.mime_type, "text/plain");
    assert_eq!(b.last_modified, "Mon, 01 Jan 2024 00:00:00 GMT");
    assert_eq!(b.id, "f1");
}

#[test]
fn listing_of_empty_or_single_response_is_empty() {
    assert!(files_from_propfind("").is_empty());
    assert!(files_from_propfind("<d:response><d:href>/x/</d:href></d:response>").is_empty());
}

#[test]
fn listing_with_undecodable_name_skips_entry() {
    let body = "<d:response>self</d:response><d:response><d:href>/x/%FF</d:href></d:response><d:response><d:href>/x/ok</d:href></d:response>";
    let items = files_from_propfind(body);
    assert_eq!(items.len(), 1);
    assert_eq!(items[0].name, "ok");
}

#[test]
fn listing_folders_before_files() {
    let body = [
        "<d:response>self</d:response>",
        "<d:response><d:href>/x/a-file</d:href></d:response>",
        "<d:response><d:href>/x/z-folder/</d:href><d:collection/></d:response>",
        "<d:response><d:href>/x/B-file</d:href></d:response>",
    ]
    .concat();
    let items = files_from_propfind(&body);
    let names: Vec<&str> = items.iter().map(|f| f.name.as_str()).collect();
    assert_eq!(names, vec!["z-folder", "a-file", "B-file"]);
}

#[test]
fn listing_size_accepts_plus_and_rejects_overflow() {
    let body = [
        "<d:response>self</d:response>",
        "<d:response><d:href>/x/p</d:href><d:getcontentlength>+7</d:getcontentlength></d:response>",
        "<d:response><d:href>/x/q</d:href><d:getcontentlength>18446744073709551616</d:getcontentlength></d:response>",
        "<d:response><d:href>/x/r</d:href><d:getcontentlength>18446744073709551615</d:getcontentlength></d:response>",
    ]
    .concat();
    let items = files_from_propfind(&body);
    assert_eq!(items[0].size, 7);
    assert_eq!(items[1].size, 0);
    assert_eq!(items[2].size, u64::MAX);
}
