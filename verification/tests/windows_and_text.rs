use kosmos_explorer::text::{
    chars_of, decimal_exec, parse_u64_exec, string_of, trim_end_chars, words_exec,
    first_line_exec,
};
use kosmos_explorer::window::{check_navigation_url, window_label, window_title};

fn chars(s: &str) -> Vec<char> {
    s.chars().collect()
}

#[test]
fn window_title_from_document_url() {
    assert_eq!(
        window_title("https://cloud.example/external/docs/My%20File.odt"),
        "My File.odt \u{2014} external"
    );
}

#[test]
fn window_title_keeps_undecodable_file_name() {
    assert_eq!(window_title("https://cloud.example/app/%FF"), "%FF \u{2014} app");
}

#[test]
fn window_title_of_root_and_non_hierarchical_urls() {
    assert_eq!(window_title("https://cloud.example"), " \u{2014} ");
    assert_eq!(window_title("data:text/plain,hi"), "KOSMOS Explorer");
    assert_eq!(window_title("no url"), "KOSMOS Explorer");
}

#[test]
fn window_labels_count_up() {
    assert_eq!(window_label(0), "doc-0");
    assert_eq!(window_label(42), "doc-42");
    assert_eq!(window_label(u32::MAX), "doc-4294967295");
}

#[test]
fn navigation_url_check() {
    assert_eq!(check_navigation_url("https://cloud.example/"), Ok(()));
    assert_eq!(check_navigation_url("::"), Err("relative URL without a base".to_string()));
    assert_eq!(check_navigation_url("http://x:99999/"), Err("invalid port number".to_string()));
}

#[test]
fn decimal_round_trip() {
    for n in [0u64, 7, 10, 1234567890, u64::MAX] {
        let d = decimal_exec(n);
        assert_eq!(string_of(&d), n.to_string());
        assert_eq!(parse_u64_exec(&d), Some(n));
    }
}

#[test]
fn parse_u64_follows_std() {
    for s in ["", "+", "-5", " 5", "5 ", "12a", "18446744073709551616", "+0", "007", "+42"] {
        assert_eq!(parse_u64_exec(&chars(s)), s.parse::<u64>().ok(), "{:?}", s);
    }
}

#[test]
fn trim_end_is_idempotent() {
    let once = trim_end_chars(&chars("abc///"), '/');
    assert_eq!(string_of(&once), "abc");
    assert_eq!(trim_end_chars(&once, '/'), once);
}

#[test]
fn words_and_first_line_follow_std() {
    let text = " GET  /p?x=1\u{3000}HTTP/1.1\r\nHost: a\r\n";
    let line = first_line_exec(&chars(text));
    assert_eq!(string_of(&line), text.lines().next().unwrap());
    let w: Vec<String> = words_exec(&line).iter().map(|v| string_of(v)).collect();
    let expected: Vec<String> = text.lines().next().unwrap().split_whitespace().map(|s| s.to_string()).collect();
    assert_eq!(w, expected);
    assert_eq!(string_of(&first_line_exec(&chars("no newline\r"))), "no newline\r");
    assert_eq!(string_of(&chars_of("héllo")), "héllo");
}
