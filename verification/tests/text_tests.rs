use fotd_bot::mime::get_type;
use fotd_bot::query::Query;
use fotd_bot::url::{decode_url_chars, try_decode_url_chars};
use fotd_bot::number::parse_decimal;
use fotd_bot::text::{replace_str, str_contains, trim_str};

#[test]
fn get_type_known_extensions() {
    assert_eq!(get_type("index.html"), "text/html");
    assert_eq!(get_type("style.css"), "text/css");
    assert_eq!(get_type("app.min.js"), "application/javascript");
    assert_eq!(get_type("a/b/c.png"), "image/png");
    assert_eq!(get_type("photo.jpg"), "image/jpeg");
    assert_eq!(get_type("photo.jpeg"), "image/jpeg");
    assert_eq!(get_type("anim.gif"), "image/gif");
    assert_eq!(get_type("favicon.ico"), "image/x-icon");
    assert_eq!(get_type("logo.svg"), "image/svg+xml");
}

#[test]
fn get_type_unknown_extensions() {
    assert_eq!(get_type("README"), "application/octet-stream");
    assert_eq!(get_type("archive.tar.gz"), "application/octet-stream");
    assert_eq!(get_type("page.HTML"), "application/octet-stream");
    assert_eq!(get_type(""), "application/octet-stream");
    assert_eq!(get_type("dir.html/"), "application/octet-stream");
}

#[test]
fn get_type_path_without_extension() {
    assert_eq!(get_type("html"), "application/octet-stream");
    assert_eq!(get_type("static/css"), "application/octet-stream");
    assert_eq!(get_type("js"), "application/octet-stream");
    assert_eq!(get_type(".html"), "text/html");
}

#[test]
fn decode_plain_text_unchanged() {
    assert_eq!(decode_url_chars("hello world"), "hello world");
    assert_eq!(decode_url_chars(""), "");
}

#[test]
fn decode_escapes() {
    assert_eq!(decode_url_chars("a%20b"), "a b");
    assert_eq!(decode_url_chars("me%40example.com"), "me@example.com");
    assert_eq!(decode_url_chars("%41%42c"), "ABc");
    assert_eq!(decode_url_chars("caf%C3%A9"), "café");
    assert_eq!(decode_url_chars("%e2%9c%93!"), "✓!");
    assert_eq!(decode_url_chars("x%+Ay"), "x\ny");
}

#[test]
fn decode_malformed_is_refused() {
    assert_eq!(try_decode_url_chars("%4"), None);
    assert_eq!(try_decode_url_chars("%"), None);
    assert_eq!(try_decode_url_chars("%zz"), None);
    assert_eq!(try_decode_url_chars("%C3"), None);
    assert_eq!(try_decode_url_chars("%-1"), None);
    assert_eq!(try_decode_url_chars("ok%21"), Some("ok!".to_string()));
}

#[test]
fn query_from_body_and_get() {
    let q = Query::from_body("email=a%40b.c&why=bored&flag&x=1=2&email=second".to_string());
    assert_eq!(q.get("email"), Some("a%40b.c".to_string()));
    assert_eq!(q.get("why"), Some("bored".to_string()));
    assert_eq!(q.get("flag"), None);
    assert_eq!(q.get("x"), Some("1".to_string()));
    assert_eq!(q.get("missing"), None);
}

#[test]
fn query_empty_values_and_keys() {
    let q = Query::from_body("=v&k=&&".to_string());
    assert_eq!(q.get(""), Some("v".to_string()));
    assert_eq!(q.get("k"), Some("".to_string()));
    let empty = Query::from_body(String::new());
    assert_eq!(empty.get(""), None);
}

#[test]
fn decode_of_concatenation() {
    let pairs = [("a%41", "%42b"), ("x%C3%A9", "%E2%82%AC!"), ("", "%21"), ("plain", "text")];
    for (a, b) in pairs {
        let joined = format!("{}{}", a, b);
        assert_eq!(decode_url_chars(&joined), format!("{}{}", decode_url_chars(a), decode_url_chars(b)));
    }
    assert_eq!(decode_url_chars("a%41%42b"), "aABb");
}

#[test]
fn query_from_form_body_keeps_whole_value() {
    let q = Query::from_form_body("email=a%40b.c&why=bored&flag&x=1=2&email=second");
    assert_eq!(q.get("email"), Some("a%40b.c".to_string()));
    assert_eq!(q.get("why"), Some("bored".to_string()));
    assert_eq!(q.get("flag"), None);
    assert_eq!(q.get("x"), Some("1=2".to_string()));
    let e = Query::from_form_body("=v&k=&&");
    assert_eq!(e.get(""), Some("v".to_string()));
    assert_eq!(e.get("k"), Some("".to_string()));
    assert_eq!(Query::from_form_body("").get(""), None);
}

#[test]
fn parse_decimal_rules() {
    assert_eq!(parse_decimal("8080", 65535), Some(8080));
    assert_eq!(parse_decimal("+7", 65535), Some(7));
    assert_eq!(parse_decimal("65536", 65535), None);
    assert_eq!(parse_decimal("", 65535), None);
    assert_eq!(parse_decimal("+", 65535), None);
    assert_eq!(parse_decimal("-1", 65535), None);
    assert_eq!(parse_decimal(" 1", 65535), None);
    assert_eq!(parse_decimal("18446744073709551615", u64::MAX), Some(u64::MAX));
    assert_eq!(parse_decimal("18446744073709551616", u64::MAX), None);
    assert_eq!(parse_decimal("007", 10), Some(7));
}

#[test]
fn replace_contains_trim() {
    assert_eq!(replace_str("a{{X}}b{{X}}", "{{X}}", "-"), "a-b-");
    assert_eq!(replace_str("aaa", "aa", "b"), "ba");
    assert_eq!(replace_str("none here", "{{X}}", "y"), "none here");
    assert!(str_contains("hello", "ell"));
    assert!(str_contains("hello", ""));
    assert!(!str_contains("hello", "hello!"));
    assert_eq!(trim_str("  a b \t\n"), "a b");
    assert_eq!(trim_str("\u{3000}x\u{a0}"), "x");
    assert_eq!(trim_str("\u{85}\u{2009}y\u{202f}\u{2028}"), "y");
    assert_eq!(trim_str("\u{180e}z\u{200b}"), "\u{180e}z\u{200b}");
    assert_eq!(trim_str("   "), "");
}
