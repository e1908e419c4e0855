use dsh_desktop::auth::{
    allowed_origin, cookie_to_set, extract_cookie, extract_query, strip_proxy_token, valid_token,
};
use dsh_desktop::http::{text_header, Header, RequestUri};

fn with(name: &str, value: &str) -> Vec<Header> {
    vec![text_header(name, value)]
}

#[test]
fn query_parameters_are_found() {
    assert_eq!(extract_query("a=1&t=xyz&t=later", "t"), Some("xyz".to_string()));
    assert_eq!(extract_query("t=a=b", "t"), Some("a=b".to_string()));
    assert_eq!(extract_query("t", "t"), Some(String::new()));
    assert_eq!(extract_query("a=1", "t"), None);
    assert_eq!(extract_query("", "t"), None);
}

#[test]
fn cookies_are_found() {
    let h = with("Cookie", "a=1; dsh_token=tok ;b=2");
    assert_eq!(extract_cookie(&h, "dsh_token"), Some("tok".to_string()));
    assert_eq!(extract_cookie(&h, "b"), Some("2".to_string()));
    assert_eq!(extract_cookie(&h, "c"), None);
    assert_eq!(extract_cookie(&Vec::new(), "a"), None);
    let unreadable = vec![Header { name: "cookie".to_string(), value: vec![b'a', b'=', 0xff] }];
    assert_eq!(extract_cookie(&unreadable, "a"), None);
}

#[test]
fn the_token_is_taken_from_cookie_or_query() {
    let none: Vec<Header> = Vec::new();
    assert!(valid_token("tok", &RequestUri::origin_form("/?t=tok"), &none));
    assert!(!valid_token("tok", &RequestUri::origin_form("/?t=other"), &none));
    assert!(!valid_token("tok", &RequestUri::origin_form("/"), &none));
    assert!(valid_token("tok", &RequestUri::origin_form("/x"), &with("cookie", "dsh_token=tok")));
    // A cookie wins over the query, even a wrong one.
    assert!(!valid_token("tok", &RequestUri::origin_form("/?t=tok"), &with("cookie", "dsh_token=no")));
}

#[test]
fn the_first_visit_gets_a_session_cookie() {
    let none: Vec<Header> = Vec::new();
    assert_eq!(
        cookie_to_set("tok", &RequestUri::origin_form("/?t=tok"), &none),
        Some("dsh_token=tok; HttpOnly; Path=/; Max-Age=86400; SameSite=Strict".to_string())
    );
    assert_eq!(cookie_to_set("tok", &RequestUri::origin_form("/"), &none), None);
    assert_eq!(
        cookie_to_set("tok", &RequestUri::origin_form("/?t=tok"), &with("cookie", "dsh_token=tok")),
        None
    );
}

#[test]
fn the_session_cookie_is_accepted_afterwards() {
    let set = cookie_to_set("abc-_=", &RequestUri::origin_form("/?t=abc-_="), &Vec::new()).unwrap();
    let pair = set.split(';').next().unwrap();
    assert!(valid_token("abc-_=", &RequestUri::origin_form("/api"), &with("cookie", pair)));
}

#[test]
fn only_local_origins_are_allowed() {
    assert!(allowed_origin(&Vec::new()));
    for good in ["", "null", "http://127.0.0.1:3080", "http://localhost:1"] {
        assert!(allowed_origin(&with("origin", good)), "{good}");
    }
    // The host decides, whatever stands behind it.
    for good in [
        "http://127.0.0.1",
        "http://localhost",
        "http://localhost:65535",
        "http://localhost:70000",
        "http://127.0.0.1:",
        "http://127.0.0.1:+80",
        "http://127.0.0.1:80.evil.example",
        "http://127.0.0.1/",
        "http://localhost/a@b",
        "http://localhost?q",
        "http://127.0.0.1#f",
        "http://127.0.0.1@localhost",
    ] {
        assert!(allowed_origin(&with("origin", good)), "{good}");
    }
    for bad in [
        "http://example.com",
        "https://127.0.0.1",
        "nullx",
        "http://127.0.0.1.evil.example",
        "http://localhost.evil.example:80",
        "http://127.0.0.1x",
        "http://localhostess",
        "http://127.0.0.1@evil.example",
        "http://127.0.0.1:80@evil.example:80/",
        "http://user@localhost",
    ] {
        assert!(!allowed_origin(&with("origin", bad)), "{bad}");
    }
    // An origin that is not readable is none of this machine.
    let raw = vec![Header { name: "Origin".to_string(), value: vec![0xff] }];
    assert!(!allowed_origin(&raw));
}

#[test]
fn the_proxy_token_is_stripped() {
    assert_eq!(strip_proxy_token("/a"), "/a");
    assert_eq!(strip_proxy_token("/a?t=x"), "/a");
    assert_eq!(strip_proxy_token("/a?b=1&t=x&c=2"), "/a?b=1&c=2");
    assert_eq!(strip_proxy_token("/a?tt=1"), "/a?tt=1");
    assert_eq!(strip_proxy_token("/a?"), "/a?");
    let once = strip_proxy_token("/a?t=1&b=2");
    assert_eq!(strip_proxy_token(&once), once);
    assert_eq!(extract_query("b=2", "b"), Some("2".to_string()));
}
