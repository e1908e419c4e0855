use dsh_desktop::boot_page::boot_page_response;
use dsh_desktop::cookie::{health_payload, health_reply, CookieCache};
use dsh_desktop::forward::{forward_plan, wants_html};
use dsh_desktop::http::{text_header, Header, Reply, RequestUri};

fn accept(v: &str) -> Vec<Header> {
    vec![text_header("accept", v)]
}

fn header(r: &Reply, name: &str) -> String {
    let h = r.headers.iter().find(|h| h.name == name).unwrap();
    String::from_utf8(h.value.clone()).unwrap()
}

#[test]
fn wants_html_only_for_browser_navigation() {
    assert!(wants_html(&accept("text/html,application/xhtml+xml,application/xml;q=0.9,*/*;q=0.8")));
    assert!(wants_html(&accept("text/html")));
    assert!(!wants_html(&accept("application/json, text/plain, */*")));
    assert!(!wants_html(&accept("*/*")));
    assert!(!wants_html(&Vec::new()), "缺 Accept 时按非导航处理，宁可回 502");
}

#[test]
fn boot_page_targets_original_request_and_polls_health() {
    let uri = RequestUri::origin_form("/?t=abcDEF123_-=");
    let resp = boot_page_response(&uri, "等待上游鉴权会话就绪…");
    assert_eq!(resp.status, 200);
    assert_eq!(header(&resp, "content-type"), "text/html; charset=utf-8");
    assert_eq!(header(&resp, "cache-control"), "no-store");
    assert!(resp.body.len() <= 1 << 20);
    let html = String::from_utf8(resp.body).unwrap();
    assert!(html.contains("var TARGET=\"/?t=abcDEF123_-=\""), "应回跳到原始 path+query");
    assert!(html.contains("/__dsh_health"), "应轮询健康端点");
    assert!(html.contains("j.ready===true"), "应以 ready 作为接管判据");
    assert!(html.contains("等待上游鉴权会话就绪…"), "应显示失败原因");
    assert!(
        html.contains("fetch(TARGET, {method:'HEAD', cache:'no-store'})"),
        "引导页必须周期性 HEAD 真实地址（带 token），不能只依赖 /__dsh_health 标志"
    );
    assert!(html.contains("if(n%4===0){ nudge(); }"), "HEAD 探活应随轮询周期性触发");
}

#[test]
fn boot_page_escapes_inline_json() {
    let uri = RequestUri::origin_form("/");
    let resp = boot_page_response(&uri, "含\"引号\"与\\反斜杠");
    assert!(resp.body.len() <= 1 << 20);
    let html = String::from_utf8(resp.body).unwrap();
    assert!(html.contains("var TARGET=\"/\""), "根路径回落为 /");
    assert!(html.contains("含\\\"引号\\\"与\\\\反斜杠"), "原因文本必须被 JSON 转义: {html}");
}

#[test]
fn boot_page_escapes_control_characters() {
    let uri = RequestUri::origin_form("x");
    let html = String::from_utf8(boot_page_response(&uri, "a\n\u{1}\u{8}\u{c}\r\t").body).unwrap();
    assert!(html.contains("var TARGET=\"/\";"));
    assert!(html.contains("var REASON=\"a\\n\\u0001\\b\\f\\r\\t\";"));
    let without = RequestUri { path_and_query: None };
    let html = String::from_utf8(boot_page_response(&without, "").body).unwrap();
    assert!(html.contains("var TARGET=\"/\";"));
    assert!(html.contains("var REASON=\"\";"));
}

const SECOND: u128 = 1_000_000_000;

#[test]
fn health_payload_is_valid_json_with_ready() {
    let now: u128 = 1000 * SECOND;
    let empty = CookieCache::new();
    assert!(!empty.is_some(), "新建缓存应为空");

    let mut fresh = CookieCache::new();
    fresh.set("dsh-auth-xxx=yyy".into(), now);
    assert!(fresh.is_some() && !fresh.is_expired(now), "刚写入的 cookie 应有效");

    for cookie in [&empty, &fresh] {
        let ready = cookie.is_some() && !cookie.is_expired(now);
        let cookie_status = match (cookie.is_some(), cookie.is_expired(now)) {
            (true, false) => "ok",
            (true, true) => "expired",
            (false, _) => "absent",
        };
        let has_agent_token = true;
        let payload = health_payload(cookie, now, 3081, has_agent_token);
        let v: serde_json::Value =
            serde_json::from_str(&payload).expect("health 响应必须是合法 JSON");
        assert_eq!(v["ready"].as_bool().unwrap(), ready);
        assert_eq!(v["cookie"].as_str().unwrap(), cookie_status);
        assert_eq!(v["agent_token"].as_bool().unwrap(), has_agent_token);
    }

    assert!(
        serde_json::from_str::<serde_json::Value>(r#"{"status":"ok","cookie":ok( expired=false)}"#)
            .is_err(),
        "旧格式应被判为非法 JSON —— 这正是本次修复点"
    );
}

#[test]
fn health_is_told_word_for_word() {
    let mut c = CookieCache::new();
    let said = health_reply(&c, 0, 3080, "");
    assert_eq!(said.status, 200);
    assert_eq!(header(&said, "content-type"), "text/plain; charset=utf-8");
    assert_eq!(
        String::from_utf8(said.body).unwrap(),
        "{\"status\":\"ok\",\"ready\":false,\"agent_port\":3080,\"cookie\":\"absent\",\
         \"agent_token\":false,\"proxy_uptime\":\"healthy\"}"
    );
    c.set("a=b".to_string(), 0);
    assert_eq!(
        health_payload(&c, 25 * 60 * SECOND, 1, true),
        "{\"status\":\"ok\",\"ready\":true,\"agent_port\":1,\"cookie\":\"ok\",\
         \"agent_token\":true,\"proxy_uptime\":\"healthy\"}"
    );
    assert_eq!(
        health_payload(&c, 25 * 60 * SECOND + 1, 65535, false),
        "{\"status\":\"ok\",\"ready\":false,\"agent_port\":65535,\"cookie\":\"expired\",\
         \"agent_token\":false,\"proxy_uptime\":\"healthy\"}"
    );
}

#[test]
fn requests_are_forwarded_with_the_session_cookie() {
    let headers = vec![
        text_header("Host", "127.0.0.1:9"),
        text_header("cookie", "dsh_token=x"),
        text_header("ORIGIN", "null"),
        text_header("accept", "*/*"),
    ];
    let uri = RequestUri::origin_form("/api/x?t=abc&k=1");
    let r = forward_plan(3081, "POST", &uri, &headers, "s=1");
    assert_eq!(r.method, "POST");
    assert_eq!(r.url, "http://127.0.0.1:3081/api/x?k=1");
    let got: Vec<(String, Vec<u8>)> =
        r.headers.iter().map(|h| (h.name.clone(), h.value.clone())).collect();
    assert_eq!(
        got,
        vec![("accept".to_string(), b"*/*".to_vec()), ("cookie".to_string(), b"s=1".to_vec())]
    );
    for m in ["GET", "PUT", "DELETE", "PATCH", "HEAD", "OPTIONS"] {
        let u = RequestUri { path_and_query: None };
        let r = forward_plan(1, m, &u, &Vec::new(), "c");
        assert_eq!(r.method, m);
        assert_eq!(r.url, "http://127.0.0.1:1/");
    }
    let r = forward_plan(1, "TRACE", &RequestUri::origin_form("/?t=x"), &Vec::new(), "c");
    assert_eq!(r.method, "GET");
    assert_eq!(r.url, "http://127.0.0.1:1/");
}
