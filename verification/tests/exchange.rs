use dsh_desktop::exchange::{proxy_state, Action, Answer, Event, Exchange, ProxyState};
use dsh_desktop::forward::UpstreamRequest;
use dsh_desktop::http::{text_header, Header, Reply, RequestUri};

fn state() -> ProxyState {
    proxy_state(3080, "tok", None, &Some("launch".to_string()), &None)
}

fn page_headers() -> Vec<Header> {
    vec![text_header("accept", "text/html")]
}

fn open(target: &str, headers: Vec<Header>) -> (Exchange, Action) {
    Exchange::open(&state(), "GET", &RequestUri::origin_form(target), headers)
}

fn reply(a: Action) -> Reply {
    match a {
        Action::Reply(r) => r,
        other => panic!("no reply: {other:?}"),
    }
}

fn forwarded(a: Action) -> UpstreamRequest {
    match a {
        Action::Forward(u) => u,
        other => panic!("no request: {other:?}"),
    }
}

fn text(r: &Reply) -> String {
    String::from_utf8(r.body.clone()).unwrap()
}

fn answer(status: u16) -> Event {
    Event::Answered(Ok(Answer { status, headers: Vec::new() }))
}

fn cookie(c: &str) -> Event {
    Event::Cookie(c.to_string())
}

#[test]
fn strangers_are_turned_away() {
    let (x, a) = open("/", Vec::new());
    let r = reply(a);
    assert_eq!((r.status, text(&r).as_str()), (401, "unauthorized"));
    assert!(!x.expects(&cookie("c")));
    let (x, a) = open("/?t=tok", vec![text_header("origin", "http://evil.example")]);
    let r = reply(a);
    assert_eq!((r.status, text(&r).as_str()), (403, "forbidden origin"));
    assert!(!x.expects(&cookie("c")));
}

#[test]
fn pages_wait_briefly() {
    assert!(matches!(open("/?t=tok", page_headers()).1, Action::AwaitCookie { brief: true }));
    assert!(matches!(open("/?t=tok", Vec::new()).1, Action::AwaitCookie { brief: false }));
    assert!(matches!(open("/x?t=tok", page_headers()).1, Action::AwaitCookie { brief: false }));
}

#[test]
fn without_a_session_there_is_a_page_or_a_failure() {
    let (mut x, _) = open("/?t=tok", page_headers());
    let r = reply(x.step(cookie("")));
    assert_eq!(r.status, 200);
    assert!(text(&r).contains("等待上游鉴权会话就绪…"));
    assert!(text(&r).contains("var TARGET=\"/?t=tok\""));
    let (mut x, _) = open("/api?t=tok", Vec::new());
    let r = reply(x.step(cookie("")));
    assert_eq!((r.status, text(&r).as_str()), (502, "harness auth cookie unavailable"));
}

#[test]
fn an_answer_is_passed_on_with_the_session_cookie() {
    let (mut x, _) = open("/?t=tok", page_headers());
    let u = forwarded(x.step(cookie("s=1")));
    assert_eq!(u.url, "http://127.0.0.1:3080/");
    assert_eq!(u.headers.last().unwrap().value, b"s=1".to_vec());
    assert!(matches!(x.step(answer(200)), Action::ReadBody));
    assert!(x.page_report().is_none());
    let r = reply(x.step(Event::Body(Ok(b"<html>".to_vec()))));
    assert_eq!(r.status, 200);
    assert!(text(&r).starts_with("<html><script>"));
    let set = r.headers.iter().find(|h| h.name == "set-cookie").unwrap();
    assert!(set.value.starts_with(b"dsh_token=tok;"));
    assert!(x.page_report().unwrap().injected);
    assert!(!x.expects(&Event::Paused));
}

#[test]
fn an_agent_that_is_not_reached() {
    let (mut x, _) = open("/?t=tok", page_headers());
    x.step(cookie("s=1"));
    let r = reply(x.step(Event::Answered(Err("refused".to_string()))));
    assert_eq!(r.status, 200);
    assert!(text(&r).contains("上游 harness 尚未就绪…"));
    let (mut x, _) = open("/a?t=tok", Vec::new());
    x.step(cookie("s=1"));
    let r = reply(x.step(Event::Answered(Err("refused".to_string()))));
    assert_eq!((r.status, text(&r).as_str()), (502, "upstream error: refused"));
}

#[test]
fn an_agent_that_does_not_serve_the_page() {
    let (mut x, _) = open("/?t=tok", page_headers());
    x.step(cookie("s=1"));
    let r = reply(x.step(answer(503)));
    assert_eq!(r.status, 200);
    assert!(text(&r).contains("上游返回 503…"));
    let (mut x, _) = open("/a?t=tok", Vec::new());
    x.step(cookie("s=1"));
    assert!(matches!(x.step(answer(503)), Action::ReadBody));
    let r = reply(x.step(Event::Body(Ok(b"busy".to_vec()))));
    assert_eq!((r.status, text(&r).as_str()), (503, "busy"));
}

#[test]
fn a_body_that_breaks_off() {
    for headers in [page_headers(), Vec::new()] {
        let (mut x, _) = open("/?t=tok", headers);
        x.step(cookie("s=1"));
        x.step(answer(200));
        let r = reply(x.step(Event::Body(Err("reset".to_string()))));
        assert_eq!((r.status, text(&r).as_str()), (502, "read upstream body failed: reset"));
    }
}

/// An exchange that the agent has turned away once.
fn turned_away(target: &str, headers: Vec<Header>) -> Exchange {
    let (mut x, _) = open(target, headers);
    x.step(cookie("old"));
    assert!(matches!(x.step(answer(401)), Action::ReadToken));
    x
}

#[test]
fn without_a_launch_token_nothing_is_tried_again() {
    let s = proxy_state(1, "tok", None, &None, &None);
    let (mut x, _) =
        Exchange::open(&s, "GET", &RequestUri::origin_form("/a?t=tok"), Vec::new());
    x.step(cookie("old"));
    x.step(answer(401));
    let r = reply(x.step(Event::Token(None)));
    assert_eq!((r.status, text(&r).as_str()), (401, "harness auth required"));
}

#[test]
fn a_renewed_session_is_tried() {
    let mut x = turned_away("/a?t=tok", Vec::new());
    let a = x.step(Event::Token(Some("live".to_string())));
    assert!(matches!(a, Action::Handshake(t) if t == "live"));
    let u = forwarded(x.step(Event::Renewed(Some("new".to_string()))));
    assert_eq!(u.headers.last().unwrap().value, b"new".to_vec());
    assert!(matches!(x.step(answer(200)), Action::ReadBody));
    let r = reply(x.step(Event::Body(Ok(b"data".to_vec()))));
    assert_eq!((r.status, text(&r).as_str()), (200, "data"));
    let set = r.headers.iter().find(|h| h.name == "set-cookie").unwrap();
    assert!(set.value.starts_with(b"dsh_token=tok;"), "a first visit gets its cookie all the same");

    let later = vec![text_header("cookie", "dsh_token=tok")];
    let mut x = turned_away("/a?t=tok", later);
    x.step(Event::Token(None));
    x.step(Event::Renewed(Some("new".to_string())));
    x.step(answer(200));
    let r = reply(x.step(Event::Body(Ok(b"data".to_vec()))));
    assert!(r.headers.iter().all(|h| h.name != "set-cookie"), "a later visit has it already");
}

#[test]
fn the_agent_is_asked_three_times_in_all() {
    let mut x = turned_away("/a?t=tok", Vec::new());
    assert!(matches!(x.step(Event::Token(None)), Action::Handshake(t) if t == "launch"));
    forwarded(x.step(Event::Renewed(Some("c".to_string()))));
    assert!(matches!(x.step(answer(401)), Action::Pause(200)));
    assert!(matches!(x.step(Event::Paused), Action::Handshake(t) if t == "launch"));
    forwarded(x.step(Event::Renewed(Some("c".to_string()))));
    let r = reply(x.step(answer(401)));
    assert_eq!((r.status, text(&r).as_str()), (401, "harness auth required after retries"));
}

#[test]
fn a_further_try_that_fails() {
    let mut x = turned_away("/a?t=tok", Vec::new());
    x.step(Event::Token(None));
    x.step(Event::Renewed(Some("c".to_string())));
    let r = reply(x.step(Event::Answered(Err("gone".to_string()))));
    assert_eq!((r.status, text(&r).as_str()), (502, "upstream error: gone"));
}

#[test]
fn a_page_visit_is_never_left_with_a_failure() {
    for last in [answer(401), Event::Answered(Err("gone".to_string()))] {
        let mut x = turned_away("/?t=tok", page_headers());
        x.step(Event::Token(None));
        assert!(matches!(x.step(Event::Renewed(None)), Action::Pause(200)));
        x.step(Event::Paused);
        x.step(Event::Renewed(Some("c".to_string())));
        let r = reply(x.step(last));
        assert_eq!(r.status, 200);
        assert!(text(&r).contains("上游鉴权尚未就绪…"));
    }
    for body in [Ok(b"nothing here".to_vec()), Err("reset".to_string())] {
        let mut x = turned_away("/?t=tok", page_headers());
        x.step(Event::Token(None));
        x.step(Event::Renewed(Some("c".to_string())));
        assert!(matches!(x.step(answer(404)), Action::ReadBody));
        let r = reply(x.step(Event::Body(body)));
        assert_eq!(r.status, 200);
        assert!(text(&r).contains("上游鉴权尚未就绪…"));
    }
}

#[test]
fn events_come_in_their_order() {
    let (x, _) = open("/?t=tok", Vec::new());
    assert!(x.expects(&cookie("c")));
    assert!(!x.expects(&answer(200)));
    assert!(!x.expects(&Event::Body(Ok(Vec::new()))));
    assert!(!x.expects(&Event::Token(None)));
    assert!(!x.expects(&Event::Renewed(None)));
    assert!(!x.expects(&Event::Paused));
}
