use dsh_desktop::lifecycle::{
    current_status, extract_agent_token, is_ready_line, proxy_failed_text, ready_plan, record_end,
    record_notice, record_proxy, record_start, start_guard, stderr_line, stop_dsh, OutputWatch,
    Probe, ProbeStep, ReadyNotice,
};
use dsh_desktop::state::InnerState;

#[test]
fn launch_tokens_are_read_from_the_output() {
    let token = |l: &str| extract_agent_token(l);
    assert_eq!(
        token("dsh web: http://127.0.0.1:3080/?token=abc-_1&x=2"),
        Some("abc-_1".to_string())
    );
    assert_eq!(token("http://127.0.0.1:1/?token=abc (LAN: http://x)"), Some("abc".to_string()));
    assert_eq!(token("(token=abc)"), Some("abc".to_string()));
    assert_eq!(token("\"token=abc\""), Some("abc".to_string()));
    assert_eq!(token("'token=abc'"), Some("abc".to_string()));
    assert_eq!(token("token=abc\tx"), Some("abc".to_string()));
    assert_eq!(token("token=abc(LAN)"), Some("abc".to_string()));
    assert_eq!(token("token=abc\u{3000}x"), Some("abc".to_string()));
    assert_eq!(token("token=&token=abc"), None);
    assert_eq!(token("token=x http://127.0.0.1:1/?token=y"), Some("y".to_string()));
    assert_eq!(token("http://127.0.0.1:1/?a=1&token=z"), Some("z".to_string()));
    assert_eq!(token("no such thing"), None);
}

#[test]
fn the_ready_line_is_recognized() {
    assert!(is_ready_line("dsh web: http://127.0.0.1:3080/?token=x", 3080));
    assert!(!is_ready_line("dsh web: http://127.0.0.1:3081/", 3080));
    assert!(!is_ready_line("dsh web: http://0.0.0.0:3080/", 3080));
}

#[test]
fn the_output_is_watched_until_the_agent_is_ready() {
    let mut w = OutputWatch::start(3080);
    let (log, ready) = w.line("   \r\n");
    assert!(log.is_none() && ready.is_none());
    let (log, ready) = w.line("compiling  \r\n");
    let log = log.unwrap();
    assert_eq!((log.stream.as_str(), log.line.as_str()), ("stdout", "compiling"));
    assert!(ready.is_none());
    let (_, ready) = w.line("dsh web: http://127.0.0.1:3080/?token=tok");
    assert_eq!(ready.unwrap().agent_token, Some("tok".to_string()));
    let (log, ready) = w.line("dsh web: http://127.0.0.1:3080/?token=again");
    assert!(log.is_some() && ready.is_none(), "only the first such line counts");
}

#[test]
fn errors_are_only_logged() {
    let l = stderr_line("oops \n").unwrap();
    assert_eq!((l.stream.as_str(), l.line.as_str()), ("stderr", "oops"));
    assert!(stderr_line(" \n").is_none());
}

#[test]
fn the_state_follows_the_agent() {
    let mut s = InnerState::default();
    let at_first = current_status(&s);
    assert_eq!(at_first.state, "stopped");
    assert_eq!((at_first.agent_port, at_first.proxy_port, at_first.pid), (0, 0, None));
    assert!(start_guard(&s).is_none());

    s.last_error = Some("old".to_string());
    record_start(&mut s, 77, "tok", 3080);
    let st = current_status(&s);
    assert_eq!((st.state.as_str(), st.agent_port, st.pid), ("starting", 3080, Some(77)));
    assert_eq!(st.proxy_url, "");
    assert!(s.last_error.is_none());
    assert_eq!(start_guard(&s).unwrap().state, "starting");

    record_notice(&mut s, &ReadyNotice { agent_token: Some("launch".to_string()) });
    record_notice(&mut s, &ReadyNotice { agent_token: None });
    assert_eq!(s.agent_token, Some("launch".to_string()));

    let plan = ready_plan(&s, None, "").unwrap();
    assert_eq!((plan.agent_token, plan.theme), (Some("launch".to_string()), None));
    let plan = ready_plan(&s, Some(String::new()), "").unwrap();
    assert_eq!(plan.agent_token, Some("launch".to_string()));
    let plan = ready_plan(&s, Some("news".to_string()), "dark").unwrap();
    assert_eq!(
        (plan.agent_token, plan.theme),
        (Some("news".to_string()), Some("dark".to_string()))
    );

    let e = record_proxy(&mut s, 3080, 50000, "http://127.0.0.1:50000/?t=tok");
    assert_eq!((e.state.as_str(), e.agent_port, e.proxy_port, e.pid), ("running", 3080, 50000, Some(77)));
    let st = current_status(&s);
    assert_eq!(st.proxy_url, "http://127.0.0.1:50000/?t=tok");
    assert!(ready_plan(&s, None, "").is_none(), "the proxy is started once");

    assert_eq!(stop_dsh(&mut s).unwrap().pid, 77);
    let st = current_status(&s);
    assert_eq!((st.state.as_str(), st.agent_port, st.proxy_port, st.pid), ("stopped", 0, 0, None));
    assert_eq!(st.proxy_url, "");
    assert!(stop_dsh(&mut s).is_none());
    assert_eq!(s.agent_token, Some("launch".to_string()));
}

#[test]
fn an_agent_that_ends_by_itself() {
    let mut s = InnerState::default();
    record_start(&mut s, 5, "tok", 3080);
    let e = record_end(&mut s, 3080);
    assert_eq!((e.state.as_str(), e.agent_port, e.proxy_port, e.pid), ("stopped", 3080, 0, None));
    assert_eq!(e.proxy_url, "");
    assert!(s.child.is_none());
    assert_eq!(s.token, Some("tok".to_string()));
}

#[test]
fn the_port_is_probed_forty_times() {
    let s = InnerState::default();
    let (mut p, step) = Probe::start();
    assert!(matches!(step, ProbeStep::Pause(500)));
    for _ in 0..39 {
        assert!(matches!(p.tried(false, &s), ProbeStep::Pause(500)));
    }
    assert!(matches!(p.tried(false, &s), ProbeStep::Stop));
}

#[test]
fn a_probe_that_is_answered() {
    let mut s = InnerState::default();
    s.agent_token = Some("launch".to_string());
    let (mut p, _) = Probe::start();
    assert!(matches!(p.tried(true, &s), ProbeStep::Ready(Some(t)) if t == "launch"));
    s.proxy_url = Some("http://127.0.0.1:1/".to_string());
    assert!(matches!(p.tried(true, &s), ProbeStep::Stop));
}

#[test]
fn a_proxy_that_does_not_start() {
    assert_eq!(proxy_failed_text("in use"), "本地反代启动失败: in use");
}
