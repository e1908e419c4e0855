use dsh_desktop::startup::{is_main_window, opening, Start, StartAction, StartEvent};
use dsh_desktop::state::{AppConfig, ChildHandle, InnerState};

fn begin(inner: &InnerState, verbatim: bool) -> (Start, StartAction) {
    Start::begin(inner, AppConfig::default(), "/own/home", verbatim)
}

/// A start that waits for the runtime.
fn at_runtime(verbatim: bool) -> Start {
    let (mut s, a) = begin(&InnerState::default(), verbatim);
    assert!(matches!(a, StartAction::Heal(h) if h == "/own/home"));
    let a = s.step(StartEvent::Healed(vec![("/own/home/a.lock".to_string(), 9)]));
    match a {
        StartAction::WriteSettings(lines) => {
            assert_eq!(lines.len(), 1);
            assert_eq!(lines[0].stream, "system");
            assert!(lines[0].line.ends_with(": /own/home/a.lock"));
        }
        other => panic!("{other:?}"),
    }
    assert!(matches!(s.step(StartEvent::Settings(Ok(()))), StartAction::ReadKey));
    assert!(matches!(s.step(StartEvent::Key(Some("k".to_string()))), StartAction::FindPort(3080)));
    assert!(matches!(s.step(StartEvent::Port(3085)), StartAction::FindNode));
    s
}

#[test]
fn a_running_agent_is_not_started_again() {
    let mut inner = InnerState::default();
    inner.child = Some(ChildHandle { pid: 3 });
    let (s, a) = begin(&inner, false);
    assert!(matches!(a, StartAction::Report(st) if st.pid == Some(3)));
    assert!(!s.expects(&StartEvent::Healed(Vec::new())) && !s.expects_process());
}

#[test]
fn the_agent_is_started_in_order() {
    let mut s = at_runtime(true);
    assert!(s.expects(&StartEvent::Node(Ok(String::new()))));
    assert!(!s.expects(&StartEvent::Entry(Ok(String::new()))));
    let a = s.step(StartEvent::Node(Ok(r"\\?\D:\node.exe".to_string())));
    assert!(matches!(a, StartAction::FindEntry));
    let call = match s.step(StartEvent::Entry(Ok(r"\\?\D:\bin.js".to_string()))) {
        StartAction::Launch(c) => c,
        other => panic!("{other:?}"),
    };
    assert_eq!(call.program, r"D:\node.exe");
    assert_eq!(call.args, vec![r"D:\bin.js", "web", "--port", "3085"]);
    assert_eq!(call.env.get("DSH_HOME").as_deref(), Some("/own/home"));
    assert_eq!(call.env.get("DEEPSEEK_API_KEY").as_deref(), Some("k"));

    assert!(s.expects_process());
    let mut inner = InnerState::default();
    let o = s.launched(Ok(42), &mut inner);
    let st = o.result.unwrap();
    assert_eq!((st.state.as_str(), st.pid, st.agent_port), ("starting", Some(42), 3085));
    assert_eq!(inner.token, Some(o.token.clone()));
    assert_eq!(o.token.len(), 44);
    assert!(!s.expects_process());
}

#[test]
fn a_process_that_does_not_start() {
    let mut s = at_runtime(false);
    s.step(StartEvent::Node(Ok("/n".to_string())));
    s.step(StartEvent::Entry(Ok(r"\\?\e".to_string())));
    let mut inner = InnerState::default();
    let o = s.launched(Err("denied".to_string()), &mut inner);
    assert!(o.result.is_none() && inner.child.is_none());
    assert_eq!(o.error, r"启动 dsh sidecar 失败: denied (node=/n, entry=\\?\e)");
}

#[test]
fn a_start_that_fails_early() {
    let (mut s, _) = begin(&InnerState::default(), false);
    s.step(StartEvent::Healed(Vec::new()));
    let a = s.step(StartEvent::Settings(Err("disk full".to_string())));
    assert!(matches!(a, StartAction::Fail(m) if m == "disk full"));
    assert!(!s.expects(&StartEvent::Key(None)));
    let mut s = at_runtime(false);
    assert!(matches!(s.step(StartEvent::Node(Err("none".to_string()))), StartAction::Fail(m) if m == "none"));
    let mut s = at_runtime(false);
    s.step(StartEvent::Node(Ok("/n".to_string())));
    assert!(matches!(s.step(StartEvent::Entry(Err("none".to_string()))), StartAction::Fail(_)));
}

#[test]
fn a_configured_directory_is_used() {
    let mut c = AppConfig::default();
    c.paths.data_dir = "/data".to_string();
    let (_, a) = Start::begin(&InnerState::default(), c, "/own/home", false);
    assert!(matches!(a, StartAction::Heal(h) if h == "/data"));
}

#[test]
fn the_application_opens() {
    let mut c = AppConfig::default();
    let o = opening(&c, &Some("dark".to_string()));
    assert!(o.autostart);
    assert_eq!(
        o.restore,
        Some("localStorage.setItem('dsh-angelina-themes.selection', 'dark')".to_string())
    );
    c.server.auto_start = false;
    let o = opening(&c, &None);
    assert!(!o.autostart && o.restore.is_none());
    assert!(is_main_window("main") && !is_main_window("other"));
}
