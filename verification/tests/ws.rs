use dsh_desktop::exchange::{proxy_state, ProxyState};
use dsh_desktop::http::{text_header, Header, RequestUri};
use dsh_desktop::ws::{
    a_to_t, from_client, from_upstream, sent_client, sent_upstream, t_to_a, ws_candidates,
    ws_routes, ClientMessage, CloseReason, PipeStep, Tunnel, TunnelStep, UpstreamMessage,
};

fn state() -> ProxyState {
    proxy_state(3080, "tok", None, &None, &None)
}

fn session() -> Vec<Header> {
    vec![text_header("cookie", "dsh_token=tok")]
}

#[test]
fn the_agent_is_looked_for_at_all_its_names() {
    assert_eq!(ws_routes(), vec!["/api/remote.mux", "/api/events.mux", "/api/events.host"]);
    assert_eq!(
        ws_candidates(&RequestUri::origin_form("/api/events.mux?t=x&a=1")),
        vec![
            "/api/events.mux?a=1",
            "/api/remote.mux?a=1",
            "/api/events.host?a=1"
        ]
    );
    assert_eq!(
        ws_candidates(&RequestUri::origin_form("/other?t=x")),
        vec!["/other", "/api/remote.mux", "/api/events.mux", "/api/events.host"]
    );
    assert_eq!(
        ws_candidates(&RequestUri::origin_form("/api/remote.mux?")),
        vec!["/api/remote.mux?", "/api/remote.mux", "/api/events.mux", "/api/events.host"]
    );
    assert_eq!(ws_candidates(&RequestUri { path_and_query: None })[0], "/");
}

#[test]
fn tunnels_are_for_those_with_the_token() {
    let uri = RequestUri::origin_form("/api/remote.mux");
    assert_eq!(Tunnel::open(&state(), &uri, &Vec::new()).unwrap_err().status, 401);
    let mut foreign = session();
    foreign.push(text_header("origin", "http://evil.example"));
    assert_eq!(Tunnel::open(&state(), &uri, &foreign).unwrap_err().status, 403);
    assert!(Tunnel::open(&state(), &uri, &session()).is_ok());
}

#[test]
fn a_tunnel_tries_one_place_after_the_other() {
    let uri = RequestUri::origin_form("/api/remote.mux");
    let mut t = Tunnel::open(&state(), &uri, &session()).unwrap();
    assert!(matches!(t.begin(""), TunnelStep::Drop(m)
        if m == "proxy ws: harness auth cookie unavailable, dropping upgrade"));
    assert!(matches!(t.begin("c"), TunnelStep::Connect { url, cookie }
        if url == "ws://127.0.0.1:3080/api/remote.mux" && cookie == "c"));
    assert!(matches!(t.connected(), TunnelStep::Pipe(None)));
    assert!(matches!(t.failed(false, "refused"), TunnelStep::Connect { url, cookie }
        if url == "ws://127.0.0.1:3080/api/events.mux" && cookie == "c"));
    assert!(matches!(t.connected(), TunnelStep::Pipe(Some(n))
        if n == "proxy ws: upstream path fell back to /api/events.mux"));
    assert!(matches!(t.failed(true, "odd"), TunnelStep::Connect { .. }));
    assert!(matches!(t.failed(false, "gone"), TunnelStep::Drop(m)
        if m == "proxy ws upstream connect failed: [/api/remote.mux] refused; \
                 [/api/events.mux] bad request: odd; [/api/events.host] gone; "));
}

#[test]
fn messages_pass_as_they_are() {
    assert!(matches!(a_to_t(ClientMessage::Text("x".into())), UpstreamMessage::Text(t) if t == "x"));
    assert!(matches!(a_to_t(ClientMessage::Binary(vec![1])), UpstreamMessage::Binary(b) if b == [1]));
    assert!(matches!(a_to_t(ClientMessage::Ping(vec![2])), UpstreamMessage::Ping(b) if b == [2]));
    assert!(matches!(a_to_t(ClientMessage::Pong(vec![3])), UpstreamMessage::Pong(b) if b == [3]));
    let why = CloseReason { code: 1000, reason: "bye".to_string() };
    assert!(matches!(
        a_to_t(ClientMessage::Close(Some(why.clone()))),
        UpstreamMessage::Close(None)
    ));
    assert!(matches!(t_to_a(UpstreamMessage::Text("x".into())), Some(ClientMessage::Text(t)) if t == "x"));
    assert!(matches!(t_to_a(UpstreamMessage::Binary(vec![1])), Some(ClientMessage::Binary(b)) if b == [1]));
    assert!(matches!(t_to_a(UpstreamMessage::Ping(vec![2])), Some(ClientMessage::Ping(b)) if b == [2]));
    assert!(matches!(t_to_a(UpstreamMessage::Pong(vec![3])), Some(ClientMessage::Pong(b)) if b == [3]));
    assert!(matches!(
        t_to_a(UpstreamMessage::Close(Some(why))),
        Some(ClientMessage::Close(None))
    ));
    assert!(t_to_a(UpstreamMessage::Frame).is_none());
}

#[test]
fn either_side_ends_the_tunnel() {
    assert!(matches!(from_client(None), PipeStep::CloseUpstream));
    assert!(matches!(from_upstream(None), PipeStep::CloseClient));
    assert!(matches!(from_upstream(Some(UpstreamMessage::Frame)), PipeStep::Continue));
    assert!(matches!(
        from_client(Some(ClientMessage::Ping(Vec::new()))),
        PipeStep::ToUpstream(UpstreamMessage::Ping(_))
    ));
    assert!(matches!(
        from_upstream(Some(UpstreamMessage::Text("t".into()))),
        PipeStep::ToClient(ClientMessage::Text(_))
    ));
    assert!(matches!(sent_upstream(true), PipeStep::Continue));
    assert!(matches!(sent_upstream(false), PipeStep::CloseUpstream));
    assert!(matches!(sent_client(true), PipeStep::Continue));
    assert!(matches!(sent_client(false), PipeStep::CloseClient));
}
