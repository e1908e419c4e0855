use dsh_desktop::auth::valid_token;
use dsh_desktop::http::RequestUri;
use dsh_desktop::launch::{
    entry_missing_text, entry_places, first_existing, gen_token, launch_args, launch_failed_text,
    node_missing_text, node_places, normalize_path, proxy_url, token_of_bytes, Base, PortSearch,
    PortStep,
};

#[test]
fn tokens_are_base_64() {
    assert_eq!(token_of_bytes(&[]), "");
    assert_eq!(token_of_bytes(&[0xfb]), "-w==");
    assert_eq!(token_of_bytes(&[0xff, 0xef]), "_-8=");
    assert_eq!(token_of_bytes(b"Man"), "TWFu");
    assert_eq!(token_of_bytes(b"light work"), "bGlnaHQgd29yaw==");
}

#[test]
fn tokens_are_random() {
    let a = gen_token();
    assert_eq!(a.len(), 44);
    assert!(a.ends_with('=') && !a.ends_with("=="));
    assert!(a.chars().all(|c| c.is_ascii_alphanumeric() || "-_=".contains(c)));
    assert_ne!(a, gen_token());
}

#[test]
fn the_first_address_presents_the_token() {
    let token = gen_token();
    let url = proxy_url(50123, &token);
    let target = url.strip_prefix("http://127.0.0.1:50123").unwrap();
    assert_eq!(target, format!("/?t={token}"));
    assert!(valid_token(&token, &RequestUri::origin_form(target), &Vec::new()));
}

#[test]
fn the_first_free_port_is_used() {
    let (mut s, step) = PortSearch::start(3080);
    assert_eq!(step, PortStep::Try(3080));
    assert_eq!(s.tried(false), PortStep::Try(3081));
    assert_eq!(s.tried(false), PortStep::Try(3082));
    assert_eq!(s.tried(true), PortStep::Use(3082));
}

#[test]
fn without_a_free_port_the_preferred_one_is_used() {
    let (mut s, _) = PortSearch::start(65435);
    for p in 65436..=65535u16 {
        assert_eq!(s.tried(false), PortStep::Try(p));
    }
    assert_eq!(s.tried(false), PortStep::Use(65435));
}

#[test]
fn the_search_stops_at_the_last_port() {
    let (mut s, step) = PortSearch::start(65500);
    assert_eq!(step, PortStep::Try(65500));
    for p in 65501..=65535u16 {
        assert_eq!(s.tried(false), PortStep::Try(p));
    }
    assert_eq!(s.tried(false), PortStep::Use(65500));
    let (mut s, step) = PortSearch::start(65535);
    assert_eq!(step, PortStep::Try(65535));
    assert_eq!(s.tried(true), PortStep::Use(65535));
    let (mut s, _) = PortSearch::start(65535);
    assert_eq!(s.tried(false), PortStep::Use(65535));
    let (mut s, step) = PortSearch::start(0);
    assert_eq!(step, PortStep::Try(0));
    for p in 1..=100u16 {
        assert_eq!(s.tried(false), PortStep::Try(p));
    }
    assert_eq!(s.tried(false), PortStep::Use(0));
}

#[test]
fn files_are_looked_for_in_order() {
    let nodes: Vec<(Base, String)> =
        node_places().iter().map(|p| (p.base, p.parts.join("/"))).collect();
    let full = "node-x86_64-pc-windows-msvc.exe".to_string();
    assert_eq!(
        nodes,
        vec![
            (Base::Resources, full.clone()),
            (Base::Resources, format!("binaries/{full}")),
            (Base::Application, full.clone()),
            (Base::Application, format!("binaries/{full}")),
            (Base::Resources, "node.exe".to_string()),
            (Base::Resources, "binaries/node.exe".to_string()),
            (Base::Application, "node.exe".to_string()),
        ]
    );
    let entries: Vec<(Base, String)> =
        entry_places().iter().map(|p| (p.base, p.parts.join("/"))).collect();
    assert_eq!(
        entries,
        vec![
            (Base::Resources, "dsh-dist/lib/bin.js".to_string()),
            (Base::Application, "dsh-dist/lib/bin.js".to_string()),
        ]
    );
    let there: Vec<bool> = nodes
        .iter()
        .map(|(b, p)| *b == Base::Resources && (p == "node.exe" || *p == format!("binaries/{full}")))
        .collect();
    assert_eq!(first_existing(&there), Some(1), "the full name wins");
    assert_eq!(first_existing(&vec![false, true, true]), Some(1));
    assert_eq!(first_existing(&vec![false, false]), None);
    assert_eq!(first_existing(&Vec::new()), None);
}

#[test]
fn missing_files_are_named() {
    assert_eq!(
        node_missing_text(&vec!["/a".to_string(), "/b".to_string()]),
        "找不到 node 外部二进制，已尝试以下路径:\n  - /a\n  - /b"
    );
    assert_eq!(
        entry_missing_text("[\"/a\"]"),
        "找不到 harness 入口 dsh-dist/lib/bin.js，已尝试: [\"/a\"]"
    );
    assert_eq!(
        launch_failed_text("denied", "/n", "/e"),
        "启动 dsh sidecar 失败: denied (node=/n, entry=/e)"
    );
}

#[test]
fn verbatim_paths_are_normalized() {
    assert_eq!(normalize_path(r"\\?\D:\app\node.exe"), r"D:\app\node.exe");
    assert_eq!(normalize_path(r"\\?\UNC\host\share"), r"host\share");
    assert_eq!(normalize_path(r"D:\app"), r"D:\app");
    assert_eq!(normalize_path("/usr/bin/node"), "/usr/bin/node");
    assert_eq!(normalize_path(""), "");
}

#[test]
fn the_call_is_fixed() {
    assert_eq!(launch_args("/x/bin.js", 3080), vec!["/x/bin.js", "web", "--port", "3080"]);
}
