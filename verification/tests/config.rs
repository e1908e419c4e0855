use dsh_desktop::config::{
    build_env, key_to_store, load_config, resolve_dsh_home, split_config, usable_key,
};
use dsh_desktop::state::AppConfig;
use dsh_desktop::tray::{click_action, menu_action, menu_entries, MenuAction, TRAY_TOOLTIP};

#[test]
fn a_first_start_has_its_defaults() {
    let c = load_config(None);
    assert_eq!(c.server.host, "127.0.0.1");
    assert_eq!(c.server.port, 3080);
    assert!(c.server.auto_start);
    assert_eq!(c.model.provider, "deepseek-official");
    assert_eq!(c.model.model, "deepseek-v4-flash");
    assert_eq!(c.model.api_key, "");
    assert_eq!(c.ui.theme, "");
    assert_eq!(c.advanced.extra_env.len(), 0);
    let mut stored = AppConfig::default();
    stored.server.port = 4000;
    assert_eq!(load_config(Some(stored)).server.port, 4000);
}

#[test]
fn the_environment_holds_what_is_configured() {
    let mut c = AppConfig::default();
    let env = build_env(&c, "/home", None);
    assert_eq!(env.len(), 2);
    assert_eq!(env.get("DSH_HOME").as_deref(), Some("/home"));
    assert_eq!(env.get("DSH_TELEMETRY_DISABLED").as_deref(), Some("1"));
    assert!(env.get("DEEPSEEK_API_KEY").is_none());

    c.model.base_url = "http://x".to_string();
    c.advanced.extra_env.insert("DSH_HOME".to_string(), "/mine".to_string());
    c.advanced.extra_env.insert("MORE".to_string(), "1".to_string());
    let env = build_env(&c, "/home", Some("key".to_string()));
    assert_eq!(env.len(), 5);
    assert_eq!(env.get("DEEPSEEK_API_KEY").as_deref(), Some("key"));
    assert_eq!(env.get("DEEPSEEK_BASE_URL").as_deref(), Some("http://x"));
    assert_eq!(env.get("DSH_HOME").as_deref(), Some("/mine"));
    assert!(build_env(&AppConfig::default(), "/h", Some(String::new())).get("DEEPSEEK_API_KEY").is_none());
}

#[test]
fn the_data_directory_is_chosen() {
    let mut c = AppConfig::default();
    assert_eq!(resolve_dsh_home(&c), None);
    c.paths.data_dir = "/data".to_string();
    assert_eq!(resolve_dsh_home(&c), Some("/data".to_string()));
}

#[test]
fn the_key_is_not_stored_with_the_rest() {
    let mut c = AppConfig::default();
    c.model.api_key = "secret".to_string();
    c.ui.theme = "dark".to_string();
    let (key, rest) = split_config(c);
    assert_eq!(key, Some("secret".to_string()));
    assert_eq!(rest.model.api_key, "");
    assert_eq!(rest.ui.theme, "dark");
    assert_eq!(split_config(AppConfig::default()).0, None);
    assert_eq!(key_to_store(""), None);
    assert_eq!(usable_key(Some("k".to_string())), Some("k".to_string()));
    assert_eq!(usable_key(Some(String::new())), None);
    assert_eq!(usable_key(None), None);
}

#[test]
fn the_tray_menu() {
    let all: Vec<(String, String)> =
        menu_entries().into_iter().map(|e| (e.id, e.label)).collect();
    let expected = [
        ("start", "启动 Agent"),
        ("stop", "停止 Agent"),
        ("restart", "重启 Agent"),
        ("settings", "设置"),
        ("quit", "退出"),
    ];
    assert_eq!(all, expected.map(|(a, b)| (a.to_string(), b.to_string())).to_vec());
    assert_eq!(menu_action("start"), MenuAction::Start);
    assert_eq!(menu_action("stop"), MenuAction::Stop);
    assert_eq!(menu_action("restart"), MenuAction::Restart);
    assert_eq!(menu_action("settings"), MenuAction::Show);
    assert_eq!(menu_action("quit"), MenuAction::Quit);
    assert_eq!(menu_action("other"), MenuAction::Nothing);
    assert_eq!(click_action(true), MenuAction::Show);
    assert_eq!(click_action(false), MenuAction::Nothing);
    assert_eq!(TRAY_TOOLTIP, "DeepSeek Harness");
}
