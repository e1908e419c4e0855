use dsh_desktop::settings::{
    merge_settings, read_theme_preference, theme_of_settings, write_settings_yaml,
};
use dsh_desktop::state::AppConfig;

fn config(base_url: &str) -> AppConfig {
    let mut c = AppConfig::default();
    c.model.base_url = base_url.to_string();
    c
}

fn written(existing: Option<&str>, base_url: &str) -> String {
    write_settings_yaml(&existing.map(|s| s.to_string()), &config(base_url)).unwrap()
}

const PLAIN: &str =
    "agent-default-model:\n  provider: deepseek-official\n  model: deepseek-v4-flash\n";

#[test]
fn a_first_start_writes_the_managed_sections() {
    assert_eq!(written(None, ""), PLAIN);
    assert_eq!(
        written(None, "http://x"),
        "llm-deepseek:\n  baseURL: http://x\nagent-default-model:\n  provider: deepseek-official\n  model: deepseek-v4-flash\n"
    );
}

#[test]
fn what_is_no_mapping_is_replaced() {
    for existing in ["", "- a\n- b\n", "just text", "{ broken"] {
        assert_eq!(written(Some(existing), ""), PLAIN, "{existing}");
    }
}

#[test]
fn other_settings_keep_their_places() {
    let existing = "first: 1\nllm-deepseek:\n  baseURL: old\n  key: lost\nllm-pi-ai:\n- name: openai\n";
    assert_eq!(
        written(Some(existing), "http://new"),
        "first: 1\nllm-deepseek:\n  baseURL: http://new\nllm-pi-ai:\n- name: openai\nagent-default-model:\n  provider: deepseek-official\n  model: deepseek-v4-flash\n"
    );
}

#[test]
fn a_stored_address_stays_if_none_is_configured() {
    let existing = "llm-deepseek: {baseURL: https://u}\n";
    let out: serde_yaml::Value = serde_yaml::from_str(&written(Some(existing), "")).unwrap();
    assert_eq!(out["llm-deepseek"]["baseURL"].as_str(), Some("https://u"));
    let out: serde_yaml::Value =
        serde_yaml::from_str(&written(Some(existing), "https://v")).unwrap();
    assert_eq!(out["llm-deepseek"]["baseURL"].as_str(), Some("https://v"));
}

#[test]
fn writing_twice_is_writing_once() {
    let once = written(Some("z: 1\nui-theme:\n  preference: dark\n"), "http://x");
    assert_eq!(written(Some(&once), "http://x"), once);
    assert_eq!(read_theme_preference(&Some(once)), Some("dark".to_string()));
}

#[test]
fn values_are_merged_directly() {
    let root: serde_yaml::Value = serde_yaml::from_str("a: [1, 2]").unwrap();
    let out = merge_settings(root, &config("").model);
    assert_eq!(out["a"][1].as_i64(), Some(2));
    assert_eq!(out["agent-default-model"]["model"].as_str(), Some("deepseek-v4-flash"));
    assert!(out.get("llm-deepseek").is_none());
    let root: serde_yaml::Value = serde_yaml::from_str("llm-pi-ai: [x]\nllm-deepseek: 1").unwrap();
    let out = merge_settings(root.clone(), &config("http://new").model);
    assert_eq!(out.get("llm-pi-ai"), root.get("llm-pi-ai"));
    assert_eq!(out["llm-deepseek"]["baseURL"].as_str(), Some("http://new"));
    let root: serde_yaml::Value = serde_yaml::from_str("ui-theme: {preference: light}").unwrap();
    assert_eq!(theme_of_settings(&root), Some("light".to_string()));
}

#[test]
fn the_preferred_theme_is_read() {
    let read = |s: &str| read_theme_preference(&Some(s.to_string()));
    assert_eq!(read("ui-theme:\n  preference: angelina-dark\n"), Some("angelina-dark".to_string()));
    assert_eq!(read("ui-theme:\n  preference: 5\n"), None);
    assert_eq!(read("ui-theme: dark\n"), None);
    assert_eq!(read("ui-theme: {}\n"), None);
    assert_eq!(read("other: 1\n"), None);
    assert_eq!(read("- a\n"), None);
    assert_eq!(read("{ broken"), None);
    assert_eq!(read_theme_preference(&None), None);
}
