use dsh_desktop::http::{text_header, Header, RequestUri};
use dsh_desktop::theme::{changed_theme, chosen_theme, report_theme, theme_restore_script};

fn session() -> Vec<Header> {
    vec![text_header("cookie", "dsh_token=tok")]
}

fn uri() -> RequestUri {
    RequestUri::origin_form("/__dsh_theme")
}

#[test]
fn a_theme_is_reported_by_those_with_the_token() {
    let o = report_theme("tok", &uri(), &Vec::new(), &b"dark".to_vec(), "");
    assert_eq!((o.reply.status, o.reply.body), (401, b"unauthorized".to_vec()));
    assert!(o.store.is_none());
    let o = report_theme("tok", &uri(), &session(), &b" dark\n".to_vec(), "light");
    assert_eq!((o.reply.status, o.reply.body), (200, b"ok".to_vec()));
    assert_eq!(o.store, Some("dark".to_string()));
}

#[test]
fn a_theme_is_stored_once() {
    let o = report_theme("tok", &uri(), &session(), &b"dark".to_vec(), "dark");
    assert_eq!(o.reply.status, 200);
    assert!(o.store.is_none());
    assert_eq!(changed_theme(" x ", "y"), Some("x".to_string()));
    assert_eq!(changed_theme(" x ", "x"), None);
}

#[test]
fn odd_bytes_are_replaced() {
    let o = report_theme("tok", &uri(), &session(), &vec![b'a', 0xff, b'b'], "");
    assert_eq!(o.store, Some("a\u{fffd}b".to_string()));
    let o = report_theme("tok", &uri(), &session(), &"主题".as_bytes().to_vec(), "");
    assert_eq!(o.store, Some("主题".to_string()));
}

#[test]
fn an_empty_theme_is_none() {
    assert_eq!(chosen_theme(""), None);
    assert_eq!(chosen_theme("dark"), Some("dark".to_string()));
}

#[test]
fn the_window_sets_the_theme() {
    assert_eq!(
        theme_restore_script("angelina-dark"),
        "localStorage.setItem('dsh-angelina-themes.selection', 'angelina-dark')"
    );
}
