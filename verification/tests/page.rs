use std::io::Write;

use dsh_desktop::http::{text_header, Header};
use dsh_desktop::page::{
    body_is_html, insert_script, page_script, transform_plain, transform_upstream, SCRIPT_END,
    SCRIPT_START,
};

fn html_type() -> Vec<Header> {
    vec![text_header("Content-Type", "text/html; charset=utf-8")]
}

fn header<'a>(hs: &'a [Header], name: &str) -> Option<&'a [u8]> {
    hs.iter().find(|h| h.name.eq_ignore_ascii_case(name)).map(|h| h.value.as_slice())
}

#[test]
fn html_is_told_by_type_or_by_start() {
    assert!(body_is_html(&html_type(), &b"x".to_vec()));
    assert!(body_is_html(&vec![text_header("content-type", "APPLICATION/XHTML+xml")], &Vec::new()));
    assert!(body_is_html(&Vec::new(), &b"\n <!DOCTYPE html>".to_vec()));
    assert!(body_is_html(&Vec::new(), &b"<HTML>".to_vec()));
    assert!(body_is_html(&Vec::new(), &[0xff, b'<', b'h', b'e', b'a', b'd'].to_vec()));
    assert!(!body_is_html(&Vec::new(), &b"{\"a\":1}".to_vec()));
    // Only the start is looked at.
    let mut far = vec![b' '; 1024];
    far.extend_from_slice(b"<html>");
    assert!(!body_is_html(&Vec::new(), &far));
    let mut near = vec![b' '; 1019];
    near.extend_from_slice(b"<html>");
    assert!(body_is_html(&Vec::new(), &near));
}

#[test]
fn the_script_reports_and_sets_the_theme() {
    let bare = format!("{SCRIPT_START}{SCRIPT_END}");
    assert_eq!(page_script(&None), bare);
    assert_eq!(page_script(&Some(String::new())), bare);
    assert_eq!(
        page_script(&Some("dark".to_string())),
        format!("{SCRIPT_START}try{{localStorage.setItem(KEY,'dark')}}catch(e){{}}{SCRIPT_END}")
    );
    assert!(SCRIPT_START.starts_with("<script>var KEY='dsh-angelina-themes.selection';"));
    assert!(SCRIPT_START.contains("fetch('/__dsh_theme',{method:'POST',body:''+v})"));
}

#[test]
fn the_script_goes_behind_the_opening_tag() {
    let put = |b: &str| String::from_utf8(insert_script(&b.as_bytes().to_vec(), "S")).unwrap();
    assert_eq!(put("<html><head lang=\"x\"><a></head>"), "<html><head lang=\"x\">S<a></head>");
    assert_eq!(
        put("<html></head><body>x</body></html>"),
        "<html>S</head><body>x</body></html>"
    );
    assert_eq!(put("plain"), "plainS");
    assert_eq!(put(""), "S");
    // An opening tag that does not end within reach does not count.
    let long = format!("<head {}>x</head>y", "a".repeat(70));
    assert_eq!(put(&long), format!("<head {}>xS</head>y", "a".repeat(70)));
}

#[test]
fn only_the_script_is_added() {
    let body = b"<head>\xff\xfe</head>".to_vec();
    let out = insert_script(&body, "S");
    assert_eq!(out.len(), body.len() + 1);
    let mut rest = out.clone();
    rest.remove(6);
    assert_eq!(rest, body);
}

#[test]
fn a_root_page_is_transformed() {
    let headers = vec![
        text_header("content-type", "text/html"),
        text_header("Content-Length", "13"),
        text_header("transfer-encoding", "chunked"),
        text_header("connection", "close"),
        text_header("x-kept", "1"),
    ];
    let (reply, report) = transform_plain(
        200,
        &headers,
        b"<head></head>".to_vec(),
        &None,
        &Some("c=1".to_string()),
        true,
    );
    assert_eq!(reply.status, 200);
    assert_eq!(reply.body, format!("<head>{SCRIPT_START}{SCRIPT_END}</head>").into_bytes());
    assert_eq!(header(&reply.headers, "content-length"), None);
    assert_eq!(header(&reply.headers, "transfer-encoding"), None);
    assert_eq!(header(&reply.headers, "connection"), None);
    assert_eq!(header(&reply.headers, "x-kept"), Some(&b"1"[..]));
    assert_eq!(header(&reply.headers, "set-cookie"), Some(&b"c=1"[..]));
    assert!(report.body_is_html && report.injected);
    assert_eq!(report.len, 13);
}

#[test]
fn other_answers_pass_as_they_are() {
    let (reply, report) =
        transform_plain(404, &html_type(), b"<head></head>".to_vec(), &None, &None, false);
    assert_eq!(reply.status, 404);
    assert_eq!(reply.body, b"<head></head>".to_vec());
    assert_eq!(header(&reply.headers, "set-cookie"), None);
    assert!(report.body_is_html && !report.injected);
    let (json, report) = transform_plain(200, &Vec::new(), b"{}".to_vec(), &None, &None, true);
    assert_eq!(json.body, b"{}".to_vec());
    assert!(!report.body_is_html && !report.injected);
}

fn encoded(name: &str) -> Vec<Header> {
    vec![text_header("content-encoding", name), text_header("content-type", "application/json")]
}

#[test]
fn gzip_is_undone() {
    let mut e = flate2::write::GzEncoder::new(Vec::new(), flate2::Compression::default());
    e.write_all(b"hello hello hello").unwrap();
    let raw = e.finish().unwrap();
    let (reply, report) = transform_upstream(200, &encoded("GZIP"), &raw, &None, &None, true);
    assert_eq!(reply.body, b"hello hello hello".to_vec());
    assert_eq!(header(&reply.headers, "content-encoding"), None);
    assert_eq!(report.len, 17);
}

#[test]
fn deflate_is_undone() {
    let mut e = flate2::write::ZlibEncoder::new(Vec::new(), flate2::Compression::default());
    e.write_all(b"hello hello hello").unwrap();
    let raw = e.finish().unwrap();
    let (reply, _) = transform_upstream(200, &encoded("deflate"), &raw, &None, &None, true);
    assert_eq!(reply.body, b"hello hello hello".to_vec());
}

#[test]
fn brotli_is_undone() {
    let mut raw: Vec<u8> = Vec::new();
    {
        let mut w = brotli::CompressorWriter::new(&mut raw, 4096, 5, 22);
        w.write_all(b"hello hello hello").unwrap();
    }
    let (reply, _) = transform_upstream(200, &encoded("br"), &raw, &None, &None, true);
    assert_eq!(reply.body, b"hello hello hello".to_vec());
}

#[test]
fn what_cannot_be_decoded_stays() {
    for name in ["gzip", "deflate", "br", "identity"] {
        let raw = b"not compressed at all".to_vec();
        let (reply, _) = transform_upstream(200, &encoded(name), &raw, &None, &None, false);
        assert_eq!(reply.body, raw, "{name}");
        assert_eq!(header(&reply.headers, "content-encoding"), None);
    }
}
