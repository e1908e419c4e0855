//! The page that is shown while the agent is not yet ready: it asks for the
//! agent's health and goes back to where it was asked for once it is ready.

use vstd::prelude::*;
use vstd::string::*;
use vstd::utf8::encode_utf8;

use crate::http::{field, text_header, Header, Reply, ReplyView, RequestUri};
use crate::json::{json_quoted, json_text, law_quoted_text_reads_as_itself, read_literal};
use crate::text::chars_of;

verus! {

// ---------------------------------------------------------------------------
// The page
// ---------------------------------------------------------------------------

/// The page up to the place that it goes back to.
pub const PAGE_START: &'static str = r#"<!doctype html>
<html lang="zh-CN"><head><meta charset="utf-8">
<meta name="viewport" content="width=device-width,initial-scale=1">
<title>正在连接…</title>
<style>
 html,body{height:100%;margin:0}
 body{display:flex;align-items:center;justify-content:center;
   font:14px/1.6 -apple-system,"Segoe UI","Microsoft YaHei",sans-serif;
   background:#0f1115;color:#e6e6e6}
 .box{text-align:center;max-width:440px;padding:0 24px}
 .spin{width:28px;height:28px;margin:0 auto 18px;border:3px solid #3a3f4b;
   border-top-color:#6b8afd;border-radius:50%;animation:r 1s linear infinite}
 @keyframes r{to{transform:rotate(360deg)}}
 h1{font-size:16px;font-weight:600;margin:0 0 8px}
 p{margin:6px 0;color:#9aa4b2;font-size:13px}
 code{background:#1a1d24;padding:1px 5px;border-radius:4px;font-size:12px;color:#8b95a5}
 button{margin-top:16px;padding:7px 18px;border:0;border-radius:6px;
   background:#3b5bdb;color:#fff;font-size:13px;cursor:pointer}
 #warn{display:none;color:#e0a458}
</style></head><body><div class="box">
<div class="spin" id="sp"></div>
<h1 id="t">正在连接本地服务…</h1>
<p>首次启动需要初始化运行环境，可能需要几十秒，请稍候。</p>
<p id="warn">等待时间较长，可点击下方按钮重试。</p>
<p><code id="why"></code></p>
<button id="btn" style="display:none" onclick="location.reload()">重试</button>
</div>
<script>
(function(){
  var TARGET="#;

/// The page between the place that it goes back to and the reason that it shows.
pub const PAGE_MIDDLE: &'static str = r#";
  var REASON="#;

/// The page behind the reason that it shows.
pub const PAGE_END: &'static str = r#";
  var n=0, MAXWAIT=225;   // 225 × 800ms ≈ 3 分钟
  document.getElementById('why').textContent=REASON;
  function giveUp(){
    document.getElementById('sp').style.display='none';
    document.getElementById('t').textContent='暂时无法连接本地服务';
    document.getElementById('warn').style.display='block';
    document.getElementById('btn').style.display='inline-block';
  }
  function next(){
    n++;
    if(n%4===0){ nudge(); }
    if(n===40){ document.getElementById('warn').style.display='block'; }
    if(n>=MAXWAIT){ giveUp(); return; }
    setTimeout(poll, 800);
  }
  function poll(){
    fetch('/__dsh_health',{cache:'no-store'})
      .then(function(r){return r.json()})
      .then(function(j){ if(j&&j.ready===true){ location.replace(TARGET); return; } next(); })
      .catch(function(){ next(); });
  }
  // 每 4 次轮询（约 3.2s）用 HEAD 真敲一次页面地址：这条请求与浏览器导航走
  // **同一条**处理路径（含 token 校验与会话握手），因此即使 `/__dsh_health` 的
  // 语义将来变了，引导页也一定能收敛——不把成败押在单一「就绪标志」上。
  function nudge(){
    try { fetch(TARGET, {method:'HEAD', cache:'no-store'}).catch(function(){}); } catch(e) {}
  }
  setTimeout(poll, 500);
})();
</script></body></html>"#;

/// Where the page goes back to: the path and query of the request.
pub open spec fn boot_target(pq: Option<Seq<char>>) -> Seq<char> {
    match pq {
        Some(s) => if s.len() > 0 && s[0] == '/' {
            s
        } else {
            "/"@
        },
        None => "/"@,
    }
}

/// The text of the page.
pub open spec fn boot_html(target: Seq<char>, reason: Seq<char>) -> Seq<char> {
    PAGE_START@ + json_quoted(target) + PAGE_MIDDLE@ + json_quoted(reason) + PAGE_END@
}

/// The page as a reply: it is served, and no copy of it is kept.
pub open spec fn boot_page(pq: Option<Seq<char>>, reason: Seq<char>) -> ReplyView {
    ReplyView {
        status: 200,
        headers: seq![
            field("content-type"@, "text/html; charset=utf-8"@),
            field("cache-control"@, "no-store"@),
        ],
        body: encode_utf8(boot_html(boot_target(pq), reason)),
    }
}

/// Where the page goes back to.
fn find_boot_target(uri: &RequestUri) -> (r: String)
    ensures
        r@ == boot_target(uri@),
{
    match &uri.path_and_query {
        Some(s) => {
            let cs = chars_of(s.as_str());
            if cs.len() > 0 && cs[0] == '/' {
                s.clone()
            } else {
                "/".to_owned()
            }
        },
        None => "/".to_owned(),
    }
}

/// The page for a request, with the reason for which it is shown.
pub fn boot_page_response(uri: &RequestUri, reason: &str) -> (r: Reply)
    ensures
        r@ == boot_page(uri@, reason@),
{
    let target = find_boot_target(uri);
    let target_json = match json_text(target.as_str()) {
        Some(t) => t,
        None => "\"/\"".to_owned(),
    };
    let reason_json = match json_text(reason) {
        Some(t) => t,
        None => "\"\"".to_owned(),
    };
    let mut html = PAGE_START.to_owned();
    html.append(target_json.as_str());
    html.append(PAGE_MIDDLE);
    html.append(reason_json.as_str());
    html.append(PAGE_END);
    let mut headers: Vec<Header> = Vec::new();
    headers.push(text_header("content-type", "text/html; charset=utf-8"));
    headers.push(text_header("cache-control", "no-store"));
    let r = Reply { status: 200, headers, body: html.as_str().as_bytes_vec() };
    assert(r@.headers =~= boot_page(uri@, reason@).headers);
    r
}

// ---------------------------------------------------------------------------
// Laws
// ---------------------------------------------------------------------------

/// The page goes back to exactly what was asked for, and shows exactly the
/// reason that it was given: the two literals of its script read as them, and
/// the script goes on behind each as it is written.
pub proof fn law_boot_page_holds_target_and_reason(target: Seq<char>, reason: Seq<char>)
    requires
        target.len() > 0 && target[0] == '/',
    ensures
        boot_target(Some(target)) == target,
        ({
            let html = boot_html(target, reason);
            let behind = PAGE_MIDDLE@ + json_quoted(reason) + PAGE_END@;
            let at = PAGE_START@.len() + json_quoted(target).len() + PAGE_MIDDLE@.len();
            &&& read_literal(html.skip(PAGE_START@.len() as int + 1)) == Some((target, behind))
            &&& read_literal(html.skip(at as int + 1)) == Some((reason, PAGE_END@))
        }),
{
    let html = boot_html(target, reason);
    let behind = PAGE_MIDDLE@ + json_quoted(reason) + PAGE_END@;
    let at = PAGE_START@.len() + json_quoted(target).len() + PAGE_MIDDLE@.len();
    law_quoted_text_reads_as_itself(target, behind);
    law_quoted_text_reads_as_itself(reason, PAGE_END@);
    assert(html.skip(PAGE_START@.len() as int + 1) =~= (json_quoted(target) + behind).skip(1));
    assert(html.skip(at as int + 1) =~= (json_quoted(reason) + PAGE_END@).skip(1));
}

/// The page is served as HTML of which no copy is kept, and goes back to the path
/// and query that were asked for; to the root where there is none.
pub proof fn law_the_boot_page_leads_back(target: Seq<char>, other: Seq<char>, reason: Seq<char>)
    requires
        target.len() > 0 && target[0] == '/',
        other.len() == 0 || other[0] != '/',
    ensures
        boot_page(Some(target), reason) == (ReplyView {
            status: 200,
            headers: seq![
                ("content-type"@, encode_utf8("text/html; charset=utf-8"@)),
                ("cache-control"@, encode_utf8("no-store"@)),
            ],
            body: encode_utf8(boot_html(target, reason)),
        }),
        boot_page(Some(other), reason) == boot_page(Some("/"@), reason),
        boot_page(None, reason) == boot_page(Some("/"@), reason),
{
    reveal_strlit("/");
}

} // verus!
