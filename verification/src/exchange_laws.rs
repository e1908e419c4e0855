//! What holds of an exchange from its first request to its reply, whatever is
//! heard in between.

use vstd::prelude::*;
use vstd::utf8::encode_utf8;

use crate::auth::{first_visit, origin_allowed, presented_token, session_cookie, stripped};
use crate::boot_page::boot_page;
use crate::decode::{brotli_contents, gzip_contents, lower_field, zlib_contents};
use crate::exchange::{
    after, after_all, awaited, first_action, opened, same_request, sound, ActionView, EventView,
    ExchangeView, Phase, ProxyState,
};
use crate::forward::{accepts_html, law_the_request_is_passed_on, UpstreamView};
use crate::http::{path_of, plain_text};
use crate::page::{is_body_header, is_html, script_place, theme_script, transformed};
use crate::text::{contains, decimal, lower_text, opt_text};

verus! {

/// Whatever an exchange hears, it stays about the same request.
proof fn lemma_same_request(x: ExchangeView, events: Seq<EventView>)
    ensures
        same_request(x, after_all(x, events)),
    decreases events.len(),
{
    if events.len() > 0 {
        lemma_same_request(after(x, events[0]).0, events.drop_first());
    }
}

/// Whatever an exchange hears, it keeps what it was opened with: the request, and
/// what the proxy knew then.
pub proof fn law_the_request_is_kept(
    state: ProxyState,
    method: Seq<char>,
    uri: Option<Seq<char>>,
    headers: Seq<(Seq<char>, Seq<u8>)>,
    events: Seq<EventView>,
)
    ensures
        ({
            let x = after_all(opened(state, method, uri, headers), events);
            &&& x.port == state.agent_port
            &&& x.launch_token == state.agent_token@
            &&& x.theme == opt_text(state.theme)
            &&& x.method == method
            &&& x.uri == uri
            &&& x.headers == headers
            &&& x.is_root <==> path_of(uri) == "/"@
            &&& x.html_nav <==> path_of(uri) == "/"@ && accepts_html(headers)
            &&& first_visit(uri, headers) ==> x.set_cookie == Some(session_cookie(state.token@))
            &&& !first_visit(uri, headers) ==> x.set_cookie is None
        }),
{
    lemma_same_request(opened(state, method, uri, headers), events);
}

/// The cookie of the session that an event brings.
pub open spec fn cookie_in(e: EventView) -> Option<Seq<char>> {
    match e {
        EventView::Cookie(c) => Some(c),
        EventView::Renewed(c) => c,
        _ => None,
    }
}

/// Every request that an exchange sends to the agent, the first and any further
/// one, is the browser's own: its method, its target at the agent's port without
/// the proxy's token, and its headers, with the cookie that has just come.
pub proof fn law_the_agent_gets_the_browsers_request(
    state: ProxyState,
    method: Seq<char>,
    uri: Option<Seq<char>>,
    headers: Seq<(Seq<char>, Seq<u8>)>,
    events: Seq<EventView>,
    e: EventView,
    sent: UpstreamView,
)
    requires
        ({
            let x = after_all(opened(state, method, uri, headers), events);
            awaited(x.phase, e) && after(x, e).1 == ActionView::Forward(sent)
        }),
    ensures
        method == "GET"@ || method == "POST"@ || method == "PUT"@ || method == "DELETE"@ || method
            == "PATCH"@ || method == "HEAD"@ || method == "OPTIONS"@ ==> sent.method == method,
        sent.method == method || sent.method == "GET"@,
        sent.url == "http://127.0.0.1:"@ + decimal(state.agent_port as nat) + stripped(
            match uri {
                Some(s) => s,
                None => "/"@,
            },
        ),
        cookie_in(e) matches Some(cookie) && sent.headers == headers.filter(
            |h: (Seq<char>, Seq<u8>)|
                lower_text(h.0) != "host"@ && lower_text(h.0) != "cookie"@ && lower_text(h.0)
                    != "origin"@,
        ).push(("cookie"@, encode_utf8(cookie))),
{
    law_the_request_is_kept(state, method, uri, headers, events);
    law_the_request_is_passed_on(state.agent_port, method, uri, headers, cookie_in(e)->0);
}

/// A request that presents the token and comes from no foreign page is let in: a
/// cookie is awaited, briefly for one who goes to the root page, and with any
/// cookie that is not empty the agent is asked, and its answer awaited.
pub proof fn law_the_invited_reach_the_agent(
    state: ProxyState,
    method: Seq<char>,
    uri: Option<Seq<char>>,
    headers: Seq<(Seq<char>, Seq<u8>)>,
    cookie: Seq<char>,
)
    requires
        presented_token(uri, headers) == Some(state.token@),
        origin_allowed(headers),
        cookie.len() > 0,
    ensures
        first_action(state.token@, uri, headers) == (ActionView::AwaitCookie {
            brief: path_of(uri) == "/"@ && accepts_html(headers),
        }),
        ({
            let x = opened(state, method, uri, headers);
            let y = after(x, EventView::Cookie(cookie));
            &&& awaited(x.phase, EventView::Cookie(cookie))
            &&& y.1 is Forward
            &&& y.0.phase == Phase::First
        }),
{
}

/// One who does not present the token is told so, and one who comes from a foreign
/// page is told that.
pub proof fn law_the_uninvited_are_told_why(
    token: Seq<char>,
    uri: Option<Seq<char>>,
    headers: Seq<(Seq<char>, Seq<u8>)>,
)
    ensures
        presented_token(uri, headers) != Some(token) ==> first_action(token, uri, headers)
            == ActionView::Reply(plain_text(401, "unauthorized"@)),
        presented_token(uri, headers) == Some(token) && !origin_allowed(headers) ==> first_action(
            token,
            uri,
            headers,
        ) == ActionView::Reply(plain_text(403, "forbidden origin"@)),
{
}

/// What the agent's answer holds once its coding is undone: by the coding that its
/// headers name, and as it came where it names none or cannot be decoded.
pub open spec fn undone(headers: Seq<(Seq<char>, Seq<u8>)>, raw: Seq<u8>) -> Seq<u8> {
    let encoding = lower_field(headers, "content-encoding"@);
    let decoded = if contains(encoding, "gzip"@) {
        gzip_contents(raw)
    } else if contains(encoding, "deflate"@) {
        zlib_contents(raw)
    } else if contains(encoding, "br"@) {
        brotli_contents(raw)
    } else {
        Some(raw)
    };
    match decoded {
        Some(plain) => plain,
        None => raw,
    }
}

/// The reply that the agent's answer makes.
pub proof fn law_the_answer_makes_the_reply(
    status: u16,
    headers: Seq<(Seq<char>, Seq<u8>)>,
    raw: Seq<u8>,
    theme: Option<Seq<char>>,
    set_cookie: Option<Seq<char>>,
    is_root: bool,
)
    ensures
        ({
            let reply = transformed(status, headers, raw, theme, set_cookie, is_root);
            let plain = undone(headers, raw);
            let kept = headers.filter(
                |h: (Seq<char>, Seq<u8>)|
                    lower_text(h.0) != "content-length"@ && lower_text(h.0)
                        != "transfer-encoding"@ && lower_text(h.0) != "connection"@ && lower_text(
                        h.0,
                    ) != "content-encoding"@,
            );
            let at = script_place(plain);
            &&& reply.status == status
            &&& set_cookie is None ==> reply.headers == kept
            &&& set_cookie matches Some(c) ==> reply.headers == kept.push(
                ("set-cookie"@, encode_utf8(c)),
            )
            &&& !is_root || !is_html(headers, plain) ==> reply.body == plain
            &&& is_root && is_html(headers, plain) ==> reply.body == plain.take(at) + encode_utf8(
                theme_script(theme),
            ) + plain.skip(at)
        }),
{
    lemma_body_headers();
    let keep = |h: (Seq<char>, Seq<u8>)|
        lower_text(h.0) != "content-length"@ && lower_text(h.0) != "transfer-encoding"@
            && lower_text(h.0) != "connection"@ && lower_text(h.0) != "content-encoding"@;
    assert(keep =~= (|h: (Seq<char>, Seq<u8>)| !is_body_header(h.0)));
}

/// The headers that describe the body, by their names in lower case.
proof fn lemma_body_headers()
    ensures
        forall|name: Seq<char>| #[trigger]
            is_body_header(name) <==> lower_text(name) == "content-length"@ || lower_text(name)
                == "transfer-encoding"@ || lower_text(name) == "connection"@ || lower_text(name)
                == "content-encoding"@,
{
    reveal_strlit("content-length");
    reveal_strlit("transfer-encoding");
    reveal_strlit("connection");
    reveal_strlit("content-encoding");
    assert(lower_text("content-length"@) =~= "content-length"@);
    assert(lower_text("transfer-encoding"@) =~= "transfer-encoding"@);
    assert(lower_text("connection"@) =~= "connection"@);
    assert(lower_text("content-encoding"@) =~= "content-encoding"@);
}

/// The agent's answer is passed on: what it says of itself and of its headers is
/// kept until its body is read, and then the reply has its status, its headers in
/// their order but for those that describe the body, and its body with the coding
/// undone that those headers name. A page visit is answered so only if the agent
/// serves it.
pub proof fn law_the_answer_is_passed_on(
    x: ExchangeView,
    status: u16,
    headers: Seq<(Seq<char>, Seq<u8>)>,
    raw: Seq<u8>,
)
    requires
        x.phase == Phase::First || x.phase == Phase::Retry,
        status != 401,
        x.html_nav ==> 200 <= status < 300,
    ensures
        ({
            let answered = EventView::Answered(Ok((status, headers)));
            let body = EventView::Body(Ok(raw));
            let y = after(x, answered);
            let z = after(y.0, body);
            let reply = z.1->Reply_0;
            let plain = undone(headers, raw);
            let kept = headers.filter(
                |h: (Seq<char>, Seq<u8>)|
                    lower_text(h.0) != "content-length"@ && lower_text(h.0)
                        != "transfer-encoding"@ && lower_text(h.0) != "connection"@ && lower_text(
                        h.0,
                    ) != "content-encoding"@,
            );
            let at = script_place(plain);
            &&& awaited(x.phase, answered)
            &&& y.1 == ActionView::ReadBody
            &&& awaited(y.0.phase, body)
            &&& z.1 is Reply
            &&& reply.status == status
            &&& x.set_cookie is None ==> reply.headers == kept
            &&& x.set_cookie matches Some(c) ==> reply.headers == kept.push(
                ("set-cookie"@, encode_utf8(c)),
            )
            &&& !x.is_root || !is_html(headers, plain) ==> reply.body == plain
            &&& x.is_root && is_html(headers, plain) ==> reply.body == plain.take(at)
                + encode_utf8(theme_script(x.theme)) + plain.skip(at)
        }),
{
    law_the_answer_makes_the_reply(status, headers, raw, x.theme, x.set_cookie, x.is_root);
}

/// From the browser's request to its reply: where the agent answers the first time
/// it is asked, or the first further time, the browser gets what the agent sent,
/// and with it the session cookie if it comes for the first time.
pub proof fn law_the_browser_gets_the_agents_answer(
    state: ProxyState,
    method: Seq<char>,
    uri: Option<Seq<char>>,
    request: Seq<(Seq<char>, Seq<u8>)>,
    cookie: Seq<char>,
    status: u16,
    headers: Seq<(Seq<char>, Seq<u8>)>,
    raw: Seq<u8>,
)
    requires
        presented_token(uri, request) == Some(state.token@),
        origin_allowed(request),
        cookie.len() > 0,
        status != 401,
        path_of(uri) == "/"@ && accepts_html(request) ==> 200 <= status < 300,
    ensures
        ({
            let asked = after(
                opened(state, method, uri, request),
                EventView::Cookie(cookie),
            ).0;
            let told = after(asked, EventView::Answered(Ok((status, headers)))).0;
            let reply = after(told, EventView::Body(Ok(raw))).1->Reply_0;
            let kept = headers.filter(
                |h: (Seq<char>, Seq<u8>)|
                    lower_text(h.0) != "content-length"@ && lower_text(h.0)
                        != "transfer-encoding"@ && lower_text(h.0) != "connection"@ && lower_text(
                        h.0,
                    ) != "content-encoding"@,
            );
            &&& after(told, EventView::Body(Ok(raw))).1 is Reply
            &&& reply.status == status
            &&& first_visit(uri, request) ==> reply.headers == kept.push(
                ("set-cookie"@, encode_utf8(session_cookie(state.token@))),
            )
            &&& !first_visit(uri, request) ==> reply.headers == kept
            &&& path_of(uri) != "/"@ || !is_html(headers, undone(headers, raw)) ==> reply.body
                == undone(headers, raw)
            &&& path_of(uri) == "/"@ && is_html(headers, undone(headers, raw)) ==> ({
                let plain = undone(headers, raw);
                let at = script_place(plain);
                reply.body == plain.take(at) + encode_utf8(theme_script(opt_text(state.theme)))
                    + plain.skip(at)
            })
        }),
{
    let asked = after(opened(state, method, uri, request), EventView::Cookie(cookie)).0;
    law_the_answer_is_passed_on(asked, status, headers, raw);
}

/// An agent that turns the session away is asked again with a new one: its launch
/// token is looked up, the one that it has printed counts before the one that the
/// proxy was started with, and with the cookie that it is exchanged for the agent
/// is asked again.
pub proof fn law_a_session_is_renewed(
    x: ExchangeView,
    headers: Seq<(Seq<char>, Seq<u8>)>,
    printed: Option<Seq<char>>,
    cookie: Seq<char>,
)
    requires
        x.phase == Phase::First,
    ensures
        ({
            let y = after(x, EventView::Answered(Ok((401, headers))));
            let z = after(y.0, EventView::Token(printed));
            let w = after(z.0, EventView::Renewed(Some(cookie)));
            &&& y.1 == ActionView::ReadToken
            &&& awaited(y.0.phase, EventView::Token(printed))
            &&& (printed matches Some(t) && t.len() > 0) ==> z.1 == ActionView::Handshake(
                printed->0,
            )
            &&& (printed is None || printed->0.len() == 0) && x.launch_token.len() > 0 ==> z.1
                == ActionView::Handshake(x.launch_token)
            &&& z.1 is Handshake ==> {
                &&& awaited(z.0.phase, EventView::Renewed(Some(cookie)))
                &&& z.0.token == z.1->Handshake_0
                &&& w.1 is Forward
                &&& w.0.phase == Phase::Retry
            }
        }),
{
}

/// A further try that comes to nothing is followed by another, after a pause of
/// 200 milliseconds, with a handshake for the same launch token; but there are no
/// more than two.
pub proof fn law_a_further_try_follows(
    x: ExchangeView,
    headers: Seq<(Seq<char>, Seq<u8>)>,
    cookie: Seq<char>,
)
    requires
        sound(x),
        x.phase == Phase::Retry || x.phase == Phase::Renewing,
    ensures
        ({
            let e = if x.phase == Phase::Retry {
                EventView::Answered(Ok((401, headers)))
            } else {
                EventView::Renewed(None)
            };
            let y = after(x, e);
            let z = after(y.0, EventView::Paused);
            &&& x.attempt == 1 ==> {
                &&& y.1 == ActionView::Pause(200)
                &&& awaited(y.0.phase, EventView::Paused)
                &&& z.1 == ActionView::Handshake(x.token)
                &&& awaited(z.0.phase, EventView::Renewed(Some(cookie)))
                &&& z.0.attempt == 2
                &&& after(z.0, EventView::Renewed(Some(cookie))).1 is Forward
            }
            &&& x.attempt != 1 ==> y.1 is Reply
        }),
{
}

/// A request that is no page visit learns word for word what went wrong.
pub proof fn law_failures_are_told(x: ExchangeView, e: EventView, error: Seq<char>)
    requires
        sound(x),
        awaited(x.phase, e),
        !x.html_nav,
    ensures
        e == EventView::Cookie(Seq::empty()) ==> after(x, e).1 == ActionView::Reply(
            plain_text(502, "harness auth cookie unavailable"@),
        ),
        e == EventView::Answered(Err(error)) ==> after(x, e).1 == ActionView::Reply(
            plain_text(502, "upstream error: "@ + error),
        ),
        e == EventView::Body(Err(error)) ==> after(x, e).1 == ActionView::Reply(
            plain_text(502, "read upstream body failed: "@ + error),
        ),
        (e == EventView::Token(None) || e == EventView::Token(Some(Seq::empty())))
            && x.launch_token.len() == 0 ==> after(x, e).1 == ActionView::Reply(
            plain_text(401, "harness auth required"@),
        ),
        x.attempt == 2 && x.phase == Phase::Renewing && e == EventView::Renewed(None) ==> after(
            x,
            e,
        ).1 == ActionView::Reply(plain_text(401, "harness auth required after retries"@)),
        x.attempt == 2 && x.phase == Phase::Retry && (e matches EventView::Answered(Ok(a)) && a.0
            == 401) ==> after(x, e).1 == ActionView::Reply(
            plain_text(401, "harness auth required after retries"@),
        ),
{
}

/// One who goes to the root page gets the page that tries again by itself, for the
/// target that was asked for, with what is waited for.
pub proof fn law_a_page_visit_is_told_to_wait(x: ExchangeView, e: EventView, error: Seq<char>)
    requires
        sound(x),
        awaited(x.phase, e),
        x.html_nav,
    ensures
        e == EventView::Cookie(Seq::empty()) ==> after(x, e).1 == ActionView::Reply(
            boot_page(x.uri, "等待上游鉴权会话就绪…"@),
        ),
        x.phase == Phase::First && e == EventView::Answered(Err(error)) ==> after(x, e).1
            == ActionView::Reply(boot_page(x.uri, "上游 harness 尚未就绪…"@)),
        x.phase == Phase::First && (e matches EventView::Answered(Ok(a)) && a.0 != 401 && !(200
            <= a.0 < 300)) ==> after(x, e).1 == ActionView::Reply(
            boot_page(
                x.uri,
                "上游返回 "@ + decimal(e->Answered_0->Ok_0.0 as nat) + "…"@,
            ),
        ),
        after(x, e).1 is Reply && x.phase != Phase::Waiting && x.phase != Phase::First && x.phase
            != Phase::FirstBody && !(x.phase == Phase::RetryBody && e->Body_0 is Ok && 200
            <= x.status < 300) ==> after(x, e).1 == ActionView::Reply(
            boot_page(x.uri, "上游鉴权尚未就绪…"@),
        ),
{
}

} // verus!
