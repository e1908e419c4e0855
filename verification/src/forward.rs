//! Requests to the agent.

use vstd::prelude::*;
use vstd::string::*;
use vstd::utf8::encode_utf8;

use crate::auth::{law_stripped_has_no_token, query_value, strip_proxy_token, stripped};
use crate::http::{
    copy_header, field, field_text, fields, get_header_text, query_or_empty, same_name,
    target_or_root, text_header, Header, RequestUri,
};
use crate::text::{
    contains, decimal, decimal_text, lower_text, same_ignoring_case, same_text, text_contains,
};

verus! {

/// Whether a request asks for a page: a browser that goes to a page accepts
/// HTML, a script that fetches data does not.
pub open spec fn accepts_html(headers: Seq<(Seq<char>, Seq<u8>)>) -> bool {
    match field_text(headers, "accept"@) {
        Some(a) => contains(a, "text/html"@),
        None => false,
    }
}

/// Whether a request asks for a page.
pub fn wants_html(headers: &Vec<Header>) -> (r: bool)
    ensures
        r == accepts_html(fields(headers@)),
{
    match get_header_text(headers, "accept") {
        Some(a) => text_contains(a.as_str(), "text/html"),
        None => false,
    }
}

/// A request to the agent, but for its body.
#[derive(Clone, Debug)]
pub struct UpstreamRequest {
    pub method: String,
    pub url: String,
    pub headers: Vec<Header>,
}

/// What a request to the agent says.
pub struct UpstreamView {
    pub method: Seq<char>,
    pub url: Seq<char>,
    pub headers: Seq<(Seq<char>, Seq<u8>)>,
}

impl View for UpstreamRequest {
    type V = UpstreamView;

    open spec fn view(&self) -> UpstreamView {
        UpstreamView { method: self.method@, url: self.url@, headers: fields(self.headers@) }
    }
}

/// Whether a method is passed on under its own name.
pub open spec fn known_method(m: Seq<char>) -> bool {
    ||| m == "GET"@
    ||| m == "POST"@
    ||| m == "PUT"@
    ||| m == "DELETE"@
    ||| m == "PATCH"@
    ||| m == "HEAD"@
    ||| m == "OPTIONS"@
}

/// The method that the agent is asked with.
pub open spec fn upstream_method(m: Seq<char>) -> Seq<char> {
    if known_method(m) {
        m
    } else {
        "GET"@
    }
}

/// An address at the agent.
pub open spec fn agent_url(scheme: Seq<char>, port: u16, target: Seq<char>) -> Seq<char> {
    scheme + "://127.0.0.1:"@ + decimal(port as nat) + target
}

/// The headers that belong to the way to the proxy and not to the way to the
/// agent.
pub open spec fn is_proxy_header(name: Seq<char>) -> bool {
    ||| same_name(name, "host"@)
    ||| same_name(name, "cookie"@)
    ||| same_name(name, "origin"@)
}

/// The headers that the agent gets: those of the request but for the proxy's
/// own, and the cookie of the session.
pub open spec fn upstream_headers(
    headers: Seq<(Seq<char>, Seq<u8>)>,
    cookie: Seq<char>,
) -> Seq<(Seq<char>, Seq<u8>)> {
    headers.filter(|h: (Seq<char>, Seq<u8>)| !is_proxy_header(h.0)).push(
        field("cookie"@, cookie),
    )
}

/// The request that the agent gets. The proxy's own token is left out.
pub open spec fn forwarded(
    port: u16,
    method: Seq<char>,
    pq: Option<Seq<char>>,
    headers: Seq<(Seq<char>, Seq<u8>)>,
    cookie: Seq<char>,
) -> UpstreamView {
    UpstreamView {
        method: upstream_method(method),
        url: agent_url("http"@, port, stripped(target_or_root(pq))),
        headers: upstream_headers(headers, cookie),
    }
}

/// An address at the agent.
pub fn agent_address(scheme: &str, port: u16, target: &str) -> (r: String)
    ensures
        r@ == agent_url(scheme@, port, target@),
{
    let mut url = scheme.to_owned();
    url.append("://127.0.0.1:");
    let port_text = decimal_text(port as u64);
    url.append(port_text.as_str());
    url.append(target);
    url
}

/// The method that the agent is asked with.
fn pick_method(m: &str) -> (r: String)
    ensures
        r@ == upstream_method(m@),
{
    if same_text(m, "GET") || same_text(m, "POST") || same_text(m, "PUT") || same_text(
        m,
        "DELETE",
    ) || same_text(m, "PATCH") || same_text(m, "HEAD") || same_text(m, "OPTIONS") {
        m.to_owned()
    } else {
        "GET".to_owned()
    }
}

/// The headers that the agent gets.
fn pick_headers(headers: &Vec<Header>, cookie: &str) -> (r: Vec<Header>)
    ensures
        fields(r@) == upstream_headers(fields(headers@), cookie@),
{
    let mut out: Vec<Header> = Vec::new();
    let ghost keep = |h: (Seq<char>, Seq<u8>)| !is_proxy_header(h.0);
    for i in 0..headers.len()
        invariant
            keep == (|h: (Seq<char>, Seq<u8>)| !is_proxy_header(h.0)),
            fields(out@) == fields(headers@).take(i as int).filter(keep),
    {
        let ghost done = fields(out@);
        let ghost part = fields(headers@).take(i + 1);
        proof {
            assert(part.drop_last() =~= fields(headers@).take(i as int));
            assert(part.last() == headers@[i as int]@);
            reveal(Seq::filter);
        }
        let name = headers[i].name.as_str();
        if !(same_ignoring_case(name, "host") || same_ignoring_case(name, "cookie")
            || same_ignoring_case(name, "origin")) {
            out.push(copy_header(&headers[i]));
            assert(fields(out@) =~= done.push(headers@[i as int]@));
        }
    }
    assert(fields(headers@).take(headers.len() as int) =~= fields(headers@));
    let ghost done = fields(out@);
    out.push(text_header("cookie", cookie));
    assert(fields(out@) =~= done.push(field("cookie"@, cookie@)));
    out
}

/// The request that the agent gets for a request to the proxy, with the cookie
/// of the session.
pub fn forward_plan(
    port: u16,
    method: &str,
    uri: &RequestUri,
    headers: &Vec<Header>,
    cookie: &str,
) -> (r: UpstreamRequest)
    ensures
        r@ == forwarded(port, method@, uri@, fields(headers@), cookie@),
{
    let target = strip_proxy_token(uri.target().as_str());
    UpstreamRequest {
        method: pick_method(method),
        url: agent_address("http", port, target.as_str()),
        headers: pick_headers(headers, cookie),
    }
}

// ---------------------------------------------------------------------------
// Laws
// ---------------------------------------------------------------------------

/// The agent never gets the proxy's own token: what follows the port in the
/// address that it is asked under is a target that carries none.
pub proof fn law_no_request_carries_the_token(
    port: u16,
    method: Seq<char>,
    pq: Option<Seq<char>>,
    headers: Seq<(Seq<char>, Seq<u8>)>,
    cookie: Seq<char>,
)
    ensures
        ({
            let target = stripped(target_or_root(pq));
            &&& forwarded(port, method, pq, headers, cookie).url == agent_url(
                "http"@,
                port,
                target,
            )
            &&& query_value(query_or_empty(Some(target)), "t"@) is None
        }),
{
    law_stripped_has_no_token(target_or_root(pq));
}

/// The only cookie that the agent gets is that of the session, and it gets
/// neither the host nor the origin of the request to the proxy.
pub proof fn law_agent_gets_only_its_own_cookie(
    headers: Seq<(Seq<char>, Seq<u8>)>,
    cookie: Seq<char>,
)
    ensures
        upstream_headers(headers, cookie).last() == field("cookie"@, cookie),
        forall|i: int|
            0 <= i < upstream_headers(headers, cookie).len() - 1 ==> !is_proxy_header(
                (#[trigger] upstream_headers(headers, cookie)[i]).0,
            ),
{
    let keep = |h: (Seq<char>, Seq<u8>)| !is_proxy_header(h.0);
    let kept = headers.filter(keep);
    broadcast use vstd::seq_lib::group_filter_ensures;

    let out = upstream_headers(headers, cookie);
    assert forall|i: int| 0 <= i < out.len() - 1 implies !is_proxy_header(
        (#[trigger] out[i]).0,
    ) by {
        assert(keep(kept[i]));
    }
}

/// The agent gets the browser's own request: its method, where it is one of the
/// seven that are passed on; its target, at the agent's port and without the
/// proxy's token; all its headers in their order, but for those that belong to the
/// way to the proxy; and, last, the cookie of the session.
pub proof fn law_the_request_is_passed_on(
    port: u16,
    method: Seq<char>,
    pq: Option<Seq<char>>,
    headers: Seq<(Seq<char>, Seq<u8>)>,
    cookie: Seq<char>,
)
    ensures
        ({
            let sent = forwarded(port, method, pq, headers, cookie);
            let target = match pq {
                Some(s) => s,
                None => "/"@,
            };
            &&& method == "GET"@ || method == "POST"@ || method == "PUT"@ || method == "DELETE"@
                || method == "PATCH"@ || method == "HEAD"@ || method == "OPTIONS"@ ==> sent.method
                == method
            &&& sent.method == method || sent.method == "GET"@
            &&& sent.url == "http://127.0.0.1:"@ + decimal(port as nat) + stripped(target)
            &&& sent.headers == headers.filter(
                |h: (Seq<char>, Seq<u8>)|
                    lower_text(h.0) != "host"@ && lower_text(h.0) != "cookie"@ && lower_text(h.0)
                        != "origin"@,
            ).push(("cookie"@, encode_utf8(cookie)))
        }),
{
    lemma_proxy_headers();
    let keep = |h: (Seq<char>, Seq<u8>)|
        lower_text(h.0) != "host"@ && lower_text(h.0) != "cookie"@ && lower_text(h.0)
            != "origin"@;
    assert(keep =~= (|h: (Seq<char>, Seq<u8>)| !is_proxy_header(h.0)));
    reveal_strlit("http");
    reveal_strlit("://127.0.0.1:");
    reveal_strlit("http://127.0.0.1:");
    assert("http"@ + "://127.0.0.1:"@ =~= "http://127.0.0.1:"@);
}

/// The headers that belong to the way to the proxy, by their names in lower case.
proof fn lemma_proxy_headers()
    ensures
        forall|name: Seq<char>| #[trigger]
            is_proxy_header(name) <==> lower_text(name) == "host"@ || lower_text(name)
                == "cookie"@ || lower_text(name) == "origin"@,
{
    reveal_strlit("host");
    reveal_strlit("cookie");
    reveal_strlit("origin");
    assert(lower_text("host"@) =~= "host"@);
    assert(lower_text("cookie"@) =~= "cookie"@);
    assert(lower_text("origin"@) =~= "origin"@);
}

/// A request asks for a page if the text of its `accept` header names HTML, and
/// only then.
pub proof fn law_who_asks_for_a_page(
    headers: Seq<(Seq<char>, Seq<u8>)>,
    head: Seq<char>,
    tail: Seq<char>,
)
    ensures
        field_text(headers, "accept"@) == Some(head + "text/html"@ + tail) ==> accepts_html(
            headers,
        ),
        accepts_html(headers) ==> field_text(headers, "accept"@) is Some && contains(
            field_text(headers, "accept"@)->0,
            "text/html"@,
        ),
{
    crate::text::law_a_part_is_found(head, "text/html"@, tail);
}

} // verus!
