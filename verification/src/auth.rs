//! The session token: where a request carries it and when it is accepted.

use vstd::prelude::*;
use vstd::string::*;

use vstd::utf8::{encode_utf8, is_ascii_chars_encode_utf8};

use crate::http::{
    field, field_text, field_value, fields, get_header_text, has_header, is_visible, path_of,
    query_or_empty, visible_text, Header, RequestUri,
};
use crate::text::{
    after, before, chars_at, chars_of, free_of, join, join_texts, joined,
    law_the_pieces_make_the_text, lemma_span, lemma_span_is, lemma_span_of_free,
    lemma_span_of_joined, lemma_split_of_joined, lemma_split_pieces, occurs_at, opt_text, same_text,
    slice_text, span, split, split_text, text_after, text_before, text_has_char, texts, trim,
    trim_text,
};

verus! {

// ---------------------------------------------------------------------------
// Reading pairs
// ---------------------------------------------------------------------------

/// The value of the first of the pairs `key=value` whose key is `key`. A pair
/// without an equals sign has the empty value.
pub open spec fn pair_value(pairs: Seq<Seq<char>>, key: Seq<char>) -> Option<Seq<char>>
    decreases pairs.len(),
{
    if pairs.len() == 0 {
        None
    } else if before(pairs[0], '=') == key {
        Some(after(pairs[0], '='))
    } else {
        pair_value(pairs.drop_first(), key)
    }
}

/// The value of the first of the pairs whose key is `key`.
fn find_pair(pairs: &Vec<String>, key: &str) -> (r: Option<String>)
    ensures
        opt_text(r) == pair_value(texts(pairs@), key@),
{
    let mut i: usize = 0;
    assert(texts(pairs@).skip(0) =~= texts(pairs@));
    while i < pairs.len()
        invariant
            i <= pairs.len(),
            pair_value(texts(pairs@), key@) == pair_value(texts(pairs@).skip(i as int), key@),
        decreases pairs.len() - i,
    {
        let ghost rest = texts(pairs@).skip(i as int);
        assert(rest[0] == pairs@[i as int]@);
        let name = text_before(pairs[i].as_str(), '=');
        if same_text(name.as_str(), key) {
            return Some(text_after(pairs[i].as_str(), '='));
        }
        assert(rest.drop_first() =~= texts(pairs@).skip(i + 1));
        i = i + 1;
    }
    None
}

/// The value of `key` in a query string.
pub open spec fn query_value(query: Seq<char>, key: Seq<char>) -> Option<Seq<char>> {
    pair_value(split(query, '&'), key)
}

/// The value of `key` in a query string.
pub fn extract_query(query: &str, key: &str) -> (r: Option<String>)
    ensures
        opt_text(r) == query_value(query@, key@),
{
    let pairs = split_text(query, '&');
    find_pair(&pairs, key)
}

/// The value of the cookie `key` in the text of a `cookie` header.
pub open spec fn cookie_value(text: Seq<char>, key: Seq<char>) -> Option<Seq<char>> {
    pair_value(split(text, ';').map_values(|p: Seq<char>| trim(p)), key)
}

/// The value of the cookie `key` that a request carries.
pub open spec fn request_cookie(
    headers: Seq<(Seq<char>, Seq<u8>)>,
    key: Seq<char>,
) -> Option<Seq<char>> {
    match field_text(headers, "cookie"@) {
        Some(t) => cookie_value(t, key),
        None => None,
    }
}

/// The value of the cookie `key` that a request carries.
pub fn extract_cookie(headers: &Vec<Header>, key: &str) -> (r: Option<String>)
    ensures
        opt_text(r) == request_cookie(fields(headers@), key@),
{
    match get_header_text(headers, "cookie") {
        Some(t) => {
            let parts = split_text(t.as_str(), ';');
            let mut pairs: Vec<String> = Vec::new();
            for i in 0..parts.len()
                invariant
                    texts(pairs@) =~= texts(parts@).take(i as int).map_values(
                        |p: Seq<char>| trim(p),
                    ),
            {
                let ghost done = texts(pairs@);
                let p = trim_text(parts[i].as_str());
                pairs.push(p);
                assert(texts(pairs@) =~= done.push(p@));
            }
            assert(texts(parts@).take(parts.len() as int) =~= texts(parts@));
            find_pair(&pairs, key)
        },
        None => None,
    }
}

// ---------------------------------------------------------------------------
// The token
// ---------------------------------------------------------------------------

/// The token that a request presents: that of its cookie `dsh_token`, or, where
/// it has no such cookie, that of its query parameter `t`.
pub open spec fn presented_token(
    uri: Option<Seq<char>>,
    headers: Seq<(Seq<char>, Seq<u8>)>,
) -> Option<Seq<char>> {
    match request_cookie(headers, "dsh_token"@) {
        Some(t) => Some(t),
        None => query_value(query_or_empty(uri), "t"@),
    }
}

/// Whether a request presents the session token.
pub fn valid_token(token: &str, uri: &RequestUri, headers: &Vec<Header>) -> (r: bool)
    ensures
        r == (presented_token(uri@, fields(headers@)) == Some(token@)),
{
    let provided = match extract_cookie(headers, "dsh_token") {
        Some(t) => Some(t),
        None => extract_query(uri.query().as_str(), "t"),
    };
    match provided {
        Some(t) => same_text(t.as_str(), token),
        None => false,
    }
}

/// Whether a request brings the token in its query for the first time, so that
/// a cookie is to be set.
pub open spec fn first_visit(
    uri: Option<Seq<char>>,
    headers: Seq<(Seq<char>, Seq<u8>)>,
) -> bool {
    &&& query_value(query_or_empty(uri), "t"@) is Some
    &&& request_cookie(headers, "dsh_token"@) is None
}

/// The cookie that keeps the token for later requests.
pub open spec fn session_cookie(token: Seq<char>) -> Seq<char> {
    "dsh_token="@ + token + "; HttpOnly; Path=/; Max-Age=86400; SameSite=Strict"@
}

/// The cookie to set on the reply to a request, if one is to be set.
pub fn cookie_to_set(token: &str, uri: &RequestUri, headers: &Vec<Header>) -> (r: Option<String>)
    ensures
        opt_text(r) == if first_visit(uri@, fields(headers@)) {
            Some(session_cookie(token@))
        } else {
            None
        },
{
    let in_query = extract_query(uri.query().as_str(), "t").is_some();
    let in_cookie = extract_cookie(headers, "dsh_token").is_some();
    if in_query && !in_cookie {
        let mut out = joined("dsh_token=", token);
        out.append("; HttpOnly; Path=/; Max-Age=86400; SameSite=Strict");
        Some(out)
    } else {
        None
    }
}

// ---------------------------------------------------------------------------
// Origins
// ---------------------------------------------------------------------------

/// The host of an `http` origin: what stands behind the scheme and behind a user
/// part, up to a port, a path, a query or a fragment.
pub open spec fn origin_host(o: Seq<char>) -> Seq<char> {
    let authority = before(before(before(o.skip("http://"@.len() as int), '/'), '?'), '#');
    before(split(authority, '@').last(), ':')
}

/// Whether an origin is one of this machine: it begins with the scheme and one of
/// this machine's names, and its host is such a name too, whatever its port.
pub open spec fn is_loopback_origin(o: Seq<char>) -> bool {
    &&& occurs_at(o, "http://127.0.0.1"@, 0) || occurs_at(o, "http://localhost"@, 0)
    &&& origin_host(o) == "127.0.0.1"@ || origin_host(o) == "localhost"@
}

/// Whether a request may come from where its `origin` header says, if it has
/// one: from a page of this machine, or from one without an origin of its own.
pub open spec fn origin_allowed(headers: Seq<(Seq<char>, Seq<u8>)>) -> bool {
    match field_value(headers, "origin"@) {
        Some(v) => match visible_text(v) {
            Some(o) => o.len() == 0 || o == "null"@ || is_loopback_origin(o),
            None => false,
        },
        None => true,
    }
}

/// Whether an origin is one of this machine.
fn loopback_origin(o: &str) -> (r: bool)
    ensures
        r == is_loopback_origin(o@),
{
    proof {
        reveal_strlit("http://");
        reveal_strlit("http://127.0.0.1");
        reveal_strlit("http://localhost");
    }
    let cs = chars_of(o);
    if !chars_at(&cs, &chars_of("http://127.0.0.1"), 0) && !chars_at(
        &cs,
        &chars_of("http://localhost"),
        0,
    ) {
        return false;
    }
    let rest = slice_text(o, 7, cs.len());
    assert(rest@ =~= o@.skip("http://"@.len() as int));
    let no_path = text_before(rest.as_str(), '/');
    let no_query = text_before(no_path.as_str(), '?');
    let authority = text_before(no_query.as_str(), '#');
    let parts = split_text(authority.as_str(), '@');
    let last: usize = parts.len() - 1;
    assert(texts(parts@).last() == parts@[last as int]@);
    let host = text_before(parts[last].as_str(), ':');
    same_text(host.as_str(), "127.0.0.1") || same_text(host.as_str(), "localhost")
}

/// Whether a request may come from where its `origin` header says.
pub fn allowed_origin(headers: &Vec<Header>) -> (r: bool)
    ensures
        r == origin_allowed(fields(headers@)),
{
    match get_header_text(headers, "origin") {
        Some(o) => {
            o.as_str().is_empty() || same_text(o.as_str(), "null") || loopback_origin(o.as_str())
        },
        None => !has_header(headers, "origin"),
    }
}

// ---------------------------------------------------------------------------
// Keeping the token from the agent
// ---------------------------------------------------------------------------

/// The pairs of a query whose key is not `t`, in order.
pub open spec fn without_token(pairs: Seq<Seq<char>>) -> Seq<Seq<char>> {
    pairs.filter(|p: Seq<char>| before(p, '=') != "t"@)
}

/// A path and query without the token's parameter.
pub open spec fn stripped(pq: Seq<char>) -> Seq<char> {
    if pq.contains('?') {
        let kept = without_token(split(after(pq, '?'), '&'));
        if kept.len() == 0 {
            before(pq, '?')
        } else {
            before(pq, '?') + "?"@ + join(kept, "&"@)
        }
    } else {
        pq
    }
}

/// A path and query without the token's parameter, which the agent neither
/// needs nor is to see.
pub fn strip_proxy_token(pq: &str) -> (r: String)
    ensures
        r@ == stripped(pq@),
{
    if !text_has_char(pq, '?') {
        return pq.to_owned();
    }
    let path = text_before(pq, '?');
    let query = text_after(pq, '?');
    let pairs = split_text(query.as_str(), '&');
    let mut kept: Vec<String> = Vec::new();
    let ghost keep = |p: Seq<char>| before(p, '=') != "t"@;
    for i in 0..pairs.len()
        invariant
            keep == (|p: Seq<char>| before(p, '=') != "t"@),
            texts(kept@) == texts(pairs@).take(i as int).filter(keep),
    {
        let ghost done = texts(kept@);
        let ghost part = texts(pairs@).take(i + 1);
        proof {
            assert(part.drop_last() =~= texts(pairs@).take(i as int));
            assert(part.last() == pairs@[i as int]@);
            reveal(Seq::filter);
        }
        let name = text_before(pairs[i].as_str(), '=');
        if !same_text(name.as_str(), "t") {
            kept.push(pairs[i].clone());
            assert(texts(kept@) =~= done.push(pairs@[i as int]@));
        }
    }
    assert(texts(pairs@).take(pairs.len() as int) =~= texts(pairs@));
    if kept.len() == 0 {
        path
    } else {
        let mut out = joined(path.as_str(), "?");
        out.append(join_texts(&kept, "&").as_str());
        out
    }
}

// ---------------------------------------------------------------------------
// Laws
// ---------------------------------------------------------------------------

/// Pairs without the token's hold no token, and the other keys' values are as
/// before.
proof fn lemma_without_token(pairs: Seq<Seq<char>>, key: Seq<char>)
    ensures
        pair_value(without_token(pairs), "t"@) is None,
        key != "t"@ ==> pair_value(without_token(pairs), key) == pair_value(pairs, key),
        without_token(without_token(pairs)) == without_token(pairs),
        free_of(pairs, '&') ==> free_of(without_token(pairs), '&'),
    decreases pairs.len(),
{
    reveal(Seq::filter);
    if pairs.len() > 0 {
        let rest = pairs.drop_first();
        let keep = |p: Seq<char>| before(p, '=') != "t"@;
        assert(pairs =~= seq![pairs[0]] + rest);
        Seq::filter_distributes_over_add(seq![pairs[0]], rest, keep);
        assert(seq![pairs[0]].drop_last() =~= Seq::<Seq<char>>::empty());
        let first = seq![pairs[0]].filter(keep);
        assert(first =~= if keep(pairs[0]) {
            seq![pairs[0]]
        } else {
            Seq::empty()
        }) by {
            assert(Seq::<Seq<char>>::empty().filter(keep) =~= Seq::<Seq<char>>::empty());
        }
        lemma_without_token(rest, key);
        let kept = without_token(pairs);
        if keep(pairs[0]) {
            assert(kept =~= seq![pairs[0]] + without_token(rest));
            assert(kept.drop_first() =~= without_token(rest));
            Seq::filter_distributes_over_add(seq![pairs[0]], without_token(rest), keep);
        } else {
            assert(kept =~= without_token(rest));
        }
        if free_of(pairs, '&') {
            assert forall|i: int| 0 <= i < rest.len() implies !(#[trigger] rest[i]).contains(
                '&',
            ) by {
                assert(rest[i] == pairs[i + 1]);
            }
            assert(!pairs[0].contains('&'));
        }
    }
}

/// The query of a stripped target is that of the target without the token's
/// pairs; its path is the same.
proof fn lemma_stripped(pq: Seq<char>)
    ensures
        before(stripped(pq), '?') == before(pq, '?'),
        ({
            let kept = without_token(split(after(pq, '?'), '&'));
            if pq.contains('?') && kept.len() > 0 {
                &&& stripped(pq).contains('?')
                &&& split(after(stripped(pq), '?'), '&') == kept
            } else {
                !stripped(pq).contains('?')
            }
        }),
{
    reveal_strlit("?");
    reveal_strlit("&");
    assert("?"@ =~= seq!['?']);
    assert("&"@ =~= seq!['&']);
    if pq.contains('?') {
        lemma_span(pq, '?');
        let path = before(pq, '?');
        assert(!path.contains('?')) by {
            if path.contains('?') {
                let k = choose|k: int| 0 <= k < path.len() && path[k] == '?';
                assert(pq[k] == '?');
            }
        }
        let pairs = split(after(pq, '?'), '&');
        let kept = without_token(pairs);
        lemma_split_pieces(after(pq, '?'), '&');
        lemma_without_token(pairs, Seq::empty());
        if kept.len() > 0 {
            lemma_split_of_joined(kept, '&');
            lemma_span_of_joined(path, '?', join(kept, "&"@));
        } else {
            lemma_span_of_free(path, '?');
        }
    }
}

/// A stripped target carries no token, whatever it was before.
pub proof fn law_stripped_has_no_token(pq: Seq<char>)
    ensures
        query_value(query_or_empty(Some(stripped(pq))), "t"@) is None,
{
    let pairs = split(after(pq, '?'), '&');
    lemma_stripped(pq);
    lemma_without_token(pairs, Seq::empty());
    if !stripped(pq).contains('?') {
        reveal_strlit("t");
        lemma_empty_query("t"@);
    }
}

/// The empty query has no value for a key that is not empty.
proof fn lemma_empty_query(key: Seq<char>)
    requires
        key != Seq::<char>::empty(),
    ensures
        query_value(Seq::empty(), key) is None,
{
    let e = Seq::<char>::empty();
    lemma_span_of_free(e, '=');
    assert(split(e, '&') =~= seq![e]);
    assert(seq![e].drop_first() =~= Seq::<Seq<char>>::empty());
    reveal_with_fuel(pair_value, 2);
}

/// Stripping leaves the path, and the value of every other parameter that has
/// a name, as they were.
pub proof fn law_stripping_keeps_the_rest(pq: Seq<char>, key: Seq<char>)
    requires
        key != "t"@,
        key.len() > 0,
    ensures
        path_of(Some(stripped(pq))) == path_of(Some(pq)),
        query_value(query_or_empty(Some(stripped(pq))), key) == query_value(
            query_or_empty(Some(pq)),
            key,
        ),
{
    let pairs = split(after(pq, '?'), '&');
    lemma_stripped(pq);
    lemma_without_token(pairs, key);
    lemma_empty_query(key);
    if pq.contains('?') && without_token(pairs).len() == 0 {
        assert(pair_value(without_token(pairs), key) is None);
    }
}

/// Stripping twice is stripping once.
pub proof fn law_stripping_is_idempotent(pq: Seq<char>)
    ensures
        stripped(stripped(pq)) == stripped(pq),
{
    let pairs = split(after(pq, '?'), '&');
    lemma_stripped(pq);
    lemma_without_token(pairs, Seq::empty());
}

/// Whether a character ends a host.
pub open spec fn ends_host(c: char) -> bool {
    c == ':' || c == '/' || c == '?' || c == '#'
}

/// Behind a text without `c`, the text before the first `c` goes on as it does
/// alone.
proof fn lemma_before_of_joined(head: Seq<char>, c: char, tail: Seq<char>)
    requires
        !head.contains(c),
    ensures
        before(head + tail, c) == head + before(tail, c),
        before(tail, c).len() == 0 <==> tail.len() == 0 || tail[0] == c,
        before(tail, c).len() > 0 ==> before(tail, c)[0] == tail[0],
        forall|d: char| before(tail, c).contains(d) ==> tail.contains(d),
{
    let s = head + tail;
    let n = head.len() + span(tail, c);
    lemma_span(tail, c);
    assert forall|k: int| 0 <= k < n implies s[k] != c by {
        if k < head.len() {
            assert(head.contains(head[k]));
        } else {
            assert(s[k] == tail[k - head.len()]);
        }
    }
    if n < s.len() {
        assert(s[n] == tail[span(tail, c)]);
    }
    lemma_span_is(s, c, n);
    assert(before(s, c) =~= head + before(tail, c));
    assert forall|d: char| before(tail, c).contains(d) implies tail.contains(d) by {
        let k = choose|k: int| 0 <= k < before(tail, c).len() && before(tail, c)[k] == d;
        assert(tail[k] == d);
    }
}

/// The host of an origin that begins with a name: it is that name alone, unless
/// more of a name follows.
proof fn lemma_host_behind(name: Seq<char>, behind: Seq<char>)
    requires
        forall|k: int| 0 <= k < name.len() ==> !ends_host(#[trigger] name[k]) && name[k] != '@',
        !behind.contains('@'),
    ensures
        origin_host("http://"@ + name + behind).len() >= name.len(),
        origin_host("http://"@ + name + behind).take(name.len() as int) == name,
        origin_host("http://"@ + name + behind) == name <==> behind.len() == 0 || ends_host(
            behind[0],
        ),
{
    let o = "http://"@ + name + behind;
    assert(o.skip("http://"@.len() as int) =~= name + behind);
    assert(!name.contains('/') && !name.contains('?') && !name.contains('#') && !name.contains(
        '@',
    ) && !name.contains(':'));
    lemma_before_of_joined(name, '/', behind);
    let a = before(behind, '/');
    lemma_before_of_joined(name, '?', a);
    let b = before(a, '?');
    lemma_before_of_joined(name, '#', b);
    let c = before(b, '#');
    assert(!(name + c).contains('@')) by {
        if (name + c).contains('@') {
            let k = choose|k: int| 0 <= k < (name + c).len() && (name + c)[k] == '@';
            assert(k >= name.len());
            assert(c[k - name.len()] == '@');
            assert(c.contains('@'));
        }
    }
    lemma_before_of_joined(name, ':', c);
    let host = name + before(c, ':');
    assert(origin_host(o) == host);
    assert(host.take(name.len() as int) =~= name);
    if before(c, ':').len() == 0 {
        assert(host =~= name);
    }
}

/// Only the host decides. Behind a name of this machine may stand a port, a path,
/// a query or a fragment, whatever they hold; a name that only begins like this
/// machine's is that of another one and refused.
pub proof fn law_only_the_host_of_an_origin_decides(behind: Seq<char>)
    requires
        !behind.contains('@'),
    ensures
        is_loopback_origin("http://127.0.0.1"@ + behind) <==> behind.len() == 0 || ends_host(
            behind[0],
        ),
        is_loopback_origin("http://localhost"@ + behind) <==> behind.len() == 0 || ends_host(
            behind[0],
        ),
{
    reveal_strlit("http://");
    reveal_strlit("127.0.0.1");
    reveal_strlit("localhost");
    reveal_strlit("http://127.0.0.1");
    reveal_strlit("http://localhost");
    let a = "http://127.0.0.1"@ + behind;
    let b = "http://localhost"@ + behind;
    assert("http://127.0.0.1"@ =~= "http://"@ + "127.0.0.1"@);
    assert("http://localhost"@ =~= "http://"@ + "localhost"@);
    assert(a.subrange(0, 16) =~= "http://127.0.0.1"@);
    assert(b.subrange(0, 16) =~= "http://localhost"@);
    lemma_host_behind("127.0.0.1"@, behind);
    lemma_host_behind("localhost"@, behind);
    assert(origin_host(a).take(9)[0] == '1');
    assert(origin_host(b).take(9)[0] == 'l');
}

/// A user part does not make an origin one of this machine: what stands behind it
/// is the host.
pub proof fn law_a_user_part_is_not_the_host(user: Seq<char>, host: Seq<char>)
    requires
        forall|k: int| 0 <= k < user.len() ==> #[trigger] user[k] != '/' && user[k] != '?'
            && user[k] != '#' && user[k] != '@',
        forall|k: int| 0 <= k < host.len() ==> !ends_host(#[trigger] host[k]) && host[k] != '@',
        host != "127.0.0.1"@,
        host != "localhost"@,
    ensures
        !is_loopback_origin("http://"@ + user + "@"@ + host),
{
    reveal_strlit("@");
    let o = "http://"@ + user + "@"@ + host;
    let rest = user + "@"@ + host;
    assert(o.skip("http://"@.len() as int) =~= rest);
    assert forall|k: int| 0 <= k < rest.len() implies #[trigger] rest[k] != '/' && rest[k] != '?'
        && rest[k] != '#' by {
        if k > user.len() {
            assert(rest[k] == host[k - user.len() - 1]);
        } else if k < user.len() {
            assert(rest[k] == user[k]);
        }
    }
    lemma_span_of_free(rest, '/');
    lemma_span_of_free(rest, '?');
    lemma_span_of_free(rest, '#');
    assert(rest[user.len() as int] == '@');
    lemma_span_is(rest, '@', user.len() as int);
    lemma_span(rest, '@');
    assert(after(rest, '@') =~= host);
    lemma_span_of_free(host, ':');
    assert(split(host, '@') == seq![host]);
    assert(split(rest, '@') == seq![before(rest, '@')] + seq![host]);
    assert(split(rest, '@').last() == host);
}

/// Whether a text is made of the characters of a session token: ASCII letters
/// and digits, hyphen, underscore and the padding sign.
pub open spec fn token_text(t: Seq<char>) -> bool {
    forall|i: int| 0 <= i < t.len() ==> token_char(#[trigger] t[i])
}

/// A character of a session token.
pub open spec fn token_char(c: char) -> bool {
    'A' <= c <= 'Z' || 'a' <= c <= 'z' || '0' <= c <= '9' || c == '-' || c == '_' || c == '='
}

/// The address handed to the window presents the token: a request for
/// `/?t=<token>` without cookies is accepted.
pub proof fn law_first_address_is_accepted(token: Seq<char>)
    requires
        token_text(token),
    ensures
        presented_token(Some("/?t="@ + token), Seq::empty()) == Some(token),
        first_visit(Some("/?t="@ + token), Seq::empty()),
{
    reveal_strlit("/?t=");
    reveal_strlit("t");
    let pq = "/?t="@ + token;
    let query = "t"@ + seq!['='] + token;
    assert(pq =~= seq!['/'] + seq!['?'] + query);
    assert(!seq!['/'].contains('?'));
    lemma_span_of_joined(seq!['/'], '?', query);
    assert(!query.contains('&')) by {
        if query.contains('&') {
            let k = choose|k: int| 0 <= k < query.len() && query[k] == '&';
            if k >= 2 {
                assert(token_char(token[k - 2]));
            }
        }
    }
    assert(!"t"@.contains('='));
    lemma_span_of_joined("t"@, '=', token);
    assert(split(query, '&') =~= seq![query]);
}

/// The cookie that the first reply sets is accepted from then on: a request
/// that sends back its name and value presents the token, whatever its target.
pub proof fn law_session_cookie_is_accepted(token: Seq<char>, uri: Option<Seq<char>>)
    requires
        token_text(token),
    ensures
        before(session_cookie(token), ';') == "dsh_token="@ + token,
        presented_token(uri, seq![field("cookie"@, "dsh_token="@ + token)]) == Some(token),
        !first_visit(uri, seq![field("cookie"@, "dsh_token="@ + token)]),
{
    let name = "dsh_token"@;
    let pair = "dsh_token="@ + token;
    reveal_strlit("dsh_token");
    reveal_strlit("dsh_token=");
    reveal_strlit("; HttpOnly; Path=/; Max-Age=86400; SameSite=Strict");
    assert(pair =~= name + seq!['='] + token);
    assert forall|i: int| 0 <= i < pair.len() implies 32 < (#[trigger] pair[i]) as u32 && (
    pair[i] as u32) < 127 && pair[i] != ';' by {
        if i >= 10 {
            assert(token_char(token[i - 10]));
        }
    }
    // The name and value end at the first semicolon of what is set.
    let tail = "; HttpOnly; Path=/; Max-Age=86400; SameSite=Strict"@;
    assert(tail[0] == ';');
    assert(session_cookie(token) =~= pair + seq![';'] + tail.drop_first());
    assert(!pair.contains(';'));
    lemma_span_of_joined(pair, ';', tail.drop_first());
    // Sent back, they are visible text.
    is_ascii_chars_encode_utf8(pair);
    let value = encode_utf8(pair);
    assert(value.map_values(|b: u8| b as char) =~= pair);
    assert forall|i: int| 0 <= i < value.len() implies is_visible(#[trigger] value[i]) by {
        assert(value[i] == pair[i] as u8);
    }
    assert(visible_text(value) == Some(pair));
    let headers = seq![field("cookie"@, pair)];
    assert(field_text(headers, "cookie"@) == Some(pair));
    // They are one pair, with nothing to trim.
    assert(split(pair, ';') =~= seq![pair]);
    assert(trim(pair) == pair);
    assert(seq![pair].map_values(|p: Seq<char>| trim(p)) =~= seq![pair]);
    assert(!name.contains('='));
    lemma_span_of_joined(name, '=', token);
}

/// Of pairs that name the same, the first counts: its value is all that stands
/// behind its first equals sign, and none if it has none. Pairs of another name
/// never count.
pub proof fn law_the_first_pair_of_a_name_counts(
    ahead: Seq<Seq<char>>,
    key: Seq<char>,
    value: Seq<char>,
    behind: Seq<Seq<char>>,
    other: Seq<char>,
)
    requires
        !key.contains('='),
        forall|i: int| 0 <= i < ahead.len() ==> before(#[trigger] ahead[i], '=') != key,
        before(other, '=') != key,
    ensures
        pair_value(ahead, key) is None,
        pair_value(ahead + seq![key + seq!['='] + value] + behind, key) == Some(value),
        pair_value(ahead + seq![key] + behind, key) == Some(Seq::<char>::empty()),
        pair_value(ahead + seq![other] + behind, key) == pair_value(ahead + behind, key),
    decreases ahead.len(),
{
    lemma_span_of_joined(key, '=', value);
    lemma_span_of_free(key, '=');
    let full = key + seq!['='] + value;
    let a = ahead + seq![full] + behind;
    let b = ahead + seq![key] + behind;
    let c = ahead + seq![other] + behind;
    let d = ahead + behind;
    if ahead.len() > 0 {
        let rest = ahead.drop_first();
        assert forall|i: int| 0 <= i < rest.len() implies before(#[trigger] rest[i], '=')
            != key by {
            assert(rest[i] == ahead[i + 1]);
        }
        law_the_first_pair_of_a_name_counts(rest, key, value, behind, other);
        assert(a[0] == ahead[0] && b[0] == ahead[0] && c[0] == ahead[0] && d[0] == ahead[0]);
        assert(a.drop_first() =~= rest + seq![full] + behind);
        assert(b.drop_first() =~= rest + seq![key] + behind);
        assert(c.drop_first() =~= rest + seq![other] + behind);
        assert(d.drop_first() =~= rest + behind);
    } else {
        assert(a[0] == full && b[0] == key && c[0] == other);
        assert(c.drop_first() =~= behind);
        assert(d =~= behind);
    }
}

/// The pairs of a query stand between ampersands, those of a `cookie` header
/// between semicolons, and there white space around them does not count.
pub proof fn law_pairs_are_read_apart(pairs: Seq<Seq<char>>, key: Seq<char>)
    requires
        pairs.len() >= 1,
    ensures
        (forall|i: int| 0 <= i < pairs.len() ==> !(#[trigger] pairs[i]).contains('&'))
            ==> query_value(join(pairs, seq!['&']), key) == pair_value(pairs, key),
        (forall|i: int| 0 <= i < pairs.len() ==> !(#[trigger] pairs[i]).contains(';'))
            ==> cookie_value(join(pairs, seq![';']), key) == pair_value(
            pairs.map_values(|p: Seq<char>| trim(p)),
            key,
        ),
{
    if forall|i: int| 0 <= i < pairs.len() ==> !(#[trigger] pairs[i]).contains('&') {
        lemma_split_of_joined(pairs, '&');
    }
    if forall|i: int| 0 <= i < pairs.len() ==> !(#[trigger] pairs[i]).contains(';') {
        lemma_split_of_joined(pairs, ';');
    }
}

/// A request presents the token of its cookie `dsh_token` where it has one, else
/// that of the parameter `t` of its query; no other cookie and no other parameter
/// counts.
pub proof fn law_where_the_token_is_looked_for(
    path: Seq<char>,
    query: Seq<char>,
    headers: Seq<(Seq<char>, Seq<u8>)>,
    cookies: Seq<char>,
)
    requires
        !path.contains('?'),
    ensures
        field_value(headers, "cookie"@) is None ==> presented_token(
            Some(path + seq!['?'] + query),
            headers,
        ) == query_value(query, "t"@) && presented_token(Some(path), headers) is None,
        field_text(headers, "cookie"@) == Some(cookies) && cookie_value(cookies, "dsh_token"@)
            is Some ==> presented_token(Some(path + seq!['?'] + query), headers) == cookie_value(
            cookies,
            "dsh_token"@,
        ),
        field_text(headers, "cookie"@) == Some(cookies) && cookie_value(cookies, "dsh_token"@)
            is None ==> presented_token(Some(path + seq!['?'] + query), headers) == query_value(
            query,
            "t"@,
        ),
        first_visit(Some(path + seq!['?'] + query), headers) <==> query_value(query, "t"@) is Some
            && (field_text(headers, "cookie"@) is None || cookie_value(
            field_text(headers, "cookie"@)->0,
            "dsh_token"@,
        ) is None),
{
    lemma_span_of_joined(path, '?', query);
    lemma_span_of_free(path, '?');
    reveal_strlit("t");
    lemma_empty_query("t"@);
}

/// Where a request says nothing of its origin it is let in; what it says has to
/// be readable, and to be nothing, `null` or an origin of this machine.
pub proof fn law_which_origins_are_let_in(headers: Seq<(Seq<char>, Seq<u8>)>, origin: Seq<char>)
    ensures
        field_value(headers, "origin"@) is None ==> origin_allowed(headers),
        field_value(headers, "origin"@) is Some && field_text(headers, "origin"@) is None
            ==> !origin_allowed(headers),
        field_text(headers, "origin"@) == Some(origin) ==> (origin_allowed(headers) <==> origin
            == Seq::<char>::empty() || origin == "null"@ || is_loopback_origin(origin)),
        is_loopback_origin(origin) ==> occurs_at(origin, "http://127.0.0.1"@, 0) || occurs_at(
            origin,
            "http://localhost"@,
            0,
        ),
{
    if origin.len() == 0 {
        assert(origin =~= Seq::<char>::empty());
    }
}

/// The cookie for later requests is the token under the name that is looked for,
/// and keeps scripts and foreign pages from it.
pub proof fn law_the_session_cookie_is_guarded(token: Seq<char>)
    ensures
        session_cookie(token).take((10 + token.len()) as int) == "dsh_token="@ + token,
        split(session_cookie(token).skip((10 + token.len()) as int), ';') == seq![
            Seq::<char>::empty(),
            " HttpOnly"@,
            " Path=/"@,
            " Max-Age=86400"@,
            " SameSite=Strict"@,
        ],
{
    reveal_strlit("dsh_token=");
    reveal_strlit(" HttpOnly");
    reveal_strlit(" Path=/");
    reveal_strlit(" Max-Age=86400");
    reveal_strlit(" SameSite=Strict");
    reveal_strlit("; HttpOnly; Path=/; Max-Age=86400; SameSite=Strict");
    let tail = "; HttpOnly; Path=/; Max-Age=86400; SameSite=Strict"@;
    let c = session_cookie(token);
    assert(c.take((10 + token.len()) as int) =~= "dsh_token="@ + token);
    assert(c.skip((10 + token.len()) as int) =~= tail);
    let e = Seq::<char>::empty();
    let parts = seq![e, " HttpOnly"@, " Path=/"@, " Max-Age=86400"@, " SameSite=Strict"@];
    reveal_with_fuel(join, 6);
    let p1 = parts.drop_first();
    let p2 = p1.drop_first();
    let p3 = p2.drop_first();
    let p4 = p3.drop_first();
    assert(p1 =~= seq![" HttpOnly"@, " Path=/"@, " Max-Age=86400"@, " SameSite=Strict"@]);
    assert(p2 =~= seq![" Path=/"@, " Max-Age=86400"@, " SameSite=Strict"@]);
    assert(p3 =~= seq![" Max-Age=86400"@, " SameSite=Strict"@]);
    assert(p4 =~= seq![" SameSite=Strict"@]);
    let s = seq![';'];
    assert(join(p3, s) == " Max-Age=86400"@ + s + " SameSite=Strict"@);
    assert(join(parts, s) =~= tail);
    assert forall|i: int| 0 <= i < parts.len() implies !(#[trigger] parts[i]).contains(';') by {}
    lemma_split_of_joined(parts, ';');
}

/// A target without a query, and one whose query does not name the token, is left
/// as it is.
pub proof fn law_only_the_token_is_stripped(pq: Seq<char>)
    requires
        pq.contains('?') ==> {
            let pairs = split(after(pq, '?'), '&');
            forall|i: int| 0 <= i < pairs.len() ==> before(#[trigger] pairs[i], '=') != "t"@
        },
    ensures
        stripped(pq) == pq,
{
    if pq.contains('?') {
        let query = after(pq, '?');
        let pairs = split(query, '&');
        let keep = |p: Seq<char>| before(p, '=') != "t"@;
        reveal_strlit("?");
        reveal_strlit("&");
        lemma_split_pieces(query, '&');
        lemma_all_kept(pairs, keep);
        law_the_pieces_make_the_text(query, '&');
        lemma_span(pq, '?');
        assert("&"@ =~= seq!['&']);
        assert("?"@ =~= seq!['?']);
        assert(pq =~= before(pq, '?') + seq!['?'] + query);
    }
}

/// What passes a test in all its parts passes it as a whole.
proof fn lemma_all_kept(s: Seq<Seq<char>>, keep: spec_fn(Seq<char>) -> bool)
    requires
        forall|i: int| 0 <= i < s.len() ==> keep(#[trigger] s[i]),
    ensures
        s.filter(keep) == s,
    decreases s.len(),
{
    reveal(Seq::filter);
    if s.len() > 0 {
        lemma_all_kept(s.drop_last(), keep);
        assert(keep(s[s.len() - 1]));
        assert(s =~= s.drop_last().push(s.last()));
    } else {
        assert(s.filter(keep) =~= s);
    }
}

/// A token in a query is taken out, wherever it stands, and nothing else is: what
/// is left is what the target would have been without it.
pub proof fn law_stripping_takes_the_token_out(
    path: Seq<char>,
    ahead: Seq<Seq<char>>,
    pair: Seq<char>,
    behind: Seq<Seq<char>>,
)
    requires
        !path.contains('?'),
        before(pair, '=') == "t"@,
        !pair.contains('&'),
        forall|i: int| 0 <= i < ahead.len() ==> !(#[trigger] ahead[i]).contains('&'),
        forall|i: int| 0 <= i < behind.len() ==> !(#[trigger] behind[i]).contains('&'),
    ensures
        ahead.len() + behind.len() > 0 ==> stripped(
            path + seq!['?'] + join(ahead + seq![pair] + behind, seq!['&']),
        ) == stripped(path + seq!['?'] + join(ahead + behind, seq!['&'])),
        ahead.len() + behind.len() == 0 ==> stripped(path + seq!['?'] + pair) == path,
{
    let keep = |p: Seq<char>| before(p, '=') != "t"@;
    let all = ahead + seq![pair] + behind;
    let rest = ahead + behind;
    let q = join(all, seq!['&']);
    let r = join(rest, seq!['&']);
    lemma_span_of_joined(path, '?', q);
    lemma_split_of_joined(all, '&');
    Seq::filter_distributes_over_add(ahead + seq![pair], behind, keep);
    Seq::filter_distributes_over_add(ahead, seq![pair], keep);
    Seq::filter_distributes_over_add(ahead, behind, keep);
    reveal(Seq::filter);
    assert(seq![pair].drop_last() =~= Seq::<Seq<char>>::empty());
    let none = Seq::<Seq<char>>::empty();
    assert(none.filter(keep) =~= none);
    assert(!keep(seq![pair].last()));
    assert(seq![pair].filter(keep) =~= none);
    assert(all.filter(keep) =~= rest.filter(keep));
    if rest.len() > 0 {
        lemma_span_of_joined(path, '?', r);
        lemma_split_of_joined(rest, '&');
    } else {
        assert(all =~= seq![pair]);
        assert(q == pair);
        assert(rest.filter(keep) =~= Seq::<Seq<char>>::empty());
    }
}

} // verus!
