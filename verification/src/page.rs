//! What becomes of the agent's responses: they are decoded, and the script that
//! keeps the theme is put into the root page.

use vstd::prelude::*;
use vstd::string::*;
use vstd::utf8::{encode_utf8, is_ascii_chars_encode_utf8};

use crate::decode::{coding_named, coding_of, lower_field, lower_header, plain_body, undo_coding};
use crate::http::{
    copy_header, copy_range, field, fields, same_name, text_header, Header, Reply, ReplyView,
};
use crate::text::{
    chars_at, chars_of, contains, find, find_bytes, joined, lemma_find_contains, lemma_find_from,
    lower_text, occurs_at, opt_text, same_ignoring_case,
};

verus! {

// ---------------------------------------------------------------------------
// Is it a page?
// ---------------------------------------------------------------------------

/// How much of a body is looked at to see whether it is HTML.
pub const SNIFFED: usize = 1024;

/// A byte with an ASCII letter in lower case.
pub open spec fn lower_byte(b: u8) -> u8 {
    if 65 <= b <= 90 {
        (b + 32) as u8
    } else {
        b
    }
}

/// The start of a body, with ASCII letters in lower case.
pub open spec fn sniffed(body: Seq<u8>) -> Seq<u8> {
    let n = if body.len() < SNIFFED {
        body.len() as int
    } else {
        SNIFFED as int
    };
    body.take(n).map_values(|b: u8| lower_byte(b))
}

/// Whether the start of a body looks like HTML.
pub open spec fn looks_like_html(body: Seq<u8>) -> bool {
    ||| contains(sniffed(body), encode_utf8("<!doctype"@))
    ||| contains(sniffed(body), encode_utf8("<html"@))
    ||| contains(sniffed(body), encode_utf8("<head"@))
}

/// Whether a response is HTML, by its content type or by its start.
pub open spec fn is_html(headers: Seq<(Seq<char>, Seq<u8>)>, body: Seq<u8>) -> bool {
    let ct = lower_field(headers, "content-type"@);
    ||| occurs_at(ct, "text/html"@, 0)
    ||| occurs_at(ct, "application/xhtml"@, 0)
    ||| looks_like_html(body)
}

/// Whether `p` stands in `s`.
fn holds_bytes(s: &Vec<u8>, p: &str) -> (r: bool)
    ensures
        r == contains(s@, encode_utf8(p@)),
{
    proof {
        lemma_find_contains(s@, encode_utf8(p@));
    }
    find_bytes(s.as_slice(), p.as_bytes()).is_some()
}

/// Whether a response is HTML, by its content type or by its start. Bytes that
/// are not ASCII match nothing that is looked for.
pub fn body_is_html(headers: &Vec<Header>, body: &Vec<u8>) -> (r: bool)
    ensures
        r == is_html(fields(headers@), body@),
{
    let ct = lower_header(headers, "content-type");
    let html = chars_of("text/html");
    let xhtml = chars_of("application/xhtml");
    if chars_at(&ct, &html, 0) || chars_at(&ct, &xhtml, 0) {
        return true;
    }
    let n: usize = if body.len() < SNIFFED {
        body.len()
    } else {
        SNIFFED
    };
    let mut low: Vec<u8> = Vec::new();
    for i in 0..n
        invariant
            n <= body.len(),
            low@ == body@.take(i as int).map_values(|b: u8| lower_byte(b)),
    {
        let b: u8 = body[i];
        let l: u8 = if 65 <= b && b <= 90 {
            b + 32
        } else {
            b
        };
        low.push(l);
        assert(body@.take(i + 1).map_values(|b: u8| lower_byte(b)) =~= body@.take(
            i as int,
        ).map_values(|b: u8| lower_byte(b)).push(l));
    }
    assert(low@ == sniffed(body@));
    holds_bytes(&low, "<!doctype") || holds_bytes(&low, "<html") || holds_bytes(&low, "<head")
}

// ---------------------------------------------------------------------------
// The script
// ---------------------------------------------------------------------------

/// The start of the script: it reports each change of the theme, and stands
/// open for the theme to be set.
pub const SCRIPT_START: &'static str = "<script>var KEY='dsh-angelina-themes.selection';function __dsh_report(v){try{fetch('/__dsh_theme',{method:'POST',body:''+v}).catch(function(){})}catch(e){}}var __dsh_s=Storage.prototype.setItem;Storage.prototype.setItem=function(k,v){__dsh_s.call(this,k,v);if(k===KEY)__dsh_report(v);};var __dsh_l=localStorage.getItem(KEY);setInterval(function(){var c=localStorage.getItem(KEY);if(c!==__dsh_l){__dsh_l=c;__dsh_report(c);}},1500);";

/// The end of the script.
pub const SCRIPT_END: &'static str = "</script>";

/// The statement that sets a saved theme; none if none is saved.
pub open spec fn set_theme(theme: Option<Seq<char>>) -> Seq<char> {
    match theme {
        Some(t) => if t.len() > 0 {
            "try{localStorage.setItem(KEY,'"@ + t + "')}catch(e){}"@
        } else {
            Seq::empty()
        },
        None => Seq::empty(),
    }
}

/// The script for a page: it reports changes of the theme and sets the saved
/// one.
pub open spec fn theme_script(theme: Option<Seq<char>>) -> Seq<char> {
    SCRIPT_START@ + set_theme(theme) + SCRIPT_END@
}

/// The script for a page.
pub fn page_script(theme: &Option<String>) -> (r: String)
    ensures
        r@ == theme_script(opt_text(*theme)),
{
    let set_part = match theme {
        Some(t) => {
            if t.as_str().is_empty() {
                String::new()
            } else {
                let mut out = joined("try{localStorage.setItem(KEY,'", t.as_str());
                out.append("')}catch(e){}");
                out
            }
        },
        None => String::new(),
    };
    let mut out = joined(SCRIPT_START, set_part.as_str());
    out.append(SCRIPT_END);
    out
}

// ---------------------------------------------------------------------------
// Where it goes
// ---------------------------------------------------------------------------

/// How far the opening tag of the head is followed.
pub const TAG_REACH: usize = 64;

/// How many bytes of `s` stand before the first `b`; all of them if there is
/// none.
pub open spec fn byte_span(s: Seq<u8>, b: u8) -> int
    decreases s.len(),
{
    if s.len() == 0 || s[0] == b {
        0
    } else {
        1 + byte_span(s.drop_first(), b)
    }
}

/// The end of the opening tag that starts at `h`, if it ends within reach.
pub open spec fn tag_end(body: Seq<u8>, h: int) -> Option<int> {
    let stop = if body.len() < h + TAG_REACH {
        body.len() as int
    } else {
        h + TAG_REACH
    };
    let tag = body.subrange(h, stop);
    if byte_span(tag, 62) < tag.len() {
        Some(h + byte_span(tag, 62) + 1)
    } else {
        None
    }
}

/// The place behind the opening tag of the head, if there is one.
pub open spec fn head_start(body: Seq<u8>) -> Option<int> {
    match find(body, encode_utf8("<head"@)) {
        Some(h) => tag_end(body, h),
        None => None,
    }
}

/// Where the script goes: behind the opening tag of the head; failing that,
/// before its closing tag; failing that, at the end.
pub open spec fn script_place(body: Seq<u8>) -> int {
    match head_start(body) {
        Some(at) => at,
        None => match find(body, encode_utf8("</head>"@)) {
            Some(pos) => pos,
            None => body.len() as int,
        },
    }
}

/// A body with a script put in.
pub open spec fn with_script(body: Seq<u8>, script: Seq<u8>) -> Seq<u8> {
    body.take(script_place(body)) + script + body.skip(script_place(body))
}

/// The place of the script lies within the body.
pub proof fn lemma_script_place(body: Seq<u8>)
    ensures
        0 <= script_place(body) <= body.len(),
{
    lemma_find_from(body, encode_utf8("<head"@), 0);
    lemma_find_from(body, encode_utf8("</head>"@), 0);
    reveal_strlit("<head");
    reveal_strlit("</head>");
    is_ascii_chars_encode_utf8("<head"@);
    is_ascii_chars_encode_utf8("</head>"@);
    match find(body, encode_utf8("<head"@)) {
        Some(h) => {
            let stop = if body.len() < h + TAG_REACH {
                body.len() as int
            } else {
                h + TAG_REACH
            };
            lemma_byte_span(body.subrange(h, stop), 62);
        },
        None => {},
    }
}

/// `byte_span` stops at the first `b` or at the end.
proof fn lemma_byte_span(s: Seq<u8>, b: u8)
    ensures
        0 <= byte_span(s, b) <= s.len(),
        byte_span(s, b) < s.len() ==> s[byte_span(s, b)] == b,
        forall|k: int| 0 <= k < byte_span(s, b) ==> s[k] != b,
    decreases s.len(),
{
    if s.len() > 0 && s[0] != b {
        let t = s.drop_first();
        lemma_byte_span(t, b);
        assert forall|k: int| 0 <= k < byte_span(s, b) implies s[k] != b by {
            if k > 0 {
                assert(t[k - 1] == s[k]);
            }
        }
        if byte_span(t, b) < t.len() {
            assert(s[byte_span(t, b) + 1] == t[byte_span(t, b)]);
        }
    }
}

/// The place behind the opening tag of the head, if there is one.
fn find_head_start(body: &Vec<u8>) -> (r: Option<usize>)
    ensures
        match r {
            Some(at) => head_start(body@) == Some(at as int) && at <= body.len(),
            None => head_start(body@) is None,
        },
{
    proof {
        lemma_find_from(body@, encode_utf8("<head"@), 0);
    }
    match find_bytes(body.as_slice(), "<head".as_bytes()) {
        Some(h) => {
            let stop: usize = if body.len() - h < TAG_REACH {
                body.len()
            } else {
                h + TAG_REACH
            };
            let ghost tag = body@.subrange(h as int, stop as int);
            let mut i: usize = h;
            assert(tag.skip(0) =~= tag);
            while i < stop
                invariant
                    h <= i <= stop <= body.len(),
                    tag == body@.subrange(h as int, stop as int),
                    byte_span(tag, 62) == (i - h) + byte_span(tag.skip(i - h), 62),
                    tag_end(body@, h as int) == if byte_span(tag, 62) < tag.len() {
                        Some(h + byte_span(tag, 62) + 1)
                    } else {
                        None
                    },
                    head_start(body@) == tag_end(body@, h as int),
                decreases stop - i,
            {
                let ghost rest = tag.skip(i - h);
                assert(rest[0] == body@[i as int]);
                if body[i] == 62 {
                    return Some(i + 1);
                }
                assert(rest.drop_first() =~= tag.skip(i + 1 - h));
                i = i + 1;
            }
            None
        },
        None => None,
    }
}

/// Where the script goes.
fn find_script_place(body: &Vec<u8>) -> (r: usize)
    ensures
        r == script_place(body@),
        r <= body.len(),
{
    proof {
        lemma_script_place(body@);
    }
    let len: usize = body.len();
    match find_head_start(body) {
        Some(at) => at,
        None => match find_bytes(body.as_slice(), "</head>".as_bytes()) {
            Some(pos) => pos,
            None => len,
        },
    }
}

/// A body with a script put in.
pub fn insert_script(body: &Vec<u8>, script: &str) -> (r: Vec<u8>)
    ensures
        r@ == with_script(body@, encode_utf8(script@)),
{
    let at = find_script_place(body);
    let mut out = copy_range(body.as_slice(), 0, at);
    let mut middle = script.as_bytes_vec();
    let mut rest = copy_range(body.as_slice(), at, body.len());
    out.append(&mut middle);
    out.append(&mut rest);
    out
}

// ---------------------------------------------------------------------------
// The reply
// ---------------------------------------------------------------------------

/// The headers that describe the body as it came and not as it is passed on.
pub open spec fn is_body_header(name: Seq<char>) -> bool {
    ||| same_name(name, "content-length"@)
    ||| same_name(name, "transfer-encoding"@)
    ||| same_name(name, "connection"@)
    ||| same_name(name, "content-encoding"@)
}

/// The headers that are passed on.
pub open spec fn passed_on(headers: Seq<(Seq<char>, Seq<u8>)>) -> Seq<(Seq<char>, Seq<u8>)> {
    headers.filter(|h: (Seq<char>, Seq<u8>)| !is_body_header(h.0))
}

/// The reply made of a response whose coding has been undone.
pub open spec fn page_reply(
    status: u16,
    headers: Seq<(Seq<char>, Seq<u8>)>,
    plain: Seq<u8>,
    theme: Option<Seq<char>>,
    set_cookie: Option<Seq<char>>,
    is_root: bool,
) -> ReplyView {
    ReplyView {
        status,
        headers: match set_cookie {
            Some(c) => passed_on(headers).push(field("set-cookie"@, c)),
            None => passed_on(headers),
        },
        body: if is_root && is_html(headers, plain) {
            with_script(plain, encode_utf8(theme_script(theme)))
        } else {
            plain
        },
    }
}

/// The reply made of a response.
pub open spec fn transformed(
    status: u16,
    headers: Seq<(Seq<char>, Seq<u8>)>,
    raw: Seq<u8>,
    theme: Option<Seq<char>>,
    set_cookie: Option<Seq<char>>,
    is_root: bool,
) -> ReplyView {
    let coding = coding_of(lower_field(headers, "content-encoding"@));
    page_reply(status, headers, plain_body(coding, raw), theme, set_cookie, is_root)
}

/// What was done to a response, for a diagnostic log.
#[derive(Clone, Debug)]
pub struct PageReport {
    pub body_is_html: bool,
    pub len: usize,
    pub injected: bool,
}

/// What is done to a response whose coding has been undone.
pub open spec fn page_report(
    headers: Seq<(Seq<char>, Seq<u8>)>,
    plain: Seq<u8>,
    is_root: bool,
) -> PageReport {
    PageReport {
        body_is_html: is_html(headers, plain),
        len: plain.len() as usize,
        injected: is_root && is_html(headers, plain),
    }
}

/// What is done to a response.
pub open spec fn transform_report(
    headers: Seq<(Seq<char>, Seq<u8>)>,
    raw: Seq<u8>,
    is_root: bool,
) -> PageReport {
    let coding = coding_of(lower_field(headers, "content-encoding"@));
    page_report(headers, plain_body(coding, raw), is_root)
}

/// The headers that are passed on.
fn pass_on(headers: &Vec<Header>) -> (r: Vec<Header>)
    ensures
        fields(r@) == passed_on(fields(headers@)),
{
    let mut out: Vec<Header> = Vec::new();
    let ghost keep = |h: (Seq<char>, Seq<u8>)| !is_body_header(h.0);
    for i in 0..headers.len()
        invariant
            keep == (|h: (Seq<char>, Seq<u8>)| !is_body_header(h.0)),
            fields(out@) == fields(headers@).take(i as int).filter(keep),
    {
        let ghost done = fields(out@);
        let ghost part = fields(headers@).take(i + 1);
        proof {
            assert(part.drop_last() =~= fields(headers@).take(i as int));
            assert(part.last() == headers@[i as int]@);
            reveal(Seq::filter);
        }
        let name = headers[i].name.as_str();
        if !(same_ignoring_case(name, "content-length") || same_ignoring_case(
            name,
            "transfer-encoding",
        ) || same_ignoring_case(name, "connection") || same_ignoring_case(
            name,
            "content-encoding",
        )) {
            out.push(copy_header(&headers[i]));
            assert(fields(out@) =~= done.push(headers@[i as int]@));
        }
    }
    assert(fields(headers@).take(headers.len() as int) =~= fields(headers@));
    out
}

/// The reply made of a response whose coding has been undone.
pub fn transform_plain(
    status: u16,
    headers: &Vec<Header>,
    plain: Vec<u8>,
    theme: &Option<String>,
    set_cookie: &Option<String>,
    is_root: bool,
) -> (r: (Reply, PageReport))
    ensures
        r.0@ == page_reply(
            status,
            fields(headers@),
            plain@,
            opt_text(*theme),
            opt_text(*set_cookie),
            is_root,
        ),
        r.1 == page_report(fields(headers@), plain@, is_root),
        r.1.len == plain@.len(),
{
    let html = body_is_html(headers, &plain);
    let injected = is_root && html;
    let len: usize = plain.len();
    let mut out = pass_on(headers);
    if let Some(c) = set_cookie {
        let ghost done = fields(out@);
        out.push(text_header("set-cookie", c.as_str()));
        assert(fields(out@) =~= done.push(field("set-cookie"@, c@)));
    }
    let body = if injected {
        let script = page_script(theme);
        insert_script(&plain, script.as_str())
    } else {
        plain
    };
    let report = PageReport { body_is_html: html, len, injected };
    (Reply { status, headers: out, body }, report)
}

/// The reply made of a response: its coding is undone, the script is put into
/// the root page if it is HTML, the headers that no longer fit are dropped, and
/// the session cookie is set where one is to be set.
pub fn transform_upstream(
    status: u16,
    headers: &Vec<Header>,
    raw: &Vec<u8>,
    theme: &Option<String>,
    set_cookie: &Option<String>,
    is_root: bool,
) -> (r: (Reply, PageReport))
    ensures
        r.0@ == transformed(
            status,
            fields(headers@),
            raw@,
            opt_text(*theme),
            opt_text(*set_cookie),
            is_root,
        ),
        r.1 == transform_report(fields(headers@), raw@, is_root),
{
    let encoding = lower_header(headers, "content-encoding");
    let plain = undo_coding(coding_named(&encoding), raw);
    transform_plain(status, headers, plain, theme, set_cookie, is_root)
}

// ---------------------------------------------------------------------------
// Laws
// ---------------------------------------------------------------------------

/// Putting a script in adds the script and changes nothing else: taken out
/// again, it leaves the body as it was.
pub proof fn law_script_is_all_that_is_added(body: Seq<u8>, script: Seq<u8>)
    ensures
        ({
            let at = script_place(body);
            let out = with_script(body, script);
            &&& 0 <= at <= body.len()
            &&& out.len() == body.len() + script.len()
            &&& out.subrange(at, at + script.len()) == script
            &&& out.take(at) + out.skip(at + script.len()) == body
        }),
{
    lemma_script_place(body);
    let at = script_place(body);
    let out = with_script(body, script);
    assert(out.subrange(at, at + script.len()) =~= script);
    assert(out.take(at) + out.skip(at + script.len()) =~= body);
}

/// Where the first `<head` ends within reach, the script stands directly behind
/// its `>`: before anything that the head holds.
pub proof fn law_script_comes_first_in_the_head(body: Seq<u8>, h: int, g: int)
    requires
        find(body, encode_utf8("<head"@)) == Some(h),
        h <= g < body.len(),
        g < h + TAG_REACH,
        body[g] == 62,
        forall|k: int| h <= k < g ==> body[k] != 62,
    ensures
        script_place(body) == g + 1,
{
    lemma_find_from(body, encode_utf8("<head"@), 0);
    let stop = if body.len() < h + TAG_REACH {
        body.len() as int
    } else {
        h + TAG_REACH
    };
    let tag = body.subrange(h, stop);
    lemma_byte_span(tag, 62);
    let n = byte_span(tag, 62);
    assert(tag[g - h] == body[g]);
    if n < g - h {
        assert(tag[n] == body[h + n]);
    }
}

/// What is passed on is labelled as it is: no header of the response that
/// describes its length, its transfer or its coding survives.
pub proof fn law_no_stale_body_header(
    status: u16,
    headers: Seq<(Seq<char>, Seq<u8>)>,
    raw: Seq<u8>,
    theme: Option<Seq<char>>,
    set_cookie: Option<Seq<char>>,
    is_root: bool,
)
    ensures
        forall|i: int|
            0 <= i < transformed(status, headers, raw, theme, set_cookie, is_root).headers.len()
                ==> !is_body_header(
                (#[trigger] transformed(
                    status,
                    headers,
                    raw,
                    theme,
                    set_cookie,
                    is_root,
                ).headers[i]).0,
            ),
{
    let keep = |h: (Seq<char>, Seq<u8>)| !is_body_header(h.0);
    let kept = headers.filter(keep);
    broadcast use vstd::seq_lib::group_filter_ensures;

    let out = transformed(status, headers, raw, theme, set_cookie, is_root).headers;
    reveal_strlit("set-cookie");
    reveal_strlit("content-length");
    reveal_strlit("transfer-encoding");
    reveal_strlit("connection");
    reveal_strlit("content-encoding");
    assert(lower_text("set-cookie"@)[0] == 's');
    assert(lower_text("content-length"@)[0] == 'c');
    assert(lower_text("transfer-encoding"@)[0] == 't');
    assert(lower_text("connection"@)[0] == 'c');
    assert(lower_text("content-encoding"@)[0] == 'c');
    assert forall|i: int| 0 <= i < out.len() implies !is_body_header((#[trigger] out[i]).0) by {
        if i < kept.len() {
            assert(keep(kept[i]));
        }
    }
}

/// Away from the root, and for what is no page, the body is passed on as it is
/// once its coding is undone.
pub proof fn law_other_bodies_are_untouched(
    status: u16,
    headers: Seq<(Seq<char>, Seq<u8>)>,
    plain: Seq<u8>,
    theme: Option<Seq<char>>,
    set_cookie: Option<Seq<char>>,
    is_root: bool,
)
    requires
        !is_root || !is_html(headers, plain),
    ensures
        page_reply(status, headers, plain, theme, set_cookie, is_root).body == plain,
        page_reply(status, headers, plain, theme, set_cookie, is_root).status == status,
{
}

/// A byte in lower case is the small letter of an ASCII capital, 32 places further
/// on, and itself otherwise.
pub proof fn law_bytes_in_lower_case(b: u8)
    ensures
        65 <= b <= 90 ==> lower_byte(b) == b + 32,
        b < 65 || b > 90 ==> lower_byte(b) == b,
{
}

/// A response is HTML if its content type begins like that of a page, whatever its
/// body; or if one of three tags begins within the first 1024 bytes of its body and
/// ends there, in whatever case. Nothing else makes it HTML.
pub proof fn law_what_is_html(
    headers: Seq<(Seq<char>, Seq<u8>)>,
    body: Seq<u8>,
    tail: Seq<char>,
)
    ensures
        lower_field(headers, "content-type"@) == "text/html"@ + tail ==> is_html(headers, body),
        lower_field(headers, "content-type"@) == "application/xhtml"@ + tail ==> is_html(
            headers,
            body,
        ),
        ({
            let n = if body.len() < 1024 {
                body.len() as int
            } else {
                1024
            };
            let low = body.take(n).map_values(|b: u8| lower_byte(b));
            let seen = contains(low, encode_utf8("<!doctype"@)) || contains(
                low,
                encode_utf8("<html"@),
            ) || contains(low, encode_utf8("<head"@));
            let ct = lower_field(headers, "content-type"@);
            &&& seen ==> is_html(headers, body)
            &&& is_html(headers, body) && !seen ==> occurs_at(ct, "text/html"@, 0) || occurs_at(
                ct,
                "application/xhtml"@,
                0,
            )
        }),
{
    let ct = lower_field(headers, "content-type"@);
    if ct == "text/html"@ + tail {
        assert(ct.subrange(0, "text/html"@.len() as int) =~= "text/html"@);
    }
    if ct == "application/xhtml"@ + tail {
        assert(ct.subrange(0, "application/xhtml"@.len() as int) =~= "application/xhtml"@);
    }
}

/// Where no opening tag of the head ends within the 64 bytes from its start, the
/// script stands before the first closing tag; without one, at the end.
pub proof fn law_where_else_the_script_goes(body: Seq<u8>, p: int)
    requires
        match find(body, encode_utf8("<head"@)) {
            Some(h) => forall|k: int| h <= k < h + 64 && k < body.len() ==> body[k] != 62,
            None => true,
        },
    ensures
        find(body, encode_utf8("</head>"@)) == Some(p) ==> script_place(body) == p,
        find(body, encode_utf8("</head>"@)) is None ==> script_place(body) == body.len(),
{
    lemma_find_from(body, encode_utf8("<head"@), 0);
    match find(body, encode_utf8("<head"@)) {
        Some(h) => {
            let stop = if body.len() < h + TAG_REACH {
                body.len() as int
            } else {
                h + TAG_REACH
            };
            let tag = body.subrange(h, stop);
            lemma_byte_span(tag, 62);
            if byte_span(tag, 62) < tag.len() {
                assert(tag[byte_span(tag, 62)] == body[h + byte_span(tag, 62)]);
            }
        },
        None => {},
    }
}

/// The script is a script: it reports changes, and between its start and its end
/// it sets the saved theme, if one is saved, and does nothing if none is.
pub proof fn law_the_script_sets_the_saved_theme(theme: Seq<char>)
    ensures
        theme_script(None) == SCRIPT_START@ + SCRIPT_END@,
        theme.len() == 0 ==> theme_script(Some(theme)) == SCRIPT_START@ + SCRIPT_END@,
        theme.len() > 0 ==> theme_script(Some(theme)) == SCRIPT_START@
            + "try{localStorage.setItem(KEY,'"@ + theme + "')}catch(e){}"@ + "</script>"@,
{
    assert(SCRIPT_START@ + Seq::<char>::empty() =~= SCRIPT_START@);
    assert(SCRIPT_START@ + ("try{localStorage.setItem(KEY,'"@ + theme + "')}catch(e){}"@)
        + SCRIPT_END@ =~= SCRIPT_START@ + "try{localStorage.setItem(KEY,'"@ + theme
        + "')}catch(e){}"@ + "</script>"@);
}

/// The first `<head` whose opening tag ends within 64 bytes has the script directly
/// behind it, and the body around it is as it was.
pub proof fn law_the_script_stands_behind_the_tag(
    ahead: Seq<u8>,
    tag: Seq<u8>,
    behind: Seq<u8>,
    script: Seq<u8>,
)
    requires
        find(ahead + tag + behind, encode_utf8("<head"@)) == Some(ahead.len() as int),
        0 < tag.len() <= 64,
        tag.last() == 62,
        forall|k: int| 0 <= k < tag.len() - 1 ==> tag[k] != 62,
    ensures
        with_script(ahead + tag + behind, script) == ahead + tag + script + behind,
{
    let body = ahead + tag + behind;
    let h = ahead.len() as int;
    let g = h + tag.len() - 1;
    assert(body[g] == tag.last());
    assert forall|k: int| h <= k < g implies body[k] != 62 by {
        assert(body[k] == tag[k - h]);
    }
    law_script_comes_first_in_the_head(body, h, g);
    assert(body.take(g + 1) =~= ahead + tag);
    assert(body.skip(g + 1) =~= behind);
}

/// What is reported of a response is what was done to it: the script was put in
/// exactly if the reply's body is longer than the response's.
pub proof fn law_the_report_tells_what_was_done(
    status: u16,
    headers: Seq<(Seq<char>, Seq<u8>)>,
    plain: Seq<u8>,
    theme: Option<Seq<char>>,
    set_cookie: Option<Seq<char>>,
    is_root: bool,
)
    requires
        plain.len() <= usize::MAX,
        encode_utf8(theme_script(theme)).len() > 0,
    ensures
        ({
            let report = page_report(headers, plain, is_root);
            let reply = page_reply(status, headers, plain, theme, set_cookie, is_root);
            &&& report.body_is_html == is_html(headers, plain)
            &&& report.len == plain.len()
            &&& report.injected <==> reply.body.len() > plain.len()
            &&& !report.injected ==> reply.body == plain
        }),
{
    law_script_is_all_that_is_added(plain, encode_utf8(theme_script(theme)));
}

} // verus!
