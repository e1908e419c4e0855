//! Requests and replies as plain values.

use vstd::prelude::*;
use vstd::string::*;
use vstd::utf8::encode_utf8;

use crate::text::{
    after, before, lemma_span_of_free, lemma_span_of_joined, lower_text, opt_text,
    same_ignoring_case, text_after, text_before, text_has_char,
};

verus! {

// ---------------------------------------------------------------------------
// Headers
// ---------------------------------------------------------------------------

/// One header field.
#[derive(Clone, Debug)]
pub struct Header {
    pub name: String,
    pub value: Vec<u8>,
}

impl View for Header {
    type V = (Seq<char>, Seq<u8>);

    open spec fn view(&self) -> (Seq<char>, Seq<u8>) {
        (self.name@, self.value@)
    }
}

/// The fields of a list of headers, in order.
pub open spec fn fields(hs: Seq<Header>) -> Seq<(Seq<char>, Seq<u8>)> {
    hs.map_values(|h: Header| h@)
}

/// Whether two header names are the same; their case does not count.
pub open spec fn same_name(a: Seq<char>, b: Seq<char>) -> bool {
    lower_text(a) == lower_text(b)
}

/// The value of the first field named `name`.
pub open spec fn field_value(hs: Seq<(Seq<char>, Seq<u8>)>, name: Seq<char>) -> Option<Seq<u8>>
    decreases hs.len(),
{
    if hs.len() == 0 {
        None
    } else if same_name(hs[0].0, name) {
        Some(hs[0].1)
    } else {
        field_value(hs.drop_first(), name)
    }
}

/// Whether a byte may stand in a header value that is read as text: a visible
/// ASCII character, a space or a tab.
pub open spec fn is_visible(b: u8) -> bool {
    32 <= b < 127 || b == 9
}

/// The text of a header value, if all of it is visible.
pub open spec fn visible_text(v: Seq<u8>) -> Option<Seq<char>> {
    if forall|i: int| 0 <= i < v.len() ==> is_visible(#[trigger] v[i]) {
        Some(v.map_values(|b: u8| b as char))
    } else {
        None
    }
}

/// The text of the first field named `name`: `None` if there is no such field
/// or its value is not visible text.
pub open spec fn field_text(hs: Seq<(Seq<char>, Seq<u8>)>, name: Seq<char>) -> Option<Seq<char>> {
    match field_value(hs, name) {
        Some(v) => visible_text(v),
        None => None,
    }
}

/// A header field with a text as its value.
pub open spec fn field(name: Seq<char>, value: Seq<char>) -> (Seq<char>, Seq<u8>) {
    (name, encode_utf8(value))
}

/// A copy of a list of bytes.
pub fn copy_bytes(v: &Vec<u8>) -> (r: Vec<u8>)
    ensures
        r@ == v@,
{
    copy_range(v.as_slice(), 0, v.len())
}

/// The bytes of `v` from `from` to before `to`.
pub fn copy_range(v: &[u8], from: usize, to: usize) -> (r: Vec<u8>)
    requires
        from <= to <= v.len(),
    ensures
        r@ == v@.subrange(from as int, to as int),
{
    let mut out: Vec<u8> = Vec::new();
    for i in from..to
        invariant
            from <= to <= v.len(),
            out@ == v@.subrange(from as int, i as int),
    {
        out.push(v[i]);
        assert(v@.subrange(from as int, i + 1) =~= v@.subrange(from as int, i as int).push(
            v@[i as int],
        ));
    }
    out
}

/// A copy of a header field.
pub fn copy_header(h: &Header) -> (r: Header)
    ensures
        r@ == h@,
{
    Header { name: h.name.clone(), value: copy_bytes(&h.value) }
}

/// A header field with a text as its value.
pub fn text_header(name: &str, value: &str) -> (r: Header)
    ensures
        r@ == field(name@, value@),
{
    Header { name: name.to_owned(), value: value.as_bytes_vec() }
}

/// The position of the first field named `name`, or the number of fields.
fn field_position(hs: &Vec<Header>, name: &str) -> (r: usize)
    ensures
        r <= hs.len(),
        match field_value(fields(hs@), name@) {
            Some(v) => r < hs.len() && hs@[r as int].value@ == v,
            None => r == hs.len(),
        },
{
    let mut i: usize = 0;
    assert(fields(hs@).skip(0) =~= fields(hs@));
    while i < hs.len()
        invariant
            i <= hs.len(),
            field_value(fields(hs@), name@) == field_value(fields(hs@).skip(i as int), name@),
        decreases hs.len() - i,
    {
        let ghost rest = fields(hs@).skip(i as int);
        assert(rest[0] == hs@[i as int]@);
        if same_ignoring_case(hs[i].name.as_str(), name) {
            return i;
        }
        assert(rest.drop_first() =~= fields(hs@).skip(i + 1));
        i = i + 1;
    }
    i
}

/// The text of a header value, if all of it is visible.
pub fn header_text(v: &Vec<u8>) -> (r: Option<String>)
    ensures
        opt_text(r) == visible_text(v@),
{
    let mut out = String::new();
    for i in 0..v.len()
        invariant
            forall|k: int| 0 <= k < i ==> is_visible(#[trigger] v@[k]),
            out@ == v@.take(i as int).map_values(|b: u8| b as char),
    {
        let b: u8 = v[i];
        if !((32 <= b && b < 127) || b == 9) {
            assert(!is_visible(v@[i as int]));
            return None;
        }
        out.push(b as char);
        assert(v@.take(i + 1).map_values(|b: u8| b as char) =~= v@.take(i as int).map_values(
            |b: u8| b as char,
        ).push(b as char));
    }
    assert(v@.take(v.len() as int) =~= v@);
    Some(out)
}

/// Whether there is a field named `name`.
pub fn has_header(hs: &Vec<Header>, name: &str) -> (r: bool)
    ensures
        r == (field_value(fields(hs@), name@) is Some),
{
    field_position(hs, name) < hs.len()
}

/// The text of the first field named `name`: `None` if there is no such field
/// or its value is not visible text.
pub fn get_header_text(hs: &Vec<Header>, name: &str) -> (r: Option<String>)
    ensures
        opt_text(r) == field_text(fields(hs@), name@),
{
    let i = field_position(hs, name);
    if i < hs.len() {
        header_text(&hs[i].value)
    } else {
        None
    }
}

// ---------------------------------------------------------------------------
// Request targets
// ---------------------------------------------------------------------------

/// The target of a request: its path and query as they were sent, where the
/// target has a path.
#[derive(Clone, Debug)]
pub struct RequestUri {
    pub path_and_query: Option<String>,
}

/// The path of a target.
pub open spec fn path_of(pq: Option<Seq<char>>) -> Seq<char> {
    match pq {
        Some(s) => if before(s, '?').len() == 0 {
            "/"@
        } else {
            before(s, '?')
        },
        None => Seq::empty(),
    }
}

/// The query of a target: what stands behind the first question mark.
pub open spec fn query_of(pq: Option<Seq<char>>) -> Option<Seq<char>> {
    match pq {
        Some(s) => if s.contains('?') {
            Some(after(s, '?'))
        } else {
            None
        },
        None => None,
    }
}

/// The query of a target, empty where there is none.
pub open spec fn query_or_empty(pq: Option<Seq<char>>) -> Seq<char> {
    match query_of(pq) {
        Some(q) => q,
        None => Seq::empty(),
    }
}

/// The path and query of a target, `/` where there is none.
pub open spec fn target_or_root(pq: Option<Seq<char>>) -> Seq<char> {
    match pq {
        Some(s) => s,
        None => "/"@,
    }
}

impl View for RequestUri {
    type V = Option<Seq<char>>;

    open spec fn view(&self) -> Option<Seq<char>> {
        opt_text(self.path_and_query)
    }
}

impl RequestUri {
    /// A target that is sent as `path_and_query`.
    pub fn origin_form(path_and_query: &str) -> (r: RequestUri)
        ensures
            r@ == Some(path_and_query@),
    {
        RequestUri { path_and_query: Some(path_and_query.to_owned()) }
    }

    /// The path.
    pub fn path(&self) -> (r: String)
        ensures
            r@ == path_of(self@),
    {
        match &self.path_and_query {
            Some(s) => {
                let p = text_before(s.as_str(), '?');
                if p.as_str().is_empty() {
                    "/".to_owned()
                } else {
                    p
                }
            },
            None => String::new(),
        }
    }

    /// The query, empty where there is none.
    pub fn query(&self) -> (r: String)
        ensures
            r@ == query_or_empty(self@),
    {
        match &self.path_and_query {
            Some(s) => {
                if text_has_char(s.as_str(), '?') {
                    text_after(s.as_str(), '?')
                } else {
                    String::new()
                }
            },
            None => String::new(),
        }
    }

    /// The path and query, `/` where there is none.
    pub fn target(&self) -> (r: String)
        ensures
            r@ == target_or_root(self@),
    {
        match &self.path_and_query {
            Some(s) => s.clone(),
            None => "/".to_owned(),
        }
    }
}

// ---------------------------------------------------------------------------
// Replies
// ---------------------------------------------------------------------------

/// A complete reply.
#[derive(Clone, Debug)]
pub struct Reply {
    pub status: u16,
    pub headers: Vec<Header>,
    pub body: Vec<u8>,
}

/// What a reply says.
pub struct ReplyView {
    pub status: u16,
    pub headers: Seq<(Seq<char>, Seq<u8>)>,
    pub body: Seq<u8>,
}

impl View for Reply {
    type V = ReplyView;

    open spec fn view(&self) -> ReplyView {
        ReplyView { status: self.status, headers: fields(self.headers@), body: self.body@ }
    }
}

/// Whether a status says that the request was served.
pub open spec fn is_success(status: u16) -> bool {
    200 <= status < 300
}

/// A reply of plain text.
pub open spec fn plain_text(status: u16, text: Seq<char>) -> ReplyView {
    ReplyView {
        status,
        headers: seq![field("content-type"@, "text/plain; charset=utf-8"@)],
        body: encode_utf8(text),
    }
}

/// A reply of plain text.
pub fn text_reply(status: u16, text: &str) -> (r: Reply)
    ensures
        r@ == plain_text(status, text@),
{
    let mut headers: Vec<Header> = Vec::new();
    headers.push(text_header("content-type", "text/plain; charset=utf-8"));
    let r = Reply { status, headers, body: text.as_bytes_vec() };
    assert(r@.headers =~= plain_text(status, text@).headers);
    r
}

// ---------------------------------------------------------------------------
// Laws
// ---------------------------------------------------------------------------

/// A header is found by its name, whatever the case of either: the first of that
/// name counts, and one of another name never does.
pub proof fn law_the_first_of_a_name_counts(
    ahead: Seq<(Seq<char>, Seq<u8>)>,
    h: (Seq<char>, Seq<u8>),
    behind: Seq<(Seq<char>, Seq<u8>)>,
    name: Seq<char>,
)
    requires
        forall|i: int|
            0 <= i < ahead.len() ==> lower_text((#[trigger] ahead[i]).0) != lower_text(name),
    ensures
        field_value(ahead, name) is None,
        lower_text(h.0) == lower_text(name) ==> field_value(ahead + seq![h] + behind, name) == Some(
            h.1,
        ),
        lower_text(h.0) != lower_text(name) ==> field_value(ahead + seq![h] + behind, name)
            == field_value(ahead + behind, name),
    decreases ahead.len(),
{
    let all = ahead + seq![h] + behind;
    if ahead.len() > 0 {
        let rest = ahead.drop_first();
        assert forall|i: int| 0 <= i < rest.len() implies lower_text((#[trigger] rest[i]).0)
            != lower_text(name) by {
            assert(rest[i] == ahead[i + 1]);
        }
        law_the_first_of_a_name_counts(rest, h, behind, name);
        assert(all[0] == ahead[0]);
        assert((ahead + behind)[0] == ahead[0]);
        assert(all.drop_first() =~= rest + seq![h] + behind);
        assert((ahead + behind).drop_first() =~= rest + behind);
    } else {
        assert(all[0] == h);
        assert(all.drop_first() =~= behind);
        assert(ahead + behind =~= behind);
    }
}

/// A header's value is read byte by byte, and is text only if each byte is a
/// visible character of ASCII, a space or a tab.
pub proof fn law_visible_values_are_read(v: Seq<u8>)
    ensures
        match visible_text(v) {
            Some(t) => t.len() == v.len() && forall|i: int|
                0 <= i < v.len() ==> (#[trigger] t[i]) as int == v[i] as int && (32 <= v[i] <= 126
                    || v[i] == 9),
            None => exists|i: int| 0 <= i < v.len() && (#[trigger] v[i] > 126 || v[i] < 32 && v[i]
                != 9),
        },
{
    match visible_text(v) {
        Some(t) => {
            assert forall|i: int| 0 <= i < v.len() implies (#[trigger] t[i]) as int == v[i] as int
                && (32 <= v[i] <= 126 || v[i] == 9) by {
                assert(is_visible(v[i]));
            }
        },
        None => {
            let i = choose|i: int| 0 <= i < v.len() && !is_visible(#[trigger] v[i]);
            assert(v[i] > 126 || v[i] < 32 && v[i] != 9);
        },
    }
}

/// A target is its path up to the first question mark, and its query behind it;
/// a path that is missing is the root's.
pub proof fn law_path_and_query(path: Seq<char>, query: Seq<char>)
    requires
        !path.contains('?'),
    ensures
        path.len() > 0 ==> path_of(Some(path)) == path && path_of(Some(path + seq!['?'] + query))
            == path,
        path_of(Some(seq!['?'] + query)) == "/"@,
        query_of(Some(path + seq!['?'] + query)) == Some(query),
        query_or_empty(Some(path + seq!['?'] + query)) == query,
        query_of(Some(path)) is None,
        query_or_empty(Some(path)) == Seq::<char>::empty(),
        target_or_root(Some(path + seq!['?'] + query)) == path + seq!['?'] + query,
        target_or_root(None) == "/"@,
        path_of(None) == Seq::<char>::empty(),
{
    lemma_span_of_joined(path, '?', query);
    lemma_span_of_free(path, '?');
    let none = Seq::<char>::empty();
    lemma_span_of_joined(none, '?', query);
    assert(none + seq!['?'] + query =~= seq!['?'] + query);
}

/// A reply of plain text has the status, says that it is text, and is the text.
pub proof fn law_plain_text_says_what_it_is(status: u16, text: Seq<char>)
    ensures
        plain_text(status, text).status == status,
        plain_text(status, text).headers == seq![
            ("content-type"@, encode_utf8("text/plain; charset=utf-8"@)),
        ],
        plain_text(status, text).body == encode_utf8(text),
{
}

} // verus!
