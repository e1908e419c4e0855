//! JSON texts.

use vstd::prelude::*;
use vstd::string::*;

use crate::text::{decimal, decimal_text, join, join_texts, opt_text, texts};

verus! {

// ---------------------------------------------------------------------------
// Strings
// ---------------------------------------------------------------------------

/// A digit of a number in hexadecimal.
pub open spec fn hex_digit(d: int) -> char {
    if d < 10 {
        (48 + d) as char
    } else {
        (87 + d) as char
    }
}

/// How a character is written inside a JSON string.
pub open spec fn json_char(c: char) -> Seq<char> {
    if c == '"' {
        seq!['\\', '"']
    } else if c == '\\' {
        seq!['\\', '\\']
    } else if c as int == 8 {
        seq!['\\', 'b']
    } else if c as int == 12 {
        seq!['\\', 'f']
    } else if c == '\n' {
        seq!['\\', 'n']
    } else if c == '\r' {
        seq!['\\', 'r']
    } else if c == '\t' {
        seq!['\\', 't']
    } else if (c as int) < 32 {
        seq!['\\', 'u', '0', '0', hex_digit(c as int / 16), hex_digit(c as int % 16)]
    } else {
        seq![c]
    }
}

/// How a text is written inside a JSON string.
pub open spec fn json_chars(s: Seq<char>) -> Seq<char>
    decreases s.len(),
{
    if s.len() == 0 {
        Seq::empty()
    } else {
        json_char(s[0]) + json_chars(s.drop_first())
    }
}

/// A text as a JSON string.
pub open spec fn json_quoted(s: Seq<char>) -> Seq<char> {
    seq!['"'] + json_chars(s) + seq!['"']
}

/// `serde_json::to_string` of a text. Claimed is that it succeeds and gives the
/// text between double quotes, with the quote, the backslash and the control
/// characters below the blank escaped and all else as it is.
#[verifier::external_body]
pub(crate) fn json_text(s: &str) -> (r: Option<String>)
    ensures
        opt_text(r) == Some(json_quoted(s@)),
{
    serde_json::to_string(s).ok()
}

// ---------------------------------------------------------------------------
// Objects
// ---------------------------------------------------------------------------

/// A plain value in an object.
#[derive(Clone, Debug)]
pub enum JsonValue {
    Text(String),
    Truth(bool),
    Number(u64),
}

/// What a plain value in an object says.
pub enum JsonView {
    Text(Seq<char>),
    Truth(bool),
    Number(nat),
}

impl View for JsonValue {
    type V = JsonView;

    open spec fn view(&self) -> JsonView {
        match self {
            JsonValue::Text(t) => JsonView::Text(t@),
            JsonValue::Truth(b) => JsonView::Truth(*b),
            JsonValue::Number(n) => JsonView::Number(*n as nat),
        }
    }
}

/// A plain value as JSON.
pub open spec fn value_json(v: JsonView) -> Seq<char> {
    match v {
        JsonView::Text(t) => json_quoted(t),
        JsonView::Truth(b) => if b {
            "true"@
        } else {
            "false"@
        },
        JsonView::Number(n) => decimal(n),
    }
}

/// A member of an object as JSON.
pub open spec fn member_json(m: (Seq<char>, JsonView)) -> Seq<char> {
    json_quoted(m.0) + ":"@ + value_json(m.1)
}

/// An object of plain values as JSON.
pub open spec fn object_json(members: Seq<(Seq<char>, JsonView)>) -> Seq<char> {
    "{"@ + join(members.map_values(|m: (Seq<char>, JsonView)| member_json(m)), ","@) + "}"@
}

/// The members of an object.
pub open spec fn members_of(ms: Seq<(String, JsonValue)>) -> Seq<(Seq<char>, JsonView)> {
    ms.map_values(|m: (String, JsonValue)| (m.0@, m.1@))
}

/// A text as a JSON string.
fn quoted_text(s: &str) -> (r: String)
    ensures
        r@ == json_quoted(s@),
{
    match json_text(s) {
        Some(t) => t,
        None => String::new(),
    }
}

/// A plain value as JSON.
fn value_text(v: &JsonValue) -> (r: String)
    ensures
        r@ == value_json(v@),
{
    match v {
        JsonValue::Text(t) => quoted_text(t.as_str()),
        JsonValue::Truth(b) => if *b {
            "true".to_owned()
        } else {
            "false".to_owned()
        },
        JsonValue::Number(n) => decimal_text(*n),
    }
}

/// An object of plain values as JSON, its members in the order given.
pub fn object_text(members: &Vec<(String, JsonValue)>) -> (r: String)
    ensures
        r@ == object_json(members_of(members@)),
{
    let ghost ms = members_of(members@);
    let mut parts: Vec<String> = Vec::new();
    for i in 0..members.len()
        invariant
            ms == members_of(members@),
            parts.len() == i,
            forall|k: int| 0 <= k < i ==> #[trigger] parts@[k]@ == member_json(ms[k]),
    {
        let mut t = quoted_text(members[i].0.as_str());
        t.append(":");
        let v = value_text(&members[i].1);
        t.append(v.as_str());
        parts.push(t);
    }
    assert(texts(parts@) =~= ms.map_values(|m: (Seq<char>, JsonView)| member_json(m)));
    let inner = join_texts(&parts, ",");
    let mut out = "{".to_owned();
    out.append(inner.as_str());
    out.append("}");
    out
}

// ---------------------------------------------------------------------------
// Laws
// ---------------------------------------------------------------------------

/// The value of a hexadecimal digit.
pub open spec fn hex_value(c: char) -> int {
    if '0' <= c <= '9' {
        c as int - 48
    } else {
        c as int - 87
    }
}

/// What a letter behind a backslash stands for.
pub open spec fn unescaped(c: char) -> char {
    if c == 'b' {
        8 as char
    } else if c == 'f' {
        12 as char
    } else if c == 'n' {
        '\n'
    } else if c == 'r' {
        '\r'
    } else if c == 't' {
        '\t'
    } else {
        c
    }
}

/// One more character in front of what the rest of a literal reads as.
pub open spec fn preceded(
    c: char,
    rest: Option<(Seq<char>, Seq<char>)>,
) -> Option<(Seq<char>, Seq<char>)> {
    match rest {
        Some((text, behind)) => Some((seq![c] + text, behind)),
        None => None,
    }
}

/// What a script reads behind the opening quote of a string literal: the text
/// of the literal, and what stands behind its closing quote. A literal that is
/// not closed on its line reads as nothing.
pub open spec fn read_literal(t: Seq<char>) -> Option<(Seq<char>, Seq<char>)>
    decreases t.len(),
{
    if t.len() == 0 {
        None
    } else if t[0] == '"' {
        Some((Seq::empty(), t.skip(1)))
    } else if t[0] == '\n' || t[0] == '\r' {
        None
    } else if t[0] != '\\' {
        preceded(t[0], read_literal(t.skip(1)))
    } else if t.len() < 2 {
        None
    } else if t[1] != 'u' {
        preceded(unescaped(t[1]), read_literal(t.skip(2)))
    } else if t.len() < 6 {
        None
    } else {
        let code = hex_value(t[2]) * 4096 + hex_value(t[3]) * 256 + hex_value(t[4]) * 16
            + hex_value(t[5]);
        preceded(code as char, read_literal(t.skip(6)))
    }
}

/// A text written as a JSON string reads as that text again, and ends where it
/// ends: nothing in it closes the literal early.
pub proof fn law_quoted_text_reads_as_itself(s: Seq<char>, behind: Seq<char>)
    ensures
        json_quoted(s)[0] == '"',
        read_literal((json_quoted(s) + behind).skip(1)) == Some((s, behind)),
{
    lemma_read_back(s, behind);
    assert((json_quoted(s) + behind).skip(1) =~= json_chars(s) + seq!['"'] + behind);
}

/// The digits of a control character give its number again.
proof fn lemma_control(c: char)
    requires
        (c as int) < 32,
    ensures
        hex_value('0') == 0,
        hex_value(hex_digit(c as int / 16)) * 16 + hex_value(hex_digit(c as int % 16)) == c as int,
        (c as int) as char == c,
{
}

/// The induction behind `law_quoted_text_reads_as_itself`.
proof fn lemma_read_back(s: Seq<char>, behind: Seq<char>)
    ensures
        read_literal(json_chars(s) + seq!['"'] + behind) == Some((s, behind)),
    decreases s.len(),
{
    let t = json_chars(s) + seq!['"'] + behind;
    if s.len() == 0 {
        assert(t =~= seq!['"'] + behind);
        assert(t.skip(1) =~= behind);
        assert(s =~= Seq::empty());
    } else {
        let c = s[0];
        let rest = s.drop_first();
        let u = json_chars(rest) + seq!['"'] + behind;
        let head = json_char(c);
        lemma_read_back(rest, behind);
        assert(t =~= head + u);
        assert(t.skip(head.len() as int) =~= u);
        assert forall|k: int| 0 <= k < head.len() implies t[k] == head[k] by {}
        assert(seq![c] + rest =~= s);
        let n = c as int;
        if c == '"' || c == '\\' || n == 8 || n == 12 || n == 10 || n == 13 || n == 9 {
            assert(head.len() == 2);
            assert(t[1] != 'u');
        } else if n < 32 {
            assert(head.len() == 6);
            lemma_control(c);
        } else {
            assert(head.len() == 1);
        }
    }
}

/// A text without quotes, backslashes and control characters is written as it is,
/// between quotes.
pub proof fn law_plain_text_is_quoted_as_it_is(s: Seq<char>)
    requires
        forall|i: int|
            0 <= i < s.len() ==> #[trigger] s[i] != '"' && s[i] != '\\' && s[i] as int >= 32,
    ensures
        json_quoted(s) == seq!['"'] + s + seq!['"'],
{
    lemma_plain_chars(s);
}

/// The induction behind `law_plain_text_is_quoted_as_it_is`.
proof fn lemma_plain_chars(s: Seq<char>)
    requires
        forall|i: int|
            0 <= i < s.len() ==> #[trigger] s[i] != '"' && s[i] != '\\' && s[i] as int >= 32,
    ensures
        json_chars(s) == s,
    decreases s.len(),
{
    if s.len() > 0 {
        let rest = s.drop_first();
        assert forall|i: int| 0 <= i < rest.len() implies #[trigger] rest[i] != '"' && rest[i]
            != '\\' && rest[i] as int >= 32 by {
            assert(rest[i] == s[i + 1]);
        }
        lemma_plain_chars(rest);
        assert(seq![s[0]] + rest =~= s);
    } else {
        assert(json_chars(s) =~= s);
    }
}

/// An object is its members between braces and commas, each its name and its value:
/// a text in quotes, a truth as a word, a number in digits.
pub proof fn law_an_object_is_its_members(
    first: (Seq<char>, JsonView),
    rest: Seq<(Seq<char>, JsonView)>,
    text: Seq<char>,
    n: nat,
)
    ensures
        object_json(Seq::empty()) == "{}"@,
        object_json(seq![first]) == "{"@ + json_quoted(first.0) + ":"@ + value_json(first.1)
            + "}"@,
        rest.len() > 0 ==> object_json(seq![first] + rest) == "{"@ + json_quoted(first.0) + ":"@
            + value_json(first.1) + ","@ + object_json(rest).drop_first(),
        value_json(JsonView::Text(text)) == json_quoted(text),
        value_json(JsonView::Truth(true)) == "true"@,
        value_json(JsonView::Truth(false)) == "false"@,
        value_json(JsonView::Number(n)) == decimal(n),
{
    let f = |m: (Seq<char>, JsonView)| member_json(m);
    reveal_strlit("{");
    reveal_strlit("}");
    reveal_strlit("{}");
    reveal_strlit(":");
    let none = Seq::<(Seq<char>, JsonView)>::empty();
    assert(none.map_values(f) =~= Seq::<Seq<char>>::empty());
    assert(object_json(none) =~= "{}"@);
    assert(seq![first].map_values(f) =~= seq![member_json(first)]);
    assert(object_json(seq![first]) =~= "{"@ + json_quoted(first.0) + ":"@ + value_json(first.1)
        + "}"@);
    if rest.len() > 0 {
        let all = (seq![first] + rest).map_values(f);
        let parts = rest.map_values(f);
        assert(all =~= seq![member_json(first)] + parts);
        assert(all.drop_first() =~= parts);
        assert(join(all, ","@) == member_json(first) + ","@ + join(parts, ","@));
        assert(object_json(rest).drop_first() =~= join(parts, ","@) + "}"@);
        assert(object_json(seq![first] + rest) =~= "{"@ + json_quoted(first.0) + ":"@ + value_json(
            first.1,
        ) + ","@ + object_json(rest).drop_first());
    }
}

} // verus!
