//! Text as sequences of characters: searching, splitting, trimming, numbers.
//!
//! Each executable function is stated over the view of its strings; the spec
//! functions here are the vocabulary of the other modules' contracts.

use vstd::prelude::*;
use vstd::string::*;

verus! {

// ---------------------------------------------------------------------------
// Whole strings
// ---------------------------------------------------------------------------

/// The texts of a list of strings.
pub open spec fn texts(v: Seq<String>) -> Seq<Seq<char>> {
    v.map_values(|s: String| s@)
}

/// `String::push` of the standard library: the character is added at the end
/// and the rest of the string stays.
pub assume_specification[ String::push ](s: &mut String, c: char)
    ensures
        final(s)@ == old(s)@.push(c),
;

/// The text of an optional string.
pub open spec fn opt_text(o: Option<String>) -> Option<Seq<char>> {
    match o {
        Some(s) => Some(s@),
        None => None,
    }
}

/// The characters of a string, in order.
pub fn chars_of(s: &str) -> (r: Vec<char>)
    ensures
        r@ == s@,
{
    let mut out: Vec<char> = Vec::new();
    for c in it: s.chars()
        invariant
            out@ == it.seq().take(it.index()),
            it.seq() == s@,
    {
        out.push(c);
        assert(it.seq().take(it.index() + 1) =~= it.seq().take(it.index()).push(c));
    }
    assert(s@.take(s@.len() as int) =~= s@);
    out
}

/// Whether two strings hold the same text.
pub fn same_text(a: &str, b: &str) -> (r: bool)
    ensures
        r == (a@ == b@),
{
    let x = chars_of(a);
    let y = chars_of(b);
    same_chars(&x, &y)
}

/// Whether two lists of characters are equal.
pub fn same_chars(x: &Vec<char>, y: &Vec<char>) -> (r: bool)
    ensures
        r == (x@ == y@),
{
    if x.len() != y.len() {
        return false;
    }
    for i in 0..x.len()
        invariant
            x.len() == y.len(),
            forall|k: int| 0 <= k < i ==> x@[k] == y@[k],
    {
        if x[i] != y[i] {
            return false;
        }
    }
    assert(x@ =~= y@);
    true
}

/// The text of `s` from character `from` to before character `to`.
pub fn slice_text(s: &str, from: usize, to: usize) -> (r: String)
    requires
        from <= to <= s@.len(),
    ensures
        r@ == s@.subrange(from as int, to as int),
{
    s.substring_char(from, to).to_owned()
}

/// The concatenation of two texts.
pub fn joined(a: &str, b: &str) -> (r: String)
    ensures
        r@ == a@ + b@,
{
    let mut out = a.to_owned();
    out.append(b);
    out
}

/// An independent copy of an optional string.
pub fn clone_opt(o: &Option<String>) -> (r: Option<String>)
    ensures
        r == o,
{
    match o {
        Some(s) => Some(s.clone()),
        None => None,
    }
}

// ---------------------------------------------------------------------------
// Prefixes, suffixes and occurrences
// ---------------------------------------------------------------------------

/// Whether `p` stands in `s` at position `i`.
pub open spec fn occurs_at<T>(s: Seq<T>, p: Seq<T>, i: int) -> bool {
    0 <= i && i + p.len() <= s.len() && s.subrange(i, i + p.len()) == p
}

/// Whether `p` stands somewhere in `s`.
pub open spec fn contains<T>(s: Seq<T>, p: Seq<T>) -> bool {
    exists|i: int| occurs_at(s, p, i)
}

/// The first position, from `from` on, at which `p` stands in `s`.
pub open spec fn find_from<T>(s: Seq<T>, p: Seq<T>, from: int) -> Option<int>
    decreases s.len() - from + 1,
{
    if from < 0 || from + p.len() > s.len() {
        None
    } else if occurs_at(s, p, from) {
        Some(from)
    } else {
        find_from(s, p, from + 1)
    }
}

/// The first position at which `p` stands in `s`.
pub open spec fn find<T>(s: Seq<T>, p: Seq<T>) -> Option<int> {
    find_from(s, p, 0)
}

/// `find_from` yields an occurrence, and none stands before it.
pub proof fn lemma_find_from<T>(s: Seq<T>, p: Seq<T>, from: int)
    requires
        0 <= from,
    ensures
        match find_from(s, p, from) {
            Some(i) => from <= i && occurs_at(s, p, i) && forall|j: int|
                from <= j < i ==> !occurs_at(s, p, j),
            None => forall|j: int| from <= j ==> !occurs_at(s, p, j),
        },
    decreases s.len() - from + 1,
{
    if from + p.len() <= s.len() && !occurs_at(s, p, from) {
        lemma_find_from(s, p, from + 1);
    }
}

/// A text contains another exactly where a first occurrence is found.
pub proof fn lemma_find_contains<T>(s: Seq<T>, p: Seq<T>)
    ensures
        contains(s, p) <==> find(s, p) is Some,
{
    lemma_find_from(s, p, 0);
}

/// Whether `p` stands in `s` at position `i`.
pub fn chars_at(s: &Vec<char>, p: &Vec<char>, i: usize) -> (r: bool)
    ensures
        r == occurs_at(s@, p@, i as int),
{
    if p.len() > s.len() || i > s.len() - p.len() {
        return false;
    }
    for k in 0..p.len()
        invariant
            i + p.len() <= s.len(),
            forall|j: int| 0 <= j < k ==> s@[i + j] == p@[j],
    {
        if s[i + k] != p[k] {
            assert(s@.subrange(i as int, i + p.len())[k as int] != p@[k as int]);
            return false;
        }
    }
    assert(s@.subrange(i as int, i + p.len()) =~= p@);
    true
}

/// The first position at which `p` stands in `s`.
pub fn find_chars(s: &Vec<char>, p: &Vec<char>) -> (r: Option<usize>)
    ensures
        match r {
            Some(i) => find(s@, p@) == Some(i as int),
            None => find(s@, p@) is None,
        },
{
    if p.len() > s.len() {
        return None;
    }
    let last: usize = s.len() - p.len();
    let mut i: usize = 0;
    while i <= last
        invariant
            last + p.len() == s.len(),
            i <= last + 1,
            find(s@, p@) == find_from(s@, p@, i as int),
        decreases last + 1 - i,
    {
        if chars_at(s, p, i) {
            return Some(i);
        }
        if i == last {
            assert(find_from(s@, p@, i + 1) is None);
            return None;
        }
        i = i + 1;
    }
    None
}

/// Whether `p` stands in `s` at position `i`.
pub fn bytes_at(s: &[u8], p: &[u8], i: usize) -> (r: bool)
    ensures
        r == occurs_at(s@, p@, i as int),
{
    if p.len() > s.len() || i > s.len() - p.len() {
        return false;
    }
    for k in 0..p.len()
        invariant
            i + p.len() <= s.len(),
            forall|j: int| 0 <= j < k ==> s@[i + j] == p@[j],
    {
        if s[i + k] != p[k] {
            assert(s@.subrange(i as int, i + p.len())[k as int] != p@[k as int]);
            return false;
        }
    }
    assert(s@.subrange(i as int, i + p.len()) =~= p@);
    true
}

/// The first position at which `p` stands in `s`.
pub fn find_bytes(s: &[u8], p: &[u8]) -> (r: Option<usize>)
    ensures
        match r {
            Some(i) => find(s@, p@) == Some(i as int),
            None => find(s@, p@) is None,
        },
{
    if p.len() > s.len() {
        return None;
    }
    let last: usize = s.len() - p.len();
    let mut i: usize = 0;
    while i <= last
        invariant
            last + p.len() == s.len(),
            i <= last + 1,
            find(s@, p@) == find_from(s@, p@, i as int),
        decreases last + 1 - i,
    {
        if bytes_at(s, p, i) {
            return Some(i);
        }
        if i == last {
            assert(find_from(s@, p@, i + 1) is None);
            return None;
        }
        i = i + 1;
    }
    None
}

/// Whether `s` contains `p`.
pub fn text_contains(s: &str, p: &str) -> (r: bool)
    ensures
        r == contains(s@, p@),
{
    let x = chars_of(s);
    let y = chars_of(p);
    proof {
        lemma_find_contains(s@, p@);
    }
    find_chars(&x, &y).is_some()
}

/// Whether `p` ends `s`.
pub open spec fn ends_with<T>(s: Seq<T>, p: Seq<T>) -> bool {
    occurs_at(s, p, s.len() - p.len())
}

// ---------------------------------------------------------------------------
// ASCII case
// ---------------------------------------------------------------------------

/// The lower-case form of an ASCII letter; any other character as it is.
pub open spec fn lower(c: char) -> char {
    if 'A' <= c <= 'Z' {
        (c as u32 + 32) as char
    } else {
        c
    }
}

/// A text with its ASCII letters in lower case.
pub open spec fn lower_text(s: Seq<char>) -> Seq<char> {
    s.map_values(|c: char| lower(c))
}

/// The lower-case form of an ASCII letter; any other character as it is.
pub fn lower_char(c: char) -> (r: char)
    ensures
        r == lower(c),
{
    if 'A' <= c && c <= 'Z' {
        ((c as u8) + 32) as char
    } else {
        c
    }
}

/// The characters of `s` with ASCII letters in lower case.
pub fn lower_chars(s: &str) -> (r: Vec<char>)
    ensures
        r@ == lower_text(s@),
{
    let x = chars_of(s);
    let mut out: Vec<char> = Vec::new();
    for i in 0..x.len()
        invariant
            x@ == s@,
            out@ == lower_text(s@.take(i as int)),
    {
        out.push(lower_char(x[i]));
        assert(lower_text(s@.take(i + 1)) =~= lower_text(s@.take(i as int)).push(
            lower(s@[i as int]),
        ));
    }
    assert(s@.take(x.len() as int) =~= s@);
    out
}

/// Whether two texts differ at most in the case of ASCII letters.
pub fn same_ignoring_case(a: &str, b: &str) -> (r: bool)
    ensures
        r == (lower_text(a@) == lower_text(b@)),
{
    let x = lower_chars(a);
    let y = lower_chars(b);
    same_chars(&x, &y)
}

// ---------------------------------------------------------------------------
// Splitting at a character
// ---------------------------------------------------------------------------

/// How many characters of `s` stand before the first `c`; all of them if there
/// is none.
pub open spec fn span(s: Seq<char>, c: char) -> int
    decreases s.len(),
{
    if s.len() == 0 || s[0] == c {
        0
    } else {
        1 + span(s.drop_first(), c)
    }
}

/// The text before the first `c`.
pub open spec fn before(s: Seq<char>, c: char) -> Seq<char> {
    s.take(span(s, c))
}

/// The text behind the first `c`; empty if there is none.
pub open spec fn after(s: Seq<char>, c: char) -> Seq<char> {
    if span(s, c) < s.len() {
        s.skip(span(s, c) + 1)
    } else {
        Seq::empty()
    }
}

/// `span` stops at the first `c` or at the end, and nothing before it is `c`.
pub proof fn lemma_span(s: Seq<char>, c: char)
    ensures
        0 <= span(s, c) <= s.len(),
        span(s, c) < s.len() ==> s[span(s, c)] == c,
        forall|k: int| 0 <= k < span(s, c) ==> s[k] != c,
        s.contains(c) <==> span(s, c) < s.len(),
    decreases s.len(),
{
    if s.len() > 0 && s[0] != c {
        let t = s.drop_first();
        lemma_span(t, c);
        assert forall|k: int| 0 <= k < span(s, c) implies s[k] != c by {
            if k > 0 {
                assert(t[k - 1] == s[k]);
            }
        }
        if span(t, c) < t.len() {
            assert(s[span(t, c) + 1] == t[span(t, c)]);
        }
    }
}

/// A position with nothing equal to `c` before it, and `c` at it or the end,
/// is the span.
pub proof fn lemma_span_is(s: Seq<char>, c: char, n: int)
    requires
        0 <= n <= s.len(),
        forall|k: int| 0 <= k < n ==> s[k] != c,
        n < s.len() ==> s[n] == c,
    ensures
        span(s, c) == n,
{
    lemma_span(s, c);
    if n < span(s, c) {
        assert(s[n] == c);
    } else if span(s, c) < n {
        assert(s[span(s, c)] == c);
    }
}

/// The pieces of `s` between the occurrences of `c`: at least one, and one more
/// than there are occurrences.
pub open spec fn split(s: Seq<char>, c: char) -> Seq<Seq<char>>
    decreases s.len(),
{
    if s.contains(c) {
        proof {
            lemma_span(s, c);
        }
        seq![before(s, c)] + split(after(s, c), c)
    } else {
        seq![s]
    }
}

/// The pieces joined by `sep`.
pub open spec fn join(parts: Seq<Seq<char>>, sep: Seq<char>) -> Seq<char>
    decreases parts.len(),
{
    if parts.len() == 0 {
        Seq::empty()
    } else if parts.len() == 1 {
        parts[0]
    } else {
        parts[0] + sep + join(parts.drop_first(), sep)
    }
}

/// Whether no piece holds `c`.
pub open spec fn free_of(parts: Seq<Seq<char>>, c: char) -> bool {
    forall|i: int| 0 <= i < parts.len() ==> !(#[trigger] parts[i]).contains(c)
}

/// There is a piece, and no piece holds the separator.
pub proof fn lemma_split_pieces(s: Seq<char>, c: char)
    ensures
        split(s, c).len() >= 1,
        free_of(split(s, c), c),
    decreases s.len(),
{
    if s.contains(c) {
        lemma_span(s, c);
        let rest = split(after(s, c), c);
        lemma_split_pieces(after(s, c), c);
        assert forall|i: int| 0 <= i < split(s, c).len() implies !(#[trigger] split(
            s,
            c,
        )[i]).contains(c) by {
            if i > 0 {
                assert(split(s, c)[i] == rest[i - 1]);
            }
        }
    }
}

/// A text with `c` behind a part free of `c` splits there.
pub proof fn lemma_span_of_joined(head: Seq<char>, c: char, tail: Seq<char>)
    requires
        !head.contains(c),
    ensures
        span(head + seq![c] + tail, c) == head.len(),
        before(head + seq![c] + tail, c) == head,
        after(head + seq![c] + tail, c) == tail,
        (head + seq![c] + tail).contains(c),
{
    let s = head + seq![c] + tail;
    assert forall|k: int| 0 <= k < head.len() implies s[k] != c by {
        assert(s[k] == head[k]);
    }
    assert(s[head.len() as int] == c);
    lemma_span_is(s, c, head.len() as int);
    assert(before(s, c) =~= head);
    assert(after(s, c) =~= tail);
}

/// A text free of `c` is its own part before `c`.
pub proof fn lemma_span_of_free(s: Seq<char>, c: char)
    requires
        !s.contains(c),
    ensures
        span(s, c) == s.len(),
        before(s, c) == s,
        after(s, c) == Seq::<char>::empty(),
{
    lemma_span(s, c);
    assert(before(s, c) =~= s);
}

/// Splitting undoes joining, where no piece holds the separator.
pub proof fn lemma_split_of_joined(parts: Seq<Seq<char>>, c: char)
    requires
        parts.len() >= 1,
        free_of(parts, c),
    ensures
        split(join(parts, seq![c]), c) == parts,
    decreases parts.len(),
{
    if parts.len() == 1 {
        assert(!parts[0].contains(c));
        assert(seq![parts[0]] =~= parts);
    } else {
        let rest = parts.drop_first();
        assert forall|i: int| 0 <= i < rest.len() implies !(#[trigger] rest[i]).contains(c) by {
            assert(rest[i] == parts[i + 1]);
        }
        lemma_split_of_joined(rest, c);
        assert(!parts[0].contains(c));
        lemma_span_of_joined(parts[0], c, join(rest, seq![c]));
        assert(seq![parts[0]] + rest =~= parts);
    }
}

/// The number of characters before the first `c`, from position `from` on.
pub fn find_char_from(s: &Vec<char>, c: char, from: usize) -> (r: usize)
    requires
        from <= s.len(),
    ensures
        from <= r <= s.len(),
        r == from + span(s@.skip(from as int), c),
{
    let mut i: usize = from;
    while i < s.len() && s[i] != c
        invariant
            from <= i <= s.len(),
            forall|k: int| from <= k < i ==> s@[k] != c,
        decreases s.len() - i,
    {
        i = i + 1;
    }
    proof {
        lemma_span_is(s@.skip(from as int), c, i - from);
    }
    i
}

/// The text before the first `c`.
pub fn text_before(s: &str, c: char) -> (r: String)
    ensures
        r@ == before(s@, c),
{
    let x = chars_of(s);
    let n = find_char_from(&x, c, 0);
    assert(s@.skip(0) =~= s@);
    slice_text(s, 0, n)
}

/// The text behind the first `c`; empty if there is none.
pub fn text_after(s: &str, c: char) -> (r: String)
    ensures
        r@ == after(s@, c),
{
    let x = chars_of(s);
    let n = find_char_from(&x, c, 0);
    assert(s@.skip(0) =~= s@);
    if n < x.len() {
        slice_text(s, n + 1, x.len())
    } else {
        String::new()
    }
}

/// Whether `c` stands in `s`.
pub fn text_has_char(s: &str, c: char) -> (r: bool)
    ensures
        r == s@.contains(c),
{
    let x = chars_of(s);
    let n = find_char_from(&x, c, 0);
    assert(s@.skip(0) =~= s@);
    proof {
        lemma_span(s@, c);
    }
    n < x.len()
}

/// The pieces of `s` between the occurrences of `c`.
pub fn split_text(s: &str, c: char) -> (r: Vec<String>)
    ensures
        texts(r@) == split(s@, c),
        r.len() >= 1,
{
    let x = chars_of(s);
    let mut out: Vec<String> = Vec::new();
    let mut start: usize = 0;
    assert(s@.skip(0) =~= s@);
    loop
        invariant
            x@ == s@,
            start <= x.len(),
            split(s@, c) =~= texts(out@) + split(s@.skip(start as int), c),
        decreases x.len() - start,
    {
        let end = find_char_from(&x, c, start);
        let ghost rest = s@.skip(start as int);
        proof {
            lemma_span(rest, c);
        }
        let piece = slice_text(s, start, end);
        assert(piece@ =~= before(rest, c));
        let ghost done = texts(out@);
        out.push(piece);
        assert(texts(out@) =~= done.push(piece@));
        if end < x.len() {
            assert(after(rest, c) =~= s@.skip(end + 1));
            start = end + 1;
        } else {
            assert(before(rest, c) =~= rest);
            return out;
        }
    }
}

/// The pieces joined by `sep`.
pub fn join_texts(parts: &Vec<String>, sep: &str) -> (r: String)
    ensures
        r@ == join(texts(parts@), sep@),
{
    let mut out = String::new();
    let mut i: usize = parts.len();
    assert(texts(parts@).skip(parts.len() as int) =~= Seq::<Seq<char>>::empty());
    while i > 0
        invariant
            i <= parts.len(),
            out@ == join(texts(parts@).skip(i as int), sep@),
        decreases i,
    {
        i = i - 1;
        let ghost rest = texts(parts@).skip(i as int);
        assert(rest.drop_first() =~= texts(parts@).skip(i + 1));
        assert(rest[0] == parts@[i as int]@);
        if i + 1 == parts.len() {
            out = parts[i].clone();
        } else {
            let head = joined(parts[i].as_str(), sep);
            out = joined(head.as_str(), out.as_str());
        }
    }
    assert(texts(parts@).skip(0) =~= texts(parts@));
    out
}

// ---------------------------------------------------------------------------
// White space
// ---------------------------------------------------------------------------

/// The characters with the Unicode property `White_Space`.
pub open spec fn is_space(c: char) -> bool {
    let n = c as u32;
    ||| 0x09 <= n <= 0x0d
    ||| n == 0x20
    ||| n == 0x85
    ||| n == 0xa0
    ||| n == 0x1680
    ||| 0x2000 <= n <= 0x200a
    ||| n == 0x2028
    ||| n == 0x2029
    ||| n == 0x202f
    ||| n == 0x205f
    ||| n == 0x3000
}

/// Whether `c` has the Unicode property `White_Space`.
pub fn space_char(c: char) -> (r: bool)
    ensures
        r == is_space(c),
{
    let n: u32 = c as u32;
    (0x09 <= n && n <= 0x0d) || n == 0x20 || n == 0x85 || n == 0xa0 || n == 0x1680 || (0x2000 <= n
        && n <= 0x200a) || n == 0x2028 || n == 0x2029 || n == 0x202f || n == 0x205f || n == 0x3000
}

/// `s` without the white space at its start.
pub open spec fn trim_start(s: Seq<char>) -> Seq<char>
    decreases s.len(),
{
    if s.len() > 0 && is_space(s[0]) {
        trim_start(s.drop_first())
    } else {
        s
    }
}

/// `s` without the white space at its end.
pub open spec fn trim_end(s: Seq<char>) -> Seq<char>
    decreases s.len(),
{
    if s.len() > 0 && is_space(s.last()) {
        trim_end(s.drop_last())
    } else {
        s
    }
}

/// `s` without the white space at either end.
pub open spec fn trim(s: Seq<char>) -> Seq<char> {
    trim_end(trim_start(s))
}

/// `s` without the white space at its start.
pub fn trim_start_text(s: &str) -> (r: String)
    ensures
        r@ == trim_start(s@),
{
    let x = chars_of(s);
    let mut i: usize = 0;
    assert(s@.skip(0) =~= s@);
    while i < x.len() && space_char(x[i])
        invariant
            x@ == s@,
            i <= x.len(),
            trim_start(s@) == trim_start(s@.skip(i as int)),
        decreases x.len() - i,
    {
        assert(s@.skip(i as int).drop_first() =~= s@.skip(i + 1));
        i = i + 1;
    }
    slice_text(s, i, x.len())
}

/// `s` without the white space at its end.
pub fn trim_end_text(s: &str) -> (r: String)
    ensures
        r@ == trim_end(s@),
{
    let x = chars_of(s);
    let mut n: usize = x.len();
    assert(s@.take(s@.len() as int) =~= s@);
    while n > 0 && space_char(x[n - 1])
        invariant
            x@ == s@,
            n <= x.len(),
            trim_end(s@) == trim_end(s@.take(n as int)),
        decreases n,
    {
        assert(s@.take(n as int).drop_last() =~= s@.take(n - 1));
        n = n - 1;
    }
    slice_text(s, 0, n)
}

/// `s` without the white space at either end.
pub fn trim_text(s: &str) -> (r: String)
    ensures
        r@ == trim(s@),
{
    let t = trim_start_text(s);
    trim_end_text(t.as_str())
}

/// How many characters of `s` stand before its first white space.
pub open spec fn word_len(s: Seq<char>) -> int
    decreases s.len(),
{
    if s.len() == 0 || is_space(s[0]) {
        0
    } else {
        1 + word_len(s.drop_first())
    }
}

/// The first word of `s`: its first run of characters that are not white
/// space; empty if there is none.
pub open spec fn first_word(s: Seq<char>) -> Seq<char> {
    let t = trim_start(s);
    t.take(word_len(t))
}

/// The first word of `s`; empty if there is none.
pub fn first_word_text(s: &str) -> (r: String)
    ensures
        r@ == first_word(s@),
{
    let t = trim_start_text(s);
    let x = chars_of(t.as_str());
    let mut i: usize = 0;
    assert(t@.skip(0) =~= t@);
    while i < x.len() && !space_char(x[i])
        invariant
            x@ == t@,
            i <= x.len(),
            word_len(t@) == i + word_len(t@.skip(i as int)),
        decreases x.len() - i,
    {
        assert(t@.skip(i as int).drop_first() =~= t@.skip(i + 1));
        i = i + 1;
    }
    slice_text(t.as_str(), 0, i)
}

// ---------------------------------------------------------------------------
// Numbers
// ---------------------------------------------------------------------------

/// The decimal digit of a number below ten.
pub open spec fn digit(d: int) -> char {
    ('0' as u32 + d) as char
}

/// The decimal digits of `n`, without leading zeros.
pub open spec fn decimal(n: nat) -> Seq<char>
    decreases n,
{
    if n < 10 {
        seq![digit(n as int)]
    } else {
        decimal(n / 10).push(digit((n % 10) as int))
    }
}

/// `s` filled with zeros at the front to a length of at least `width`.
pub open spec fn zero_filled(s: Seq<char>, width: int) -> Seq<char> {
    if s.len() < width {
        Seq::new((width - s.len()) as nat, |i: int| '0') + s
    } else {
        s
    }
}

/// The decimal digits of `n`, without leading zeros.
pub fn decimal_text(n: u64) -> (r: String)
    ensures
        r@ == decimal(n as nat),
    decreases n,
{
    let mut out = if n < 10 {
        String::new()
    } else {
        decimal_text(n / 10)
    };
    out.push((48 + (n % 10) as u8) as char);
    assert(out@ =~= decimal(n as nat));
    out
}

/// `s` filled with zeros at the front to a length of at least `width`.
pub fn zero_filled_text(s: &str, width: usize) -> (r: String)
    ensures
        r@ == zero_filled(s@, width as int),
{
    let n = s.unicode_len();
    let mut out = s.to_owned();
    let mut k: usize = n;
    while k < width
        invariant
            n == s@.len(),
            n <= k,
            k <= width || k == n,
            out@ == zero_filled(s@, k as int),
        decreases width - k,
    {
        proof {
            reveal_strlit("0");
        }
        out = joined("0", out.as_str());
        k = k + 1;
        assert(out@ =~= zero_filled(s@, k as int));
    }
    out
}

/// Whether `c` is an ASCII decimal digit.
pub open spec fn is_digit(c: char) -> bool {
    '0' <= c <= '9'
}

/// The value of a text of decimal digits.
pub open spec fn digits_value(s: Seq<char>) -> nat
    decreases s.len(),
{
    if s.len() == 0 {
        0
    } else {
        digits_value(s.drop_last()) * 10 + (s.last() as u32 - '0' as u32) as nat
    }
}

/// `s` without one leading plus sign.
pub open spec fn without_plus(s: Seq<char>) -> Seq<char> {
    if s.len() > 0 && s[0] == '+' {
        s.drop_first()
    } else {
        s
    }
}

/// The number that `s` writes in decimal, with an optional plus sign, where it
/// fits in 32 bits.
pub open spec fn parsed_u32(s: Seq<char>) -> Option<u32> {
    let t = without_plus(s);
    if t.len() > 0 && (forall|i: int| 0 <= i < t.len() ==> is_digit(#[trigger] t[i]))
        && digits_value(t) <= u32::MAX {
        Some(digits_value(t) as u32)
    } else {
        None
    }
}

/// A longer text of digits has no smaller value.
proof fn lemma_digits_value_grows(s: Seq<char>, n: int)
    requires
        0 <= n <= s.len(),
        forall|i: int| 0 <= i < s.len() ==> is_digit(#[trigger] s[i]),
    ensures
        digits_value(s.take(n)) <= digits_value(s),
    decreases s.len() - n,
{
    if n < s.len() {
        let t = s.drop_last();
        assert(t.take(n) =~= s.take(n));
        lemma_digits_value_grows(t, n);
    } else {
        assert(s.take(n) =~= s);
    }
}

/// The number that `s` writes in decimal, if it does and fits in 32 bits.
pub fn parse_u32(s: &str) -> (r: Option<u32>)
    ensures
        r == parsed_u32(s@),
{
    let x = chars_of(s);
    let start: usize = if x.len() > 0 && x[0] == '+' {
        1
    } else {
        0
    };
    let ghost t = without_plus(s@);
    assert(t =~= s@.skip(start as int));
    if start == x.len() {
        return None;
    }
    let mut value: u64 = 0;
    let mut fits: bool = true;
    for i in start..x.len()
        invariant
            x@ == s@,
            start <= x.len(),
            t == without_plus(s@),
            t == s@.skip(start as int),
            forall|k: int| 0 <= k < i - start ==> is_digit(#[trigger] t[k]),
            fits ==> value == digits_value(t.take(i - start)) && value <= u32::MAX,
            !fits ==> digits_value(t.take(i - start)) > u32::MAX,
    {
        let c = x[i];
        assert(t[i - start] == c);
        if !('0' <= c && c <= '9') {
            assert(!is_digit(t[i - start]));
            return None;
        }
        let ghost longer = t.take(i - start + 1);
        assert(longer.drop_last() =~= t.take(i - start));
        assert(longer.last() == c);
        if fits {
            value = value * 10 + ((c as u32) - ('0' as u32)) as u64;
            if value > 0xffff_ffff {
                fits = false;
            }
        }
    }
    assert(t.take(t.len() as int) =~= t);
    if fits {
        Some(value as u32)
    } else {
        None
    }
}

// ---------------------------------------------------------------------------
// Laws
// ---------------------------------------------------------------------------

/// Lower case changes the ASCII capitals into their small letters, 32 places
/// further on, and leaves every other character and the length as they are.
pub proof fn law_lower_case(s: Seq<char>, i: int)
    requires
        0 <= i < s.len(),
    ensures
        lower_text(s).len() == s.len(),
        65 <= s[i] as int <= 90 ==> lower_text(s)[i] as int == s[i] as int + 32,
        !(65 <= s[i] as int <= 90) ==> lower_text(s)[i] == s[i],
{
}

/// A text stands in another exactly where that one is cut into what comes before,
/// the text itself and what comes behind.
pub proof fn law_a_part_is_found(head: Seq<char>, part: Seq<char>, tail: Seq<char>)
    ensures
        occurs_at(head + part + tail, part, head.len() as int),
        contains(head + part + tail, part),
        ends_with(head + part, part),
        find(head + part + tail, part) matches Some(i) && 0 <= i <= head.len(),
{
    let s = head + part + tail;
    assert(s.subrange(head.len() as int, (head.len() + part.len()) as int) =~= part);
    assert((head + part).subrange(head.len() as int, (head.len() + part.len()) as int) =~= part);
    assert(occurs_at(s, part, head.len() as int));
    lemma_find_from(s, part, 0);
}

/// Where a text stands in another, that one is cut into what comes before, the
/// text itself and what comes behind; and it does not stand there any earlier
/// than where it is found.
pub proof fn law_what_is_found_is_there(s: Seq<char>, part: Seq<char>, i: int, j: int)
    requires
        find(s, part) == Some(i),
        0 <= j,
        j + part.len() <= s.len(),
    ensures
        0 <= i,
        i + part.len() <= s.len(),
        s == s.take(i) + part + s.skip((i + part.len()) as int),
        s.subrange(j, (j + part.len()) as int) == part ==> i <= j,
        contains(s, part),
{
    lemma_find_from(s, part, 0);
    assert(s =~= s.take(i) + s.subrange(i, (i + part.len()) as int) + s.skip(
        (i + part.len()) as int,
    ));
    assert(s.subrange(j, (j + part.len()) as int) == part ==> occurs_at(s, part, j));
}

/// A text that is not contained in another stands nowhere in it.
pub proof fn law_what_is_not_found_is_not_there(s: Seq<char>, part: Seq<char>, j: int)
    requires
        find(s, part) is None || !contains(s, part),
        0 <= j,
        j + part.len() <= s.len(),
    ensures
        s.subrange(j, (j + part.len()) as int) != part,
{
    lemma_find_from(s, part, 0);
    lemma_find_contains(s, part);
    if s.subrange(j, (j + part.len()) as int) == part {
        assert(occurs_at(s, part, j));
    }
}

/// A text is cut at the first of the characters that are looked for: what comes
/// before it holds none, and nothing is lost. Without one it is not cut.
pub proof fn law_a_text_is_cut_at_the_first(s: Seq<char>, c: char)
    ensures
        !before(s, c).contains(c),
        s.contains(c) ==> s == before(s, c) + seq![c] + after(s, c),
        !s.contains(c) ==> before(s, c) == s && after(s, c) == Seq::<char>::empty(),
{
    lemma_span(s, c);
    if before(s, c).contains(c) {
        let k = choose|k: int| 0 <= k < before(s, c).len() && before(s, c)[k] == c;
        assert(s[k] == c);
    }
    if s.contains(c) {
        assert(s =~= before(s, c) + seq![c] + after(s, c));
    } else {
        assert(before(s, c) =~= s);
    }
}

/// Splitting loses nothing: the pieces, none of which holds the separator, make
/// the text again.
pub proof fn law_the_pieces_make_the_text(s: Seq<char>, c: char)
    ensures
        join(split(s, c), seq![c]) == s,
        forall|i: int| 0 <= i < split(s, c).len() ==> !(#[trigger] split(s, c)[i]).contains(c),
    decreases s.len(),
{
    lemma_split_pieces(s, c);
    if s.contains(c) {
        lemma_span(s, c);
        let rest = split(after(s, c), c);
        law_the_pieces_make_the_text(after(s, c), c);
        law_a_text_is_cut_at_the_first(s, c);
        lemma_split_pieces(after(s, c), c);
        assert(split(s, c).drop_first() =~= rest);
        assert(split(s, c)[0] == before(s, c));
    }
}

/// Whether a text is nothing but white space.
pub open spec fn blank(s: Seq<char>) -> bool {
    forall|i: int| 0 <= i < s.len() ==> is_space(#[trigger] s[i])
}

/// The white space of ASCII: the space and the five control characters from the
/// tab on, and nothing else.
pub proof fn law_ascii_white_space(c: char)
    requires
        (c as int) < 128,
    ensures
        is_space(c) <==> c == ' ' || c == '\t' || c == '\n' || c == '\r' || c as int == 11
            || c as int == 12,
{
}

/// Trimming takes white space from both ends and nothing more.
pub proof fn law_trimming_takes_the_blank_ends(lead: Seq<char>, core: Seq<char>, tail: Seq<char>)
    requires
        blank(lead),
        blank(tail),
        core.len() > 0 ==> !is_space(core[0]) && !is_space(core.last()),
    ensures
        trim(lead + core + tail) == core,
{
    lemma_trim_start(lead, core + tail);
    assert(lead + core + tail =~= lead + (core + tail));
    if core.len() > 0 {
        assert((core + tail)[0] == core[0]);
        lemma_trim_end(core, tail);
    } else {
        assert(core + tail =~= tail + Seq::<char>::empty());
        lemma_trim_start(tail, Seq::<char>::empty());
        lemma_trim_start(lead + tail, Seq::<char>::empty());
        assert(lead + core + tail =~= lead + tail + Seq::<char>::empty());
        assert(core =~= Seq::<char>::empty());
    }
}

/// White space in front is taken.
proof fn lemma_trim_start(lead: Seq<char>, rest: Seq<char>)
    requires
        blank(lead),
    ensures
        rest.len() == 0 || !is_space(rest[0]) ==> trim_start(lead + rest) == rest,
    decreases lead.len(),
{
    let s = lead + rest;
    if lead.len() > 0 {
        assert(s[0] == lead[0]);
        assert(s.drop_first() =~= lead.drop_first() + rest);
        assert(blank(lead.drop_first())) by {
            assert forall|i: int| 0 <= i < lead.drop_first().len() implies is_space(
                #[trigger] lead.drop_first()[i],
            ) by {
                assert(lead.drop_first()[i] == lead[i + 1]);
            }
        }
        lemma_trim_start(lead.drop_first(), rest);
    } else {
        assert(s =~= rest);
    }
}

/// White space at the end is taken.
proof fn lemma_trim_end(rest: Seq<char>, tail: Seq<char>)
    requires
        blank(tail),
    ensures
        rest.len() == 0 || !is_space(rest.last()) ==> trim_end(rest + tail) == rest,
    decreases tail.len(),
{
    let s = rest + tail;
    if tail.len() > 0 {
        assert(s.last() == tail.last());
        assert(is_space(tail[tail.len() - 1]));
        assert(s.drop_last() =~= rest + tail.drop_last());
        assert(blank(tail.drop_last()));
        lemma_trim_end(rest, tail.drop_last());
    } else {
        assert(s =~= rest);
    }
}

/// The first word of a text is what stands between the white space in front and
/// the next, all of it.
pub proof fn law_the_first_word(lead: Seq<char>, word: Seq<char>, tail: Seq<char>)
    requires
        blank(lead),
        word.len() > 0,
        forall|i: int| 0 <= i < word.len() ==> !is_space(#[trigger] word[i]),
        tail.len() == 0 || is_space(tail[0]),
    ensures
        first_word(lead + word + tail) == word,
{
    assert(lead + word + tail =~= lead + (word + tail));
    assert((word + tail)[0] == word[0]);
    lemma_trim_start(lead, word + tail);
    lemma_word_len(word, tail);
    assert((word + tail).take(word.len() as int) =~= word);
}

/// A word ends where white space begins.
proof fn lemma_word_len(word: Seq<char>, tail: Seq<char>)
    requires
        forall|i: int| 0 <= i < word.len() ==> !is_space(#[trigger] word[i]),
        tail.len() == 0 || is_space(tail[0]),
    ensures
        word_len(word + tail) == word.len(),
    decreases word.len(),
{
    let s = word + tail;
    if word.len() > 0 {
        assert(s[0] == word[0]);
        assert(s.drop_first() =~= word.drop_first() + tail);
        assert forall|i: int| 0 <= i < word.drop_first().len() implies !is_space(
            #[trigger] word.drop_first()[i],
        ) by {
            assert(word.drop_first()[i] == word[i + 1]);
        }
        lemma_word_len(word.drop_first(), tail);
    } else {
        assert(s =~= tail);
    }
}

/// A number that is written is read as itself; it is written in digits alone, and
/// without a zero in front unless it is zero.
pub proof fn law_numbers_are_read_as_written(n: nat)
    ensures
        digits_value(decimal(n)) == n,
        decimal(n).len() >= 1,
        forall|i: int| 0 <= i < decimal(n).len() ==> '0' <= #[trigger] decimal(n)[i] <= '9',
        n > 0 ==> decimal(n)[0] != '0',
        n <= u32::MAX ==> parsed_u32(decimal(n)) == Some(n as u32),
    decreases n,
{
    if n >= 10 {
        law_numbers_are_read_as_written(n / 10);
        assert(decimal(n).drop_last() =~= decimal(n / 10));
        assert forall|i: int| 0 <= i < decimal(n).len() implies '0' <= #[trigger] decimal(n)[i]
            <= '9' by {
            if i < decimal(n).len() - 1 {
                assert(decimal(n)[i] == decimal(n / 10)[i]);
            }
        }
        assert(decimal(n)[0] == decimal(n / 10)[0]);
    } else {
        assert(decimal(n).drop_last() =~= Seq::<char>::empty());
        assert(decimal(n).last() == digit(n as int));
        assert(digits_value(Seq::<char>::empty()) == 0);
    }
    assert(decimal(n)[0] != '+');
    assert(without_plus(decimal(n)) == decimal(n));
}

/// Each further digit counts ten times what stands before it, and itself.
pub proof fn law_digits_count_by_ten(s: Seq<char>, d: int)
    requires
        0 <= d <= 9,
    ensures
        digits_value(s.push((48 + d) as char)) == 10 * digits_value(s) + d,
{
    assert(s.push((48 + d) as char).drop_last() =~= s);
}

/// Filling with zeros gives the width, at least, and does not change the number.
pub proof fn law_zeros_do_not_count(s: Seq<char>, width: int)
    requires
        0 <= width,
    ensures
        digits_value(zero_filled(s, width)) == digits_value(s),
        zero_filled(s, width).len() == if s.len() < width {
            width
        } else {
            s.len() as int
        },
    decreases width - s.len(),
{
    if s.len() < width {
        let zeros = Seq::new((width - s.len()) as nat, |i: int| '0');
        lemma_zeros_in_front(zeros, s);
    }
}

/// Zeros in front do not change the number.
proof fn lemma_zeros_in_front(zeros: Seq<char>, s: Seq<char>)
    requires
        forall|i: int| 0 <= i < zeros.len() ==> #[trigger] zeros[i] == '0',
    ensures
        digits_value(zeros + s) == digits_value(s),
    decreases zeros.len() + s.len(),
{
    if s.len() > 0 {
        assert((zeros + s).drop_last() =~= zeros + s.drop_last());
        assert((zeros + s).last() == s.last());
        lemma_zeros_in_front(zeros, s.drop_last());
    } else if zeros.len() > 0 {
        assert(zeros + s =~= zeros);
        assert(zeros.drop_last() + s =~= zeros.drop_last());
        assert(zeros.last() == '0');
        lemma_zeros_in_front(zeros.drop_last(), s);
    } else {
        assert(zeros + s =~= s);
    }
}

/// White space beyond ASCII: the next line, the spaces of fixed and of no break,
/// and the separators of lines and paragraphs, and nothing else.
pub proof fn law_other_white_space(c: char)
    requires
        (c as int) >= 128,
    ensures
        is_space(c) <==> c as int == 0x85 || c as int == 0xa0 || c as int == 0x1680 || 0x2000
            <= c as int <= 0x200a || c as int == 0x2028 || c as int == 0x2029 || c as int
            == 0x202f || c as int == 0x205f || c as int == 0x3000,
{
}

/// White space at the end is taken, and nothing more.
pub proof fn law_trimming_the_end(core: Seq<char>, tail: Seq<char>)
    requires
        blank(tail),
        core.len() > 0 ==> !is_space(core.last()),
    ensures
        trim_end(core + tail) == core,
{
    lemma_trim_end(core, tail);
}

} // verus!
