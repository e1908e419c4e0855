//! Undoing the content encoding of a response body.

use std::io::Read;

use vstd::prelude::*;
use vstd::string::*;

use crate::http::{copy_bytes, field_text, fields, get_header_text, Header};
use crate::text::{chars_of, contains, find_chars, lemma_find_contains, lower_chars, lower_text};

verus! {

/// The bytes that a gzip stream holds, if it can be read to its end: what
/// `flate2::read::GzDecoder` gives.
pub uninterp spec fn gzip_contents(b: Seq<u8>) -> Option<Seq<u8>>;

/// The bytes that a zlib stream holds, if it can be read to its end: what
/// `flate2::read::ZlibDecoder` gives.
pub uninterp spec fn zlib_contents(b: Seq<u8>) -> Option<Seq<u8>>;

/// The bytes that a brotli stream holds, if it can be read to its end: what
/// `brotli::Decompressor` gives.
pub uninterp spec fn brotli_contents(b: Seq<u8>) -> Option<Seq<u8>>;

/// The bytes of an optional list.
pub open spec fn opt_bytes(o: Option<Vec<u8>>) -> Option<Seq<u8>> {
    match o {
        Some(v) => Some(v@),
        None => None,
    }
}

/// Reads `flate2::read::GzDecoder` over `b` to its end. Claimed is that the
/// outcome depends on the bytes alone; `None` stands for any error.
#[verifier::external_body]
fn decode_gzip(b: &[u8]) -> (r: Option<Vec<u8>>)
    ensures
        opt_bytes(r) == gzip_contents(b@),
{
    let mut out: Vec<u8> = Vec::new();
    flate2::read::GzDecoder::new(b).read_to_end(&mut out).ok().map(|_| out)
}

/// Reads `flate2::read::ZlibDecoder` over `b` to its end. Claimed is that the
/// outcome depends on the bytes alone; `None` stands for any error.
#[verifier::external_body]
fn decode_deflate(b: &[u8]) -> (r: Option<Vec<u8>>)
    ensures
        opt_bytes(r) == zlib_contents(b@),
{
    let mut out: Vec<u8> = Vec::new();
    flate2::read::ZlibDecoder::new(b).read_to_end(&mut out).ok().map(|_| out)
}

/// Reads `brotli::Decompressor` over `b` to its end. Claimed is that the
/// outcome depends on the bytes alone; `None` stands for any error.
#[verifier::external_body]
fn decode_brotli(b: &[u8]) -> (r: Option<Vec<u8>>)
    ensures
        opt_bytes(r) == brotli_contents(b@),
{
    let mut out: Vec<u8> = Vec::new();
    brotli::Decompressor::new(b, 4096).read_to_end(&mut out).ok().map(|_| out)
}

/// The text of a header in lower case, empty where there is none.
pub open spec fn lower_field(headers: Seq<(Seq<char>, Seq<u8>)>, name: Seq<char>) -> Seq<char> {
    match field_text(headers, name) {
        Some(t) => lower_text(t),
        None => Seq::empty(),
    }
}

/// The text of a header in lower case, empty where there is none.
pub fn lower_header(headers: &Vec<Header>, name: &str) -> (r: Vec<char>)
    ensures
        r@ == lower_field(fields(headers@), name@),
{
    match get_header_text(headers, name) {
        Some(t) => lower_chars(t.as_str()),
        None => Vec::new(),
    }
}

/// A content encoding that is undone here.
#[derive(Clone, Copy, Debug, PartialEq, Eq, Structural)]
pub enum Coding {
    Gzip,
    Deflate,
    Brotli,
    Plain,
}

/// The coding that the value of a `content-encoding` header names.
pub open spec fn coding_of(encoding: Seq<char>) -> Coding {
    if contains(encoding, "gzip"@) {
        Coding::Gzip
    } else if contains(encoding, "deflate"@) {
        Coding::Deflate
    } else if contains(encoding, "br"@) {
        Coding::Brotli
    } else {
        Coding::Plain
    }
}

/// Whether `p` stands in `s`.
fn holds(s: &Vec<char>, p: &str) -> (r: bool)
    ensures
        r == contains(s@, p@),
{
    let y = chars_of(p);
    proof {
        lemma_find_contains(s@, p@);
    }
    find_chars(s, &y).is_some()
}

/// The coding that the value of a `content-encoding` header, in lower case,
/// names.
pub fn coding_named(encoding: &Vec<char>) -> (r: Coding)
    ensures
        r == coding_of(encoding@),
{
    if holds(encoding, "gzip") {
        Coding::Gzip
    } else if holds(encoding, "deflate") {
        Coding::Deflate
    } else if holds(encoding, "br") {
        Coding::Brotli
    } else {
        Coding::Plain
    }
}

/// What a decoder made of the body, or the body as it came where it made
/// nothing of it.
pub open spec fn or_raw(decoded: Option<Seq<u8>>, raw: Seq<u8>) -> Seq<u8> {
    match decoded {
        Some(b) => b,
        None => raw,
    }
}

/// What a decoder made of the body, or the body as it came where it made
/// nothing of it.
pub fn decoded_or_raw(decoded: Option<Vec<u8>>, raw: &Vec<u8>) -> (r: Vec<u8>)
    ensures
        r@ == or_raw(opt_bytes(decoded), raw@),
{
    match decoded {
        Some(b) => b,
        None => copy_bytes(raw),
    }
}

/// A body with its coding undone.
pub open spec fn plain_body(coding: Coding, raw: Seq<u8>) -> Seq<u8> {
    match coding {
        Coding::Gzip => or_raw(gzip_contents(raw), raw),
        Coding::Deflate => or_raw(zlib_contents(raw), raw),
        Coding::Brotli => or_raw(brotli_contents(raw), raw),
        Coding::Plain => raw,
    }
}

/// A body with its coding undone; one that cannot be decoded stays as it came.
pub fn undo_coding(coding: Coding, raw: &Vec<u8>) -> (r: Vec<u8>)
    ensures
        r@ == plain_body(coding, raw@),
{
    match coding {
        Coding::Gzip => decoded_or_raw(decode_gzip(raw.as_slice()), raw),
        Coding::Deflate => decoded_or_raw(decode_deflate(raw.as_slice()), raw),
        Coding::Brotli => decoded_or_raw(decode_brotli(raw.as_slice()), raw),
        Coding::Plain => copy_bytes(raw),
    }
}

// ---------------------------------------------------------------------------
// Laws
// ---------------------------------------------------------------------------

/// A header is read in lower case where it is readable, and as nothing where it is
/// not or is missing.
pub proof fn law_headers_are_read_in_lower_case(
    headers: Seq<(Seq<char>, Seq<u8>)>,
    name: Seq<char>,
)
    ensures
        field_text(headers, name) matches Some(t) ==> lower_field(headers, name) == lower_text(t),
        field_text(headers, name) is None ==> lower_field(headers, name) == Seq::<char>::empty(),
{
}

/// A coding is undone by the decoder of the first of three names that its header
/// holds; what that decoder cannot read stays as it came, and so does what names
/// none of them.
pub proof fn law_each_coding_has_its_decoder(encoding: Seq<char>, raw: Seq<u8>)
    ensures
        ({
            let plain = plain_body(coding_of(encoding), raw);
            let gzip = contains(encoding, "gzip"@);
            let deflate = !gzip && contains(encoding, "deflate"@);
            let brotli = !gzip && !deflate && contains(encoding, "br"@);
            &&& gzip && gzip_contents(raw) is Some ==> plain == gzip_contents(raw)->0
            &&& gzip && gzip_contents(raw) is None ==> plain == raw
            &&& deflate && zlib_contents(raw) is Some ==> plain == zlib_contents(raw)->0
            &&& deflate && zlib_contents(raw) is None ==> plain == raw
            &&& brotli && brotli_contents(raw) is Some ==> plain == brotli_contents(raw)->0
            &&& brotli && brotli_contents(raw) is None ==> plain == raw
            &&& !gzip && !deflate && !brotli ==> plain == raw
        }),
{
}

} // verus!
