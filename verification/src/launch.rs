//! Starting the agent: where it lies, how it is called, on which port it listens
//! and under which token the proxy is reached.

use base64::Engine;
use rand::Rng;

use vstd::arithmetic::div_mod::{lemma_div_denominator, lemma_fundamental_div_mod};
use vstd::prelude::*;
use vstd::string::*;

use crate::auth::{law_first_address_is_accepted, presented_token, token_char, token_text};
use crate::text::{
    chars_at, chars_of, decimal, decimal_text, ends_with, is_digit, join, join_texts, joined,
    law_numbers_are_read_as_written, occurs_at, parsed_u32, slice_text, texts,
};

verus! {

// ---------------------------------------------------------------------------
// The token
// ---------------------------------------------------------------------------

/// How many random bytes a token is made of.
pub const TOKEN_BYTES: usize = 32;

/// The character for six bits in the alphabet that is safe in addresses.
pub open spec fn sextet(n: int) -> char {
    if n < 26 {
        (65 + n) as char
    } else if n < 52 {
        (97 + n - 26) as char
    } else if n < 62 {
        (48 + n - 52) as char
    } else if n == 62 {
        '-'
    } else {
        '_'
    }
}

/// Bytes in base 64, in the alphabet that is safe in addresses, padded: three
/// bytes give four characters.
pub open spec fn url_safe_base64(b: Seq<u8>) -> Seq<char>
    decreases b.len(),
{
    if b.len() == 0 {
        Seq::empty()
    } else if b.len() == 1 {
        let n = b[0] * 65536;
        seq![sextet(n / 262144), sextet(n / 4096 % 64), '=', '=']
    } else if b.len() == 2 {
        let n = b[0] * 65536 + b[1] * 256;
        seq![sextet(n / 262144), sextet(n / 4096 % 64), sextet(n / 64 % 64), '=']
    } else {
        let n = b[0] * 65536 + b[1] * 256 + b[2];
        seq![sextet(n / 262144), sextet(n / 4096 % 64), sextet(n / 64 % 64), sextet(n % 64)]
            + url_safe_base64(b.skip(3))
    }
}

/// `encode` of `base64::engine::general_purpose::URL_SAFE`. Claimed is that it
/// gives the bytes in base 64, with `-` and `_` for the last two digits, padded
/// with `=` to a multiple of four characters.
#[verifier::external_body]
fn encode_url_safe(b: &[u8]) -> (r: String)
    ensures
        r@ == url_safe_base64(b@),
{
    base64::engine::general_purpose::URL_SAFE.encode(b)
}

/// `rand::thread_rng().fill`. Of the bytes nothing is claimed.
#[verifier::external_body]
fn random_bytes() -> (r: [u8; 32]) {
    let mut b = [0u8; 32];
    rand::thread_rng().fill(&mut b);
    b
}

/// The token that is made of some bytes.
pub fn token_of_bytes(b: &[u8]) -> (r: String)
    ensures
        r@ == url_safe_base64(b@),
{
    encode_url_safe(b)
}

/// Whether a text is a token that is made of these bytes.
pub open spec fn is_token_of(t: Seq<char>, b: Seq<u8>) -> bool {
    b.len() == TOKEN_BYTES && t == url_safe_base64(b)
}

/// A new random token.
pub fn gen_token() -> (r: String)
    ensures
        exists|b: Seq<u8>| #[trigger] is_token_of(r@, b),
{
    let b = random_bytes();
    let r = token_of_bytes(&b);
    assert(is_token_of(r@, b@));
    r
}

/// The address under which the window reaches the proxy for the first time.
pub open spec fn proxy_address(port: u16, token: Seq<char>) -> Seq<char> {
    "http://127.0.0.1:"@ + decimal(port as nat) + "/?t="@ + token
}

/// The address under which the window reaches the proxy for the first time.
pub fn proxy_url(port: u16, token: &str) -> (r: String)
    ensures
        r@ == proxy_address(port, token@),
{
    let mut s = "http://127.0.0.1:".to_owned();
    let number = decimal_text(port as u64);
    s.append(number.as_str());
    s.append("/?t=");
    s.append(token);
    s
}

// ---------------------------------------------------------------------------
// The port
// ---------------------------------------------------------------------------

/// How many ports behind the preferred one are tried.
pub const PORTS_BEHIND: u16 = 100;

/// A search for a free port.
#[derive(Clone, Copy, Debug)]
pub struct PortSearch {
    preferred: u16,
    offered: u16,
}

/// What the search for a port does next.
#[derive(Clone, Copy, Debug, PartialEq, Eq, Structural)]
pub enum PortStep {
    /// See whether this port is free.
    Try(u16),
    /// Use this port.
    Use(u16),
}

/// The last port that is tried.
pub open spec fn last_port(preferred: u16) -> u16 {
    if preferred + PORTS_BEHIND > 65535 {
        65535
    } else {
        (preferred + PORTS_BEHIND) as u16
    }
}

/// What follows when the port that was tried is free, or is not: the first that
/// is free is used, and the preferred one if none is.
pub open spec fn port_step(preferred: u16, tried: u16, free: bool) -> PortStep {
    if free {
        PortStep::Use(tried)
    } else if tried < last_port(preferred) {
        PortStep::Try((tried + 1) as u16)
    } else {
        PortStep::Use(preferred)
    }
}

impl PortSearch {
    /// The preferred port.
    pub closed spec fn wanted(&self) -> u16 {
        self.preferred
    }

    /// The port that is being tried.
    pub closed spec fn current(&self) -> u16 {
        self.offered
    }

    /// What holds of every search: the port that is tried is not too far behind
    /// the preferred one.
    pub open spec fn wf(&self) -> bool {
        self.wanted() <= self.current() <= last_port(self.wanted())
    }

    /// Starts with the preferred port.
    pub fn start(preferred: u16) -> (r: (PortSearch, PortStep))
        ensures
            r.0.wf(),
            r.0.wanted() == preferred,
            r.0.current() == preferred,
            r.1 == PortStep::Try(preferred),
    {
        (PortSearch { preferred, offered: preferred }, PortStep::Try(preferred))
    }

    /// The port that was tried is free, or is not.
    pub fn tried(&mut self, free: bool) -> (r: PortStep)
        requires
            old(self).wf(),
        ensures
            final(self).wf(),
            final(self).wanted() == old(self).wanted(),
            r == port_step(old(self).wanted(), old(self).current(), free),
            final(self).current() == match r {
                PortStep::Try(p) => p,
                PortStep::Use(_) => old(self).current(),
            },
    {
        if free {
            PortStep::Use(self.offered)
        } else if self.offered == 65535 || self.offered - self.preferred == PORTS_BEHIND {
            PortStep::Use(self.preferred)
        } else {
            self.offered = self.offered + 1;
            PortStep::Try(self.offered)
        }
    }
}

// ---------------------------------------------------------------------------
// The files
// ---------------------------------------------------------------------------

/// Where a file is looked for.
#[derive(Clone, Copy, Debug, PartialEq, Eq, Structural)]
pub enum Base {
    /// The directory of the application's resources.
    Resources,
    /// The directory of the application itself.
    Application,
}

/// A file below a base directory.
#[derive(Clone, Debug)]
pub struct Place {
    pub base: Base,
    pub parts: Vec<String>,
}

/// What a place says.
pub open spec fn place(p: Place) -> (Base, Seq<Seq<char>>) {
    (p.base, texts(p.parts@))
}

/// What a list of places says.
pub open spec fn places_of(ps: Seq<Place>) -> Seq<(Base, Seq<Seq<char>>)> {
    ps.map_values(|p: Place| place(p))
}

/// The places of the runtime, the best first: its full name before its short
/// one; under either name the resources before the application, and the directory
/// itself before the one for binaries in it.
pub open spec fn node_place_list() -> Seq<(Base, Seq<Seq<char>>)> {
    seq![
        (Base::Resources, seq!["node-x86_64-pc-windows-msvc.exe"@]),
        (Base::Resources, seq!["binaries"@, "node-x86_64-pc-windows-msvc.exe"@]),
        (Base::Application, seq!["node-x86_64-pc-windows-msvc.exe"@]),
        (Base::Application, seq!["binaries"@, "node-x86_64-pc-windows-msvc.exe"@]),
        (Base::Resources, seq!["node.exe"@]),
        (Base::Resources, seq!["binaries"@, "node.exe"@]),
        (Base::Application, seq!["node.exe"@]),
    ]
}

/// The places of the agent's entry, the best first.
pub open spec fn entry_place_list() -> Seq<(Base, Seq<Seq<char>>)> {
    seq![
        (Base::Resources, seq!["dsh-dist"@, "lib"@, "bin.js"@]),
        (Base::Application, seq!["dsh-dist"@, "lib"@, "bin.js"@]),
    ]
}

/// A file that lies directly in a base directory.
fn direct(base: Base, name: &str) -> (r: Place)
    ensures
        place(r) == (base, seq![name@]),
{
    let mut parts: Vec<String> = Vec::new();
    parts.push(name.to_owned());
    let r = Place { base, parts };
    assert(place(r).1 =~= seq![name@]);
    r
}

/// A file in a directory of a base directory.
fn nested(base: Base, dir: &str, name: &str) -> (r: Place)
    ensures
        place(r) == (base, seq![dir@, name@]),
{
    let mut parts: Vec<String> = Vec::new();
    parts.push(dir.to_owned());
    parts.push(name.to_owned());
    let r = Place { base, parts };
    assert(place(r).1 =~= seq![dir@, name@]);
    r
}

/// The places of the runtime, the best first.
pub fn node_places() -> (r: Vec<Place>)
    ensures
        places_of(r@) == node_place_list(),
{
    let full = "node-x86_64-pc-windows-msvc.exe";
    let mut r: Vec<Place> = Vec::new();
    r.push(direct(Base::Resources, full));
    r.push(nested(Base::Resources, "binaries", full));
    r.push(direct(Base::Application, full));
    r.push(nested(Base::Application, "binaries", full));
    r.push(direct(Base::Resources, "node.exe"));
    r.push(nested(Base::Resources, "binaries", "node.exe"));
    r.push(direct(Base::Application, "node.exe"));
    assert(places_of(r@) =~= node_place_list());
    r
}

/// The agent's entry below a base directory.
fn entry_below(base: Base) -> (r: Place)
    ensures
        place(r) == (base, seq!["dsh-dist"@, "lib"@, "bin.js"@]),
{
    let mut parts: Vec<String> = Vec::new();
    parts.push("dsh-dist".to_owned());
    parts.push("lib".to_owned());
    parts.push("bin.js".to_owned());
    let r = Place { base, parts };
    assert(place(r).1 =~= seq!["dsh-dist"@, "lib"@, "bin.js"@]);
    r
}

/// The places of the agent's entry, the best first.
pub fn entry_places() -> (r: Vec<Place>)
    ensures
        places_of(r@) == entry_place_list(),
{
    let mut r: Vec<Place> = Vec::new();
    r.push(entry_below(Base::Resources));
    r.push(entry_below(Base::Application));
    assert(places_of(r@) =~= entry_place_list());
    r
}

/// The first place at which there is a file, if there is one at any.
pub open spec fn first_there(there: Seq<bool>) -> Option<int>
    decreases there.len(),
{
    if there.len() == 0 {
        None
    } else if there[0] {
        Some(0)
    } else {
        match first_there(there.drop_first()) {
            Some(i) => Some(i + 1),
            None => None,
        }
    }
}

/// The first place at which there is a file, if there is one at any.
pub fn first_existing(there: &Vec<bool>) -> (r: Option<usize>)
    ensures
        match r {
            Some(i) => {
                &&& first_there(there@) == Some(i as int)
                &&& i < there.len() && there@[i as int]
                &&& forall|k: int| 0 <= k < i ==> !#[trigger] there@[k]
            },
            None => {
                &&& first_there(there@) is None
                &&& forall|k: int| 0 <= k < there.len() ==> !#[trigger] there@[k]
            },
        },
{
    let mut i: usize = 0;
    assert(there@.skip(0) =~= there@);
    while i < there.len()
        invariant
            i <= there.len(),
            forall|k: int| 0 <= k < i ==> !#[trigger] there@[k],
            first_there(there@) == match first_there(there@.skip(i as int)) {
                Some(k) => Some(k + i),
                None => None,
            },
        decreases there.len() - i,
    {
        let ghost rest = there@.skip(i as int);
        assert(rest[0] == there@[i as int]);
        if there[i] {
            return Some(i);
        }
        assert(rest.drop_first() =~= there@.skip(i + 1));
        i = i + 1;
    }
    None
}

/// What is said when the runtime is at none of its places.
pub open spec fn node_missing(tried: Seq<Seq<char>>) -> Seq<char> {
    "找不到 node 外部二进制，已尝试以下路径:\n"@ + join(
        tried.map_values(|p: Seq<char>| "  - "@ + p),
        "\n"@,
    )
}

/// What is said when the runtime is at none of its places.
pub fn node_missing_text(tried: &Vec<String>) -> (r: String)
    ensures
        r@ == node_missing(texts(tried@)),
{
    let mut lines: Vec<String> = Vec::new();
    for i in 0..tried.len()
        invariant
            lines.len() == i,
            forall|k: int| 0 <= k < i ==> #[trigger] lines@[k]@ == "  - "@ + tried@[k]@,
    {
        lines.push(joined("  - ", tried[i].as_str()));
    }
    assert(texts(lines@) =~= texts(tried@).map_values(|p: Seq<char>| "  - "@ + p));
    let list = join_texts(&lines, "\n");
    joined("找不到 node 外部二进制，已尝试以下路径:\n", list.as_str())
}

/// What is said when the agent's entry is at none of its places, `tried` being
/// the list of them.
pub fn entry_missing_text(tried: &str) -> (r: String)
    ensures
        r@ == "找不到 harness 入口 dsh-dist/lib/bin.js，已尝试: "@ + tried@,
{
    joined("找不到 harness 入口 dsh-dist/lib/bin.js，已尝试: ", tried)
}

/// The prefix of a verbatim path.
pub const VERBATIM: &'static str = r"\\?\";

/// The prefix of a verbatim path to another machine.
pub const VERBATIM_UNC: &'static str = r"\\?\UNC\";

/// A path without the prefix of a verbatim one, which the runtime does not take
/// for the path of a script.
pub open spec fn normalized(p: Seq<char>) -> Seq<char> {
    if occurs_at(p, VERBATIM_UNC@, 0) {
        p.skip(8)
    } else if occurs_at(p, VERBATIM@, 0) {
        p.skip(4)
    } else {
        p
    }
}

/// A path without the prefix of a verbatim one.
pub fn normalize_path(p: &str) -> (r: String)
    ensures
        r@ == normalized(p@),
{
    proof {
        reveal_strlit(r"\\?\");
        reveal_strlit(r"\\?\UNC\");
    }
    let cs = chars_of(p);
    let unc = chars_of(VERBATIM_UNC);
    let plain = chars_of(VERBATIM);
    if chars_at(&cs, &unc, 0) {
        assert(p@.skip(8) =~= p@.subrange(8, p@.len() as int));
        slice_text(p, 8, cs.len())
    } else if chars_at(&cs, &plain, 0) {
        assert(p@.skip(4) =~= p@.subrange(4, p@.len() as int));
        slice_text(p, 4, cs.len())
    } else {
        p.to_owned()
    }
}

// ---------------------------------------------------------------------------
// The call
// ---------------------------------------------------------------------------

/// The arguments that the runtime is called with.
pub open spec fn call_args(entry: Seq<char>, port: u16) -> Seq<Seq<char>> {
    seq![entry, "web"@, "--port"@, decimal(port as nat)]
}

/// The arguments that the runtime is called with.
pub fn launch_args(entry: &str, port: u16) -> (r: Vec<String>)
    ensures
        texts(r@) == call_args(entry@, port),
{
    let mut r: Vec<String> = Vec::new();
    r.push(entry.to_owned());
    r.push("web".to_owned());
    r.push("--port".to_owned());
    r.push(decimal_text(port as u64));
    assert(texts(r@) =~= call_args(entry@, port));
    r
}

/// What is said when the agent could not be started.
pub open spec fn launch_failed(error: Seq<char>, node: Seq<char>, entry: Seq<char>) -> Seq<char> {
    "启动 dsh sidecar 失败: "@ + error + " (node="@ + node + ", entry="@ + entry + ")"@
}

/// What is said when the agent could not be started.
pub fn launch_failed_text(error: &str, node: &str, entry: &str) -> (r: String)
    ensures
        r@ == launch_failed(error@, node@, entry@),
{
    let mut s = joined("启动 dsh sidecar 失败: ", error);
    s.append(" (node=");
    s.append(node);
    s.append(", entry=");
    s.append(entry);
    s.append(")");
    s
}

// ---------------------------------------------------------------------------
// Laws
// ---------------------------------------------------------------------------

/// The port that a search ends with when it goes on from `tried`, the ports of
/// this set being free.
pub open spec fn port_found(preferred: u16, tried: u16, free: Set<u16>) -> u16
    decreases 65535 - tried,
{
    match port_step(preferred, tried, free.contains(tried)) {
        PortStep::Use(p) => p,
        PortStep::Try(q) => port_found(preferred, q, free),
    }
}

/// A search ends with the least free port from the preferred one on, as far as it
/// goes; with the preferred one if none of these is free. So the preferred port is
/// used whenever it is free.
pub proof fn law_the_least_free_port_is_used(preferred: u16, free: Set<u16>)
    ensures
        ({
            let p = port_found(preferred, preferred, free);
            let last = last_port(preferred);
            &&& (exists|q: u16| preferred <= q <= last && #[trigger] free.contains(q)) ==> {
                &&& preferred <= p <= last
                &&& free.contains(p)
                &&& forall|q: u16| preferred <= q < p ==> !#[trigger] free.contains(q)
            }
            &&& (forall|q: u16| preferred <= q <= last ==> !#[trigger] free.contains(q)) ==> p
                == preferred
        }),
{
    lemma_port_found(preferred, preferred, free);
}

/// The induction behind `law_the_least_free_port_is_used`.
proof fn lemma_port_found(preferred: u16, tried: u16, free: Set<u16>)
    requires
        preferred <= tried <= last_port(preferred),
    ensures
        ({
            let p = port_found(preferred, tried, free);
            let last = last_port(preferred);
            ||| tried <= p <= last && free.contains(p) && (forall|q: u16|
                tried <= q < p ==> !#[trigger] free.contains(q))
            ||| p == preferred && (forall|q: u16|
                tried <= q <= last ==> !#[trigger] free.contains(q))
        }),
    decreases 65535 - tried,
{
    if !free.contains(tried) && tried < last_port(preferred) {
        lemma_port_found(preferred, (tried + 1) as u16, free);
    }
}

/// The full name of the runtime comes before its short one: no place of the short
/// name stands before one of the full name.
pub proof fn law_the_full_name_comes_first(i: int, j: int)
    requires
        0 <= i < node_place_list().len(),
        0 <= j < node_place_list().len(),
        node_place_list()[i].1.last() == "node-x86_64-pc-windows-msvc.exe"@,
        node_place_list()[j].1.last() == "node.exe"@,
    ensures
        i < j,
{
    reveal_strlit("node-x86_64-pc-windows-msvc.exe");
    reveal_strlit("node.exe");
    assert("node-x86_64-pc-windows-msvc.exe"@.len() == 31 && "node.exe"@.len() == 8);
}

/// A character for six bits is one of a token.
proof fn lemma_sextet(n: int)
    requires
        0 <= n < 64,
    ensures
        token_char(sextet(n)),
        sextet(n) != '=',
{
}

/// Different six bits have different characters.
proof fn lemma_sextet_injective(m: int, n: int)
    requires
        0 <= m < 64,
        0 <= n < 64,
        sextet(m) == sextet(n),
    ensures
        m == n,
{
}

/// A token is made of characters that keep their meaning in an address and in a
/// cookie, four for every three bytes.
pub proof fn law_tokens_are_safe(b: Seq<u8>)
    ensures
        token_text(url_safe_base64(b)),
        url_safe_base64(b).len() == (b.len() + 2) / 3 * 4,
    decreases b.len(),
{
    let t = url_safe_base64(b);
    if b.len() == 1 {
        let n = b[0] * 65536;
        lemma_sextet(n / 262144);
        lemma_sextet(n / 4096 % 64);
    } else if b.len() == 2 {
        let n = b[0] * 65536 + b[1] * 256;
        lemma_sextet(n / 262144);
        lemma_sextet(n / 4096 % 64);
        lemma_sextet(n / 64 % 64);
    } else if b.len() > 2 {
        let n = b[0] * 65536 + b[1] * 256 + b[2];
        lemma_sextet(n / 262144);
        lemma_sextet(n / 4096 % 64);
        lemma_sextet(n / 64 % 64);
        lemma_sextet(n % 64);
        law_tokens_are_safe(b.skip(3));
        assert forall|i: int| 0 <= i < t.len() implies token_char(#[trigger] t[i]) by {
            if i >= 4 {
                assert(t[i] == url_safe_base64(b.skip(3))[i - 4]);
            }
        }
    }
}

/// Four digits of base 64 give their number.
#[verifier::spinoff_prover]
proof fn lemma_digits(n: int)
    requires
        0 <= n < 16777216,
    ensures
        n == n / 262144 * 262144 + n / 4096 % 64 * 4096 + n / 64 % 64 * 64 + n % 64,
        0 <= n / 262144 < 64,
{
    let a = n / 64;
    let b = a / 64;
    let c = b / 64;
    lemma_fundamental_div_mod(n, 64);
    lemma_fundamental_div_mod(a, 64);
    lemma_fundamental_div_mod(b, 64);
    lemma_div_denominator(n, 64, 64);
    lemma_div_denominator(n, 4096, 64);
    assert(n / 4096 == b && n / 262144 == c);
}

/// Numbers with the same first digits are the same but for the rest.
proof fn lemma_group(m: int, n: int)
    requires
        0 <= m < 16777216,
        0 <= n < 16777216,
        sextet(m / 262144) == sextet(n / 262144),
        sextet(m / 4096 % 64) == sextet(n / 4096 % 64),
        m % 4096 == 0 && n % 4096 == 0 || sextet(m / 64 % 64) == sextet(n / 64 % 64),
        m % 64 == 0 && n % 64 == 0 || sextet(m % 64) == sextet(n % 64),
    ensures
        m == n,
{
    lemma_digits(m);
    lemma_digits(n);
    lemma_sextet_injective(m / 262144, n / 262144);
    lemma_sextet_injective(m / 4096 % 64, n / 4096 % 64);
    if !(m % 4096 == 0 && n % 4096 == 0) {
        lemma_sextet_injective(m / 64 % 64, n / 64 % 64);
    }
    if !(m % 64 == 0 && n % 64 == 0) {
        lemma_sextet_injective(m % 64, n % 64);
    }
}

/// A number gives the three bytes that it is made of.
proof fn lemma_three_bytes(a0: u8, a1: u8, a2: u8, b0: u8, b1: u8, b2: u8)
    requires
        a0 * 65536 + a1 * 256 + a2 == b0 * 65536 + b1 * 256 + b2,
    ensures
        a0 == b0,
        a1 == b1,
        a2 == b2,
{
}

/// The first group of a token gives the bytes that it is made of.
#[verifier::spinoff_prover]
proof fn lemma_first_group(a: Seq<u8>, b: Seq<u8>)
    requires
        a.len() == b.len(),
        a.len() > 2,
        url_safe_base64(a) == url_safe_base64(b),
    ensures
        a[0] == b[0] && a[1] == b[1] && a[2] == b[2],
{
    let s = url_safe_base64(a);
    let t = url_safe_base64(b);
    let (a0, a1, a2) = (a[0], a[1], a[2]);
    let (b0, b1, b2) = (b[0], b[1], b[2]);
    let m = a0 * 65536 + a1 * 256 + a2;
    let n = b0 * 65536 + b1 * 256 + b2;
    assert(s[0] == sextet(m / 262144) && t[0] == sextet(n / 262144));
    assert(s[1] == sextet(m / 4096 % 64) && t[1] == sextet(n / 4096 % 64));
    assert(s[2] == sextet(m / 64 % 64) && t[2] == sextet(n / 64 % 64));
    assert(s[3] == sextet(m % 64) && t[3] == sextet(n % 64));
    lemma_group(m, n);
    lemma_three_bytes(a0, a1, a2, b0, b1, b2);
}

/// A last group of one byte gives that byte.
#[verifier::spinoff_prover]
proof fn lemma_group_of_one(a: Seq<u8>, b: Seq<u8>)
    requires
        a.len() == 1,
        b.len() == 1,
        url_safe_base64(a) == url_safe_base64(b),
    ensures
        a == b,
{
    let (a0, b0) = (a[0], b[0]);
    let (m, n) = (a0 * 65536, b0 * 65536);
    let (s, t) = (url_safe_base64(a), url_safe_base64(b));
    assert(s[0] == sextet(m / 262144) && s[1] == sextet(m / 4096 % 64));
    assert(t[0] == sextet(n / 262144) && t[1] == sextet(n / 4096 % 64));
    lemma_group(m, n);
    assert(a =~= b);
}

/// A last group of two bytes gives these bytes.
#[verifier::spinoff_prover]
proof fn lemma_group_of_two(a: Seq<u8>, b: Seq<u8>)
    requires
        a.len() == 2,
        b.len() == 2,
        url_safe_base64(a) == url_safe_base64(b),
    ensures
        a == b,
{
    let (a0, a1) = (a[0], a[1]);
    let (b0, b1) = (b[0], b[1]);
    let (m, n) = (a0 * 65536 + a1 * 256, b0 * 65536 + b1 * 256);
    let (s, t) = (url_safe_base64(a), url_safe_base64(b));
    assert(s[0] == sextet(m / 262144) && s[1] == sextet(m / 4096 % 64));
    assert(s[2] == sextet(m / 64 % 64));
    assert(t[0] == sextet(n / 262144) && t[1] == sextet(n / 4096 % 64));
    assert(t[2] == sextet(n / 64 % 64));
    lemma_group(m, n);
    lemma_three_bytes(a0, a1, 0, b0, b1, 0);
    assert(a =~= b);
}

/// A token keeps all of its bytes: as many other bytes give another token.
pub proof fn law_tokens_keep_their_bytes(a: Seq<u8>, b: Seq<u8>)
    requires
        a.len() == b.len(),
        url_safe_base64(a) == url_safe_base64(b),
    ensures
        a == b,
    decreases a.len(),
{
    if a.len() == 1 {
        lemma_group_of_one(a, b);
    } else if a.len() == 2 {
        lemma_group_of_two(a, b);
    } else if a.len() > 2 {
        lemma_first_group(a, b);
        let s = url_safe_base64(a);
        let t = url_safe_base64(b);
        assert(s.skip(4) =~= url_safe_base64(a.skip(3)));
        assert(t.skip(4) =~= url_safe_base64(b.skip(3)));
        law_tokens_keep_their_bytes(a.skip(3), b.skip(3));
        assert forall|i: int| 0 <= i < a.len() implies a[i] == b[i] by {
            if i >= 3 {
                assert(a.skip(3)[i - 3] == b.skip(3)[i - 3]);
            }
        }
    }
    assert(a =~= b);
}

/// The window that is sent to the proxy's address is let in: what follows the
/// port there is a target that presents the token.
pub proof fn law_the_first_address_is_let_in(port: u16, b: Seq<u8>)
    ensures
        ({
            let token = url_safe_base64(b);
            let host = "http://127.0.0.1:"@ + decimal(port as nat);
            let target = "/?t="@ + token;
            &&& proxy_address(port, token) == host + target
            &&& presented_token(Some(target), Seq::empty()) == Some(token)
        }),
{
    let token = url_safe_base64(b);
    law_tokens_are_safe(b);
    law_first_address_is_accepted(token);
    assert(proxy_address(port, token) =~= "http://127.0.0.1:"@ + decimal(port as nat) + ("/?t="@
        + token));
}

/// A number in decimal is made of digits.
proof fn lemma_decimal_is_digits(n: nat)
    ensures
        decimal(n).len() > 0,
        forall|i: int| 0 <= i < decimal(n).len() ==> is_digit(#[trigger] decimal(n)[i]),
    decreases n,
{
    if n >= 10 {
        lemma_decimal_is_digits(n / 10);
        let head = decimal(n / 10);
        assert forall|i: int| 0 <= i < decimal(n).len() implies is_digit(
            #[trigger] decimal(n)[i],
        ) by {
            if i < head.len() {
                assert(decimal(n)[i] == head[i]);
            }
        }
    }
}

/// The agent is called with four arguments and no others: its entry, `web`,
/// `--port`, and the port in digits.
pub proof fn law_the_call_is_fixed(entry: Seq<char>, port: u16)
    ensures
        call_args(entry, port).len() == 4,
        call_args(entry, port)[0] == entry,
        call_args(entry, port)[1] == "web"@,
        call_args(entry, port)[2] == "--port"@,
        call_args(entry, port)[3].len() > 0,
        forall|i: int|
            0 <= i < call_args(entry, port)[3].len() ==> is_digit(
                #[trigger] call_args(entry, port)[3][i],
            ),
{
    lemma_decimal_is_digits(port as nat);
}

/// Every place of the agent's entry ends in the name of its script.
pub proof fn law_the_entry_is_the_script(i: int)
    requires
        0 <= i < entry_place_list().len(),
    ensures
        entry_place_list()[i].1.last() == "bin.js"@,
        ends_with(entry_place_list()[i].1.last(), "bin.js"@),
{
    assert("bin.js"@.subrange(0, "bin.js"@.len() as int) =~= "bin.js"@);
}

/// Normalizing a path removes nothing but a prefix.
pub proof fn law_normalizing_removes_a_prefix(p: Seq<char>)
    ensures
        normalized(p) == p || normalized(p) == p.skip(4) || normalized(p) == p.skip(8),
        !occurs_at(p, VERBATIM@, 0) ==> normalized(p) == p,
{
    reveal_strlit(r"\\?\");
    reveal_strlit(r"\\?\UNC\");
    if occurs_at(p, VERBATIM_UNC@, 0) {
        assert(p.subrange(0, 4) =~= p.subrange(0, 8).subrange(0, 4));
        assert(VERBATIM_UNC@.subrange(0, 4) =~= VERBATIM@);
    }
}

/// The prefix of a verbatim path is taken off, that of one to another machine too,
/// and nothing else of a path is touched.
pub proof fn law_what_normalizing_takes(rest: Seq<char>, p: Seq<char>)
    requires
        !occurs_at(p, r"\\?\"@, 0),
    ensures
        normalized(r"\\?\UNC\"@ + rest) == rest,
        !occurs_at(rest, r"UNC\"@, 0) ==> normalized(r"\\?\"@ + rest) == rest,
        normalized(p) == p,
{
    reveal_strlit(r"\\?\");
    reveal_strlit(r"\\?\UNC\");
    reveal_strlit(r"UNC\");
    law_normalizing_removes_a_prefix(p);
    let unc = r"\\?\UNC\"@ + rest;
    assert(unc.subrange(0, 8) =~= r"\\?\UNC\"@);
    assert(unc.skip(8) =~= rest);
    let plain = r"\\?\"@ + rest;
    assert(plain.subrange(0, 4) =~= r"\\?\"@);
    assert(plain.skip(4) =~= rest);
    if occurs_at(plain, r"\\?\UNC\"@, 0) {
        let part = plain.subrange(0, 8);
        assert(part == r"\\?\UNC\"@);
        assert(rest.subrange(0, 4) =~= part.subrange(4, 8));
        assert(r"\\?\UNC\"@.subrange(4, 8) =~= r"UNC\"@);
    }
}

/// The agent is called with its entry, as a server, on the port, written in digits
/// that read as it.
pub proof fn law_the_call_names_entry_and_port(entry: Seq<char>, port: u16)
    ensures
        call_args(entry, port) == seq![entry, "web"@, "--port"@, decimal(port as nat)],
        parsed_u32(call_args(entry, port)[3]) == Some(port as u32),
{
    law_numbers_are_read_as_written(port as nat);
}

/// The search for a port goes a hundred ports beyond the preferred one, but not
/// beyond the last there is; a token is made of 32 bytes.
pub proof fn law_how_far_the_search_goes(preferred: u16)
    ensures
        preferred <= 65435 ==> last_port(preferred) == preferred + 100,
        preferred > 65435 ==> last_port(preferred) == 65535,
        TOKEN_BYTES == 32,
{
}

/// A port that is free is used; one that is not is followed by the next, and the
/// last by the preferred one.
pub proof fn law_what_follows_a_port(preferred: u16, tried: u16)
    requires
        preferred <= tried,
    ensures
        port_step(preferred, tried, true) == PortStep::Use(tried),
        tried < 65535 && tried - preferred < 100 ==> port_step(preferred, tried, false)
            == PortStep::Try((tried + 1) as u16),
        tried == 65535 || tried - preferred >= 100 ==> port_step(preferred, tried, false)
            == PortStep::Use(preferred),
{
}

/// What is said of a runtime that is not there names every path that was tried, each
/// on its line; what is said of a call that failed names the error, the runtime and
/// the entry.
pub proof fn law_failures_name_their_places(
    tried: Seq<Seq<char>>,
    error: Seq<char>,
    node: Seq<char>,
    entry: Seq<char>,
)
    ensures
        node_missing(tried) == "找不到 node 外部二进制，已尝试以下路径:\n"@ + join(
            Seq::new(tried.len(), |k: int| "  - "@ + tried[k]),
            "\n"@,
        ),
        launch_failed(error, node, entry) == "启动 dsh sidecar 失败: "@ + error + " (node="@ + node
            + ", entry="@ + entry + ")"@,
{
    assert(tried.map_values(|p: Seq<char>| "  - "@ + p) =~= Seq::new(
        tried.len(),
        |k: int| "  - "@ + tried[k],
    ));
}

/// The first of the places that is there is taken, and none if none is.
pub proof fn law_the_first_place_there_is_taken(ahead: Seq<bool>, behind: Seq<bool>)
    requires
        forall|i: int| 0 <= i < ahead.len() ==> !#[trigger] ahead[i],
    ensures
        first_there(ahead) is None,
        first_there(ahead + seq![true] + behind) == Some(ahead.len() as int),
    decreases ahead.len(),
{
    let all = ahead + seq![true] + behind;
    if ahead.len() > 0 {
        let rest = ahead.drop_first();
        assert forall|i: int| 0 <= i < rest.len() implies !#[trigger] rest[i] by {
            assert(rest[i] == ahead[i + 1]);
        }
        law_the_first_place_there_is_taken(rest, behind);
        assert(!ahead[0]);
        assert(all[0] == ahead[0]);
        assert(all.drop_first() =~= rest + seq![true] + behind);
    } else {
        assert(all[0]);
    }
}

} // verus!
