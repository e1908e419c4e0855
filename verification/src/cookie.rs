//! The session with the agent: a launch token is exchanged for a cookie, which
//! is kept until it grows stale.

use vstd::prelude::*;
use vstd::string::*;

use crate::http::{field_text, fields, get_header_text, plain_text, text_reply, Header, Reply};
use crate::json::{
    json_quoted, law_an_object_is_its_members, members_of, object_json, object_text, value_json,
    JsonValue, JsonView,
};
use crate::text::{
    before, blank, clone_opt, decimal, decimal_text, is_space, law_trimming_takes_the_blank_ends,
    lemma_span_of_free, lemma_span_of_joined, opt_text, text_before, trim, trim_text,
};

verus! {

// ---------------------------------------------------------------------------
// The cache
// ---------------------------------------------------------------------------

/// How long a cookie is used, in milliseconds. The agent signs its cookies for
/// half an hour; a cookie is renewed a little before that.
pub const COOKIE_TTL_MS: u128 = 25 * 60 * 1000;

/// Nanoseconds in a millisecond.
pub const NANOS_PER_MS: u128 = 1_000_000;

/// The cookie of the session, and when it was obtained on a clock that never
/// goes back, in nanoseconds.
#[derive(Clone, Debug)]
pub struct CookieCache {
    value: Option<String>,
    obtained_at: Option<u128>,
}

impl CookieCache {
    /// The cookie, if there is one.
    pub closed spec fn cookie(&self) -> Option<Seq<char>> {
        opt_text(self.value)
    }

    /// When the cookie was obtained.
    pub closed spec fn since(&self) -> Option<u128> {
        self.obtained_at
    }

    /// A time is kept exactly while a cookie is.
    pub open spec fn wf(&self) -> bool {
        self.cookie() is Some <==> self.since() is Some
    }

    /// Whether the cookie is missing or stale at `now`.
    pub open spec fn stale(&self, now: u128) -> bool {
        match (self.cookie(), self.since()) {
            (Some(_), Some(at)) => now - at > COOKIE_TTL_MS * NANOS_PER_MS,
            _ => true,
        }
    }

    /// Whether there is a cookie that is not stale at `now`.
    pub open spec fn ready(&self, now: u128) -> bool {
        self.cookie() is Some && !self.stale(now)
    }

    /// The cookie, if there is one that is not stale at `now`.
    pub open spec fn fresh(&self, now: u128) -> Option<Seq<char>> {
        if self.stale(now) {
            None
        } else {
            self.cookie()
        }
    }

    /// An empty cache.
    pub fn new() -> (r: CookieCache)
        ensures
            r.wf(),
            r.cookie() is None,
            r.since() is None,
    {
        CookieCache { value: None, obtained_at: None }
    }

    /// Whether there is a cookie.
    pub fn is_some(&self) -> (r: bool)
        ensures
            r == (self.cookie() is Some),
    {
        self.value.is_some()
    }

    /// Whether the cookie is missing or stale at `now`.
    pub fn is_expired(&self, now: u128) -> (r: bool)
        ensures
            r == self.stale(now),
    {
        match (&self.value, self.obtained_at) {
            (Some(_), Some(at)) => now > at && now - at > COOKIE_TTL_MS * NANOS_PER_MS,
            _ => true,
        }
    }

    /// The cookie, stale or not.
    pub fn get(&self) -> (r: Option<String>)
        ensures
            opt_text(r) == self.cookie(),
    {
        clone_opt(&self.value)
    }

    /// The cookie, if there is one that is not stale at `now`.
    pub fn get_fresh(&self, now: u128) -> (r: Option<String>)
        ensures
            opt_text(r) == self.fresh(now),
    {
        if self.is_expired(now) {
            None
        } else {
            self.get()
        }
    }

    /// Keeps a cookie that was obtained at `now`.
    pub fn set(&mut self, value: String, now: u128)
        ensures
            final(self).wf(),
            final(self).cookie() == Some(value@),
            final(self).since() == Some(now),
    {
        self.value = Some(value);
        self.obtained_at = Some(now);
    }

    /// Forgets the cookie.
    pub fn clear(&mut self)
        ensures
            final(self).wf(),
            final(self).cookie() is None,
            final(self).since() is None,
    {
        self.value = None;
        self.obtained_at = None;
    }
}

// ---------------------------------------------------------------------------
// The launch token
// ---------------------------------------------------------------------------

/// An optional text, empty where there is none.
pub open spec fn or_empty(o: Option<Seq<char>>) -> Seq<char> {
    match o {
        Some(s) => s,
        None => Seq::empty(),
    }
}

/// The first of two texts, or the second where the first is empty.
pub open spec fn first_filled(a: Seq<char>, b: Seq<char>) -> Seq<char> {
    if a.len() == 0 {
        b
    } else {
        a
    }
}

/// An optional text, empty where there is none.
fn text_or_empty(o: &Option<String>) -> (r: String)
    ensures
        r@ == or_empty(opt_text(*o)),
{
    match o {
        Some(s) => s.clone(),
        None => String::new(),
    }
}

/// The launch token to use now: the one that the agent has printed meanwhile, or
/// the one that the proxy was started with.
pub fn live_agent_token(live: &Option<String>, at_start: &str) -> (r: String)
    ensures
        r@ == first_filled(or_empty(opt_text(*live)), at_start@),
{
    let t = text_or_empty(live);
    if t.as_str().is_empty() {
        at_start.to_owned()
    } else {
        t
    }
}

/// The launch token that the proxy is started with: the one it is handed, or the
/// one that the agent has printed meanwhile.
pub fn starting_agent_token(passed: &Option<String>, live: &Option<String>) -> (r: String)
    ensures
        r@ == first_filled(or_empty(opt_text(*passed)), or_empty(opt_text(*live))),
{
    let t = text_or_empty(passed);
    if t.as_str().is_empty() {
        text_or_empty(live)
    } else {
        t
    }
}

// ---------------------------------------------------------------------------
// The handshake
// ---------------------------------------------------------------------------

/// How often a request that is no page tries the handshake.
pub const HANDSHAKE_ATTEMPTS: u32 = 20;

/// How often a page tries the handshake between two pauses, so that its wait
/// stays brief.
pub const BRIEF_ATTEMPTS: u32 = 1;

/// How often a look at the health of the proxy tries the handshake: once, so that
/// the page that waits for it drives the handshake and is not held up by it.
pub const HEALTH_ATTEMPTS: u32 = 1;

/// How long the handshake pauses between tries, in milliseconds.
pub const HANDSHAKE_PAUSE_MS: u64 = 500;

/// Where the launch token is exchanged.
pub open spec fn exchange_url(port: u16, token: Seq<char>) -> Seq<char> {
    "http://127.0.0.1:"@ + decimal(port as nat) + "/?token="@ + token
}

/// The cookie that a response sets: the first pair of its `set-cookie` header,
/// without the attributes that follow it.
pub open spec fn harvested(headers: Seq<(Seq<char>, Seq<u8>)>) -> Option<Seq<char>> {
    match field_text(headers, "set-cookie"@) {
        Some(t) => {
            let pair = trim(before(t, ';'));
            if pair.len() > 0 {
                Some(pair)
            } else {
                None
            }
        },
        None => None,
    }
}

/// The cookie that a response sets.
pub fn harvest_cookie(headers: &Vec<Header>) -> (r: Option<String>)
    ensures
        opt_text(r) == harvested(fields(headers@)),
{
    match get_header_text(headers, "set-cookie") {
        Some(t) => {
            let first = text_before(t.as_str(), ';');
            let pair = trim_text(first.as_str());
            if pair.as_str().is_empty() {
                None
            } else {
                Some(pair)
            }
        },
        None => None,
    }
}

/// What the handshake does next.
#[derive(Clone, Debug)]
pub enum HandshakeStep {
    /// Ask for this address, and do not follow a redirect.
    Ask(String),
    /// Wait for so many milliseconds.
    Pause(u64),
    /// The handshake is over.
    Done(Option<String>),
}

/// What a step of the handshake says.
pub enum HandshakeStepView {
    Ask(Seq<char>),
    Pause(u64),
    Done(Option<Seq<char>>),
}

impl View for HandshakeStep {
    type V = HandshakeStepView;

    open spec fn view(&self) -> HandshakeStepView {
        match self {
            HandshakeStep::Ask(u) => HandshakeStepView::Ask(u@),
            HandshakeStep::Pause(ms) => HandshakeStepView::Pause(*ms),
            HandshakeStep::Done(c) => HandshakeStepView::Done(opt_text(*c)),
        }
    }
}

/// A handshake under way.
#[derive(Clone, Debug)]
pub struct Handshake {
    url: String,
    left: u32,
}

/// What a response, if there was one, leads to.
pub open spec fn after_reply(
    reply: Option<Seq<(Seq<char>, Seq<u8>)>>,
) -> HandshakeStepView {
    match reply {
        Some(headers) => match harvested(headers) {
            Some(c) => HandshakeStepView::Done(Some(c)),
            None => HandshakeStepView::Pause(HANDSHAKE_PAUSE_MS),
        },
        None => HandshakeStepView::Pause(HANDSHAKE_PAUSE_MS),
    }
}

impl Handshake {
    /// The address that is asked for.
    pub closed spec fn asked(&self) -> Seq<char> {
        self.url@
    }

    /// How many tries are left, the one under way among them.
    pub closed spec fn tries(&self) -> u32 {
        self.left
    }

    /// Starts a handshake. Without a token there is nothing to exchange.
    pub fn start(port: u16, token: &str, attempts: u32) -> (r: (Handshake, HandshakeStep))
        ensures
            r.0.asked() == exchange_url(port, token@),
            r.0.tries() == attempts,
            r.1@ == if token@.len() == 0 || attempts == 0 {
                HandshakeStepView::Done(None)
            } else {
                HandshakeStepView::Ask(exchange_url(port, token@))
            },
    {
        let mut url = "http://127.0.0.1:".to_owned();
        let port_text = decimal_text(port as u64);
        url.append(port_text.as_str());
        url.append("/?token=");
        url.append(token);
        let step = if token.is_empty() || attempts == 0 {
            HandshakeStep::Done(None)
        } else {
            HandshakeStep::Ask(url.clone())
        };
        (Handshake { url, left: attempts }, step)
    }

    /// A try is over: the headers of the response, or none if there was none.
    pub fn replied(&self, headers: &Option<Vec<Header>>) -> (r: HandshakeStep)
        ensures
            r@ == after_reply(
                match *headers {
                    Some(hs) => Some(fields(hs@)),
                    None => None,
                },
            ),
    {
        match headers {
            Some(hs) => match harvest_cookie(hs) {
                Some(c) => HandshakeStep::Done(Some(c)),
                None => HandshakeStep::Pause(HANDSHAKE_PAUSE_MS),
            },
            None => HandshakeStep::Pause(HANDSHAKE_PAUSE_MS),
        }
    }

    /// A pause is over.
    pub fn paused(&mut self) -> (r: HandshakeStep)
        ensures
            final(self).asked() == old(self).asked(),
            final(self).tries() == if old(self).tries() == 0 {
                0
            } else {
                old(self).tries() - 1
            },
            r@ == if final(self).tries() == 0 {
                HandshakeStepView::Done(None)
            } else {
                HandshakeStepView::Ask(old(self).asked())
            },
    {
        if self.left > 0 {
            self.left = self.left - 1;
        }
        if self.left == 0 {
            HandshakeStep::Done(None)
        } else {
            HandshakeStep::Ask(self.url.clone())
        }
    }
}

// ---------------------------------------------------------------------------
// Keeping the cookie fresh
// ---------------------------------------------------------------------------

/// Whether the handshake is due: there is no fresh cookie, and there is a token
/// to exchange.
pub open spec fn due(cache: CookieCache, now: u128, token: Seq<char>) -> bool {
    !cache.ready(now) && token.len() > 0
}

/// Whether the handshake is due.
pub fn handshake_due(cache: &CookieCache, now: u128, token: &str) -> (r: bool)
    ensures
        r == due(*cache, now, token@),
{
    if cache.is_some() && !cache.is_expired(now) {
        return false;
    }
    !token.is_empty()
}

/// Keeps what a handshake gave. A handshake that gave nothing leaves nothing, so
/// that a stale cookie is not used again.
pub fn keep_cookie(cache: &mut CookieCache, cookie: Option<String>, now: u128)
    ensures
        final(cache).wf(),
        final(cache).cookie() == opt_text(cookie),
        final(cache).since() == match cookie {
            Some(_) => Some(now),
            None => None,
        },
{
    match cookie {
        Some(c) => {
            cache.set(c, now);
        },
        None => {
            cache.clear();
        },
    }
}

/// Keeps what a handshake gave, if it gave anything; what is kept stays if it
/// did not.
pub fn renew_cookie(cache: &mut CookieCache, cookie: &Option<String>, now: u128)
    ensures
        match *cookie {
            Some(c) => final(cache).wf() && final(cache).cookie() == Some(c@)
                && final(cache).since() == Some(now),
            None => *final(cache) == *old(cache),
        },
{
    if let Some(c) = cookie {
        cache.set(c.clone(), now);
    }
}

// ---------------------------------------------------------------------------
// Waiting for the cookie
// ---------------------------------------------------------------------------

/// How often a request that is no page waits for the cookie.
pub const WAIT_ROUNDS: u32 = 8;

/// How long a page waits for the cookie, in nanoseconds.
pub const BRIEF_WAIT_NANOS: u128 = 8_000_000_000;

/// The pause between two looks at the cookie, in milliseconds.
pub const WAIT_PAUSE_MS: u64 = 400;

/// How long a wait goes on.
#[derive(Clone, Copy, Debug, PartialEq, Eq, Structural)]
pub enum Patience {
    /// For so many more pauses.
    Rounds(u32),
    /// Until this time.
    Until(u128),
}

/// What a wait does next.
#[derive(Clone, Debug)]
pub enum WaitStep {
    /// Make sure of the cookie, with so many tries of the handshake.
    Ensure(u32),
    /// Wait for so many milliseconds.
    Pause(u64),
    /// The wait is over; the cookie is empty if there is none.
    Done(String),
}

/// What a step of a wait says.
pub enum WaitStepView {
    Ensure(u32),
    Pause(u64),
    Done(Seq<char>),
}

impl View for WaitStep {
    type V = WaitStepView;

    open spec fn view(&self) -> WaitStepView {
        match self {
            WaitStep::Ensure(n) => WaitStepView::Ensure(*n),
            WaitStep::Pause(ms) => WaitStepView::Pause(*ms),
            WaitStep::Done(c) => WaitStepView::Done(c@),
        }
    }
}

/// A wait for the cookie.
#[derive(Clone, Copy, Debug)]
pub struct Wait {
    pub patience: Patience,
}

/// When a brief wait that starts at `now` ends.
pub open spec fn brief_deadline(now: u128) -> u128 {
    if now > u128::MAX - BRIEF_WAIT_NANOS {
        u128::MAX
    } else {
        (now + BRIEF_WAIT_NANOS) as u128
    }
}

/// How often a wait tries the handshake each time.
pub open spec fn wait_attempts(patience: Patience) -> u32 {
    match patience {
        Patience::Rounds(_) => HANDSHAKE_ATTEMPTS,
        Patience::Until(_) => BRIEF_ATTEMPTS,
    }
}

/// Whether a wait is over at `now` though there is no cookie.
pub open spec fn wait_over(patience: Patience, now: u128) -> bool {
    match patience {
        Patience::Rounds(n) => n == 0,
        Patience::Until(deadline) => now >= deadline,
    }
}

/// What a look at the cookie leads to. A stale one is no better than none.
pub open spec fn after_look(patience: Patience, cache: CookieCache, now: u128) -> WaitStepView {
    match cache.fresh(now) {
        Some(c) => WaitStepView::Done(c),
        None => if wait_over(patience, now) {
            WaitStepView::Done(Seq::empty())
        } else {
            WaitStepView::Pause(WAIT_PAUSE_MS)
        },
    }
}

/// What is left of the patience after a pause.
pub open spec fn after_pause(patience: Patience) -> Patience {
    match patience {
        Patience::Rounds(n) => Patience::Rounds(
            if n == 0 {
                0
            } else {
                (n - 1) as u32
            },
        ),
        Patience::Until(deadline) => Patience::Until(deadline),
    }
}

impl Wait {
    /// Starts the wait of a request that is no page.
    pub fn patient() -> (r: (Wait, WaitStep))
        ensures
            r.0.patience == Patience::Rounds(WAIT_ROUNDS),
            r.1@ == WaitStepView::Ensure(HANDSHAKE_ATTEMPTS),
    {
        (Wait { patience: Patience::Rounds(WAIT_ROUNDS) }, WaitStep::Ensure(HANDSHAKE_ATTEMPTS))
    }

    /// Starts the wait of a page; a cookie that is not stale ends it at once.
    pub fn brief(cache: &CookieCache, now: u128) -> (r: (Wait, WaitStep))
        ensures
            r.0.patience == Patience::Until(brief_deadline(now)),
            r.1@ == match cache.fresh(now) {
                Some(c) => WaitStepView::Done(c),
                None => WaitStepView::Ensure(BRIEF_ATTEMPTS),
            },
    {
        let deadline: u128 = if now > u128::MAX - BRIEF_WAIT_NANOS {
            u128::MAX
        } else {
            now + BRIEF_WAIT_NANOS
        };
        let step = match cache.get_fresh(now) {
            Some(c) => WaitStep::Done(c),
            None => WaitStep::Ensure(BRIEF_ATTEMPTS),
        };
        (Wait { patience: Patience::Until(deadline) }, step)
    }

    /// The cookie has been made sure of, as far as it could be.
    pub fn ensured(&self, cache: &CookieCache, now: u128) -> (r: WaitStep)
        ensures
            r@ == after_look(self.patience, *cache, now),
    {
        match cache.get_fresh(now) {
            Some(c) => WaitStep::Done(c),
            None => {
                let over = match self.patience {
                    Patience::Rounds(n) => n == 0,
                    Patience::Until(deadline) => now >= deadline,
                };
                if over {
                    WaitStep::Done(String::new())
                } else {
                    WaitStep::Pause(WAIT_PAUSE_MS)
                }
            },
        }
    }

    /// A pause is over.
    pub fn paused(&mut self) -> (r: WaitStep)
        ensures
            final(self).patience == after_pause(old(self).patience),
            r@ == WaitStepView::Ensure(wait_attempts(old(self).patience)),
    {
        match self.patience {
            Patience::Rounds(n) => {
                self.patience = Patience::Rounds(
                    if n == 0 {
                        0
                    } else {
                        n - 1
                    },
                );
                WaitStep::Ensure(HANDSHAKE_ATTEMPTS)
            },
            Patience::Until(_) => WaitStep::Ensure(BRIEF_ATTEMPTS),
        }
    }
}

// ---------------------------------------------------------------------------
// Health
// ---------------------------------------------------------------------------

/// How the cookie is, in a word.
pub open spec fn cookie_status(cache: CookieCache, now: u128) -> Seq<char> {
    if cache.cookie() is None {
        "absent"@
    } else if cache.stale(now) {
        "expired"@
    } else {
        "ok"@
    }
}

/// What the proxy says of its health.
pub open spec fn health_members(
    cache: CookieCache,
    now: u128,
    agent_port: u16,
    has_agent_token: bool,
) -> Seq<(Seq<char>, JsonView)> {
    seq![
        ("status"@, JsonView::Text("ok"@)),
        ("ready"@, JsonView::Truth(cache.ready(now))),
        ("agent_port"@, JsonView::Number(agent_port as nat)),
        ("cookie"@, JsonView::Text(cookie_status(cache, now))),
        ("agent_token"@, JsonView::Truth(has_agent_token)),
        ("proxy_uptime"@, JsonView::Text("healthy"@)),
    ]
}

/// The health of the proxy as a JSON object. It is ready when there is a cookie
/// that is not stale.
pub fn health_payload(
    cache: &CookieCache,
    now: u128,
    agent_port: u16,
    has_agent_token: bool,
) -> (r: String)
    ensures
        r@ == object_json(health_members(*cache, now, agent_port, has_agent_token)),
{
    let has_cookie = cache.is_some();
    let expired = cache.is_expired(now);
    let ready = has_cookie && !expired;
    let status = if !has_cookie {
        "absent"
    } else if expired {
        "expired"
    } else {
        "ok"
    };
    let mut ms: Vec<(String, JsonValue)> = Vec::new();
    ms.push(("status".to_owned(), JsonValue::Text("ok".to_owned())));
    ms.push(("ready".to_owned(), JsonValue::Truth(ready)));
    ms.push(("agent_port".to_owned(), JsonValue::Number(agent_port as u64)));
    ms.push(("cookie".to_owned(), JsonValue::Text(status.to_owned())));
    ms.push(("agent_token".to_owned(), JsonValue::Truth(has_agent_token)));
    ms.push(("proxy_uptime".to_owned(), JsonValue::Text("healthy".to_owned())));
    assert(members_of(ms@) =~= health_members(*cache, now, agent_port, has_agent_token));
    object_text(&ms)
}

/// The reply to a question for the health of the proxy.
pub fn health_reply(
    cache: &CookieCache,
    now: u128,
    agent_port: u16,
    live_token: &str,
) -> (r: Reply)
    ensures
        r@ == plain_text(
            200,
            object_json(health_members(*cache, now, agent_port, live_token@.len() > 0)),
        ),
{
    let payload = health_payload(cache, now, agent_port, !live_token.is_empty());
    text_reply(200, payload.as_str())
}

// ---------------------------------------------------------------------------
// Laws
// ---------------------------------------------------------------------------

/// A cookie that was kept is ready for as long as it lives, and for no longer.
pub proof fn law_cookie_lives_its_time(cache: CookieCache, at: u128, now: u128)
    requires
        cache.cookie() is Some,
        cache.since() == Some(at),
    ensures
        cache.ready(now) <==> now - at <= COOKIE_TTL_MS * NANOS_PER_MS,
{
}

/// What a handshake gives when its tries are answered so, in this order: it
/// stops at the first that ends it, and gives nothing when they run out.
pub open spec fn handshake_result(
    replies: Seq<Option<Seq<(Seq<char>, Seq<u8>)>>>,
) -> Option<Seq<char>>
    decreases replies.len(),
{
    if replies.len() == 0 {
        None
    } else {
        match after_reply(replies[0]) {
            HandshakeStepView::Done(c) => c,
            _ => handshake_result(replies.drop_first()),
        }
    }
}

/// Whether an answer to a try sets no cookie.
pub open spec fn fruitless(reply: Option<Seq<(Seq<char>, Seq<u8>)>>) -> bool {
    match reply {
        Some(headers) => harvested(headers) is None,
        None => true,
    }
}

/// A handshake gives the cookie of the first answer that sets one; it gives none
/// exactly if no answer does.
pub proof fn law_handshake_gives_the_first_cookie(
    replies: Seq<Option<Seq<(Seq<char>, Seq<u8>)>>>,
)
    ensures
        handshake_result(replies) is None <==> forall|i: int|
            0 <= i < replies.len() ==> #[trigger] fruitless(replies[i]),
        forall|i: int|
            0 <= i < replies.len() && !(#[trigger] fruitless(replies[i])) && (forall|k: int|
                0 <= k < i ==> #[trigger] fruitless(replies[k])) ==> handshake_result(replies)
                == harvested(replies[i]->0),
    decreases replies.len(),
{
    if replies.len() > 0 {
        let rest = replies.drop_first();
        law_handshake_gives_the_first_cookie(rest);
        assert forall|i: int| 0 <= i < rest.len() implies fruitless(#[trigger] rest[i])
            == fruitless(replies[i + 1]) by {}
        if fruitless(replies[0]) {
            assert(handshake_result(replies) == handshake_result(rest));
            if handshake_result(rest) is None {
                assert forall|i: int| 0 <= i < replies.len() implies #[trigger] fruitless(
                    replies[i],
                ) by {
                    if i > 0 {
                        assert(fruitless(rest[i - 1]));
                    }
                }
            } else {
                let j = choose|j: int| 0 <= j < rest.len() && !(#[trigger] fruitless(rest[j]));
                assert(!fruitless(replies[j + 1]));
            }
            assert forall|i: int|
                0 <= i < replies.len() && !(#[trigger] fruitless(replies[i])) && (forall|k: int|
                    0 <= k < i ==> #[trigger] fruitless(replies[k])) implies handshake_result(
                replies,
            ) == harvested(replies[i]->0) by {
                assert(i > 0);
                assert(rest[i - 1] == replies[i]);
                assert forall|k: int| 0 <= k < i - 1 implies #[trigger] fruitless(rest[k]) by {
                    assert(fruitless(replies[k + 1]));
                }
                assert(!fruitless(rest[i - 1]));
            }
        } else {
            assert forall|i: int|
                0 <= i < replies.len() && !(#[trigger] fruitless(replies[i])) && (forall|k: int|
                    0 <= k < i ==> #[trigger] fruitless(replies[k])) implies handshake_result(
                replies,
            ) == harvested(replies[i]->0) by {
                if i > 0 {
                    assert(fruitless(replies[0]));
                }
            }
        }
    }
}

/// A wait pauses only while it has patience, and each pause of the wait of a
/// request that is no page takes one round from it: it pauses no more often than
/// it has rounds.
pub proof fn law_wait_is_bounded(patience: Patience, cache: CookieCache, now: u128)
    ensures
        after_look(patience, cache, now) is Pause ==> !cache.ready(now) && match patience {
            Patience::Rounds(n) => n > 0 && after_pause(patience) == Patience::Rounds(
                (n - 1) as u32,
            ),
            Patience::Until(deadline) => now < deadline && after_pause(patience) == patience,
        },
{
}

/// A stale cookie is never handed out: a wait ends with a cookie only if it is
/// ready, and then it ends with that one.
pub proof fn law_no_stale_cookie_is_handed_out(
    patience: Patience,
    cache: CookieCache,
    now: u128,
)
    ensures
        cache.ready(now) ==> after_look(patience, cache, now) == WaitStepView::Done(
            cache.cookie()->0,
        ),
        !cache.ready(now) ==> after_look(patience, cache, now) is Pause || after_look(
            patience,
            cache,
            now,
        ) == WaitStepView::Done(Seq::empty()),
{
}

/// The proxy calls itself ready exactly when it calls its cookie good, and then
/// no handshake is due.
pub proof fn law_ready_means_a_good_cookie(cache: CookieCache, now: u128, token: Seq<char>)
    ensures
        cache.ready(now) <==> cookie_status(cache, now) == "ok"@,
        cache.ready(now) ==> !due(cache, now, token),
{
    reveal_strlit("ok");
    reveal_strlit("absent");
    reveal_strlit("expired");
    assert("ok"@.len() == 2 && "absent"@.len() == 6 && "expired"@.len() == 7);
}

/// A cookie is good for 25 minutes from when it was kept, to the nanosecond; while
/// it is, it is what is handed out, and afterwards nothing is.
pub proof fn law_a_cookie_is_good_for_25_minutes(
    cache: CookieCache,
    cookie: Seq<char>,
    at: u128,
    now: u128,
)
    requires
        cache.cookie() == Some(cookie),
        cache.since() == Some(at),
    ensures
        now - at <= 1_500_000_000_000 ==> !cache.stale(now) && cache.fresh(now) == Some(cookie),
        now - at > 1_500_000_000_000 ==> cache.stale(now) && cache.fresh(now) is None,
{
}

/// Without a cookie there is nothing to hand out.
pub proof fn law_no_cookie_is_no_good_one(cache: CookieCache, now: u128)
    requires
        cache.cookie() is None,
    ensures
        cache.stale(now),
        !cache.ready(now),
        cache.fresh(now) is None,
        cookie_status(cache, now) == "absent"@,
{
}

/// What the proxy says of its cookie.
pub proof fn law_the_cookie_is_called_what_it_is(cache: CookieCache, now: u128)
    requires
        cache.cookie() is Some,
    ensures
        cache.stale(now) ==> cookie_status(cache, now) == "expired"@,
        !cache.stale(now) ==> cookie_status(cache, now) == "ok"@,
{
}

/// Of two launch tokens the first that is not empty counts; one that is not there is
/// empty.
pub proof fn law_the_first_filled_token_counts(a: Option<Seq<char>>, b: Seq<char>)
    ensures
        a is None ==> first_filled(or_empty(a), b) == b,
        a == Some(Seq::<char>::empty()) ==> first_filled(or_empty(a), b) == b,
        (a matches Some(t) && t.len() > 0) ==> first_filled(or_empty(a), b) == a->0,
{
}

/// The launch token is exchanged at the agent's port, and goes there as it is.
pub proof fn law_the_launch_token_is_exchanged(port: u16, token: Seq<char>)
    ensures
        exchange_url(port, token) == "http://127.0.0.1:"@ + decimal(port as nat) + "/?token="@
            + token,
{
}

/// The cookie of an answer is the first pair of its `set-cookie` header, without the
/// attributes that follow and without white space around it.
pub proof fn law_the_cookie_is_the_first_pair(
    headers: Seq<(Seq<char>, Seq<u8>)>,
    lead: Seq<char>,
    pair: Seq<char>,
    tail: Seq<char>,
    attributes: Seq<char>,
)
    requires
        blank(lead),
        blank(tail),
        pair.len() > 0 ==> !is_space(pair[0]) && !is_space(pair.last()),
        !(lead + pair + tail).contains(';'),
        field_text(headers, "set-cookie"@) == Some(lead + pair + tail) || field_text(
            headers,
            "set-cookie"@,
        ) == Some(lead + pair + tail + seq![';'] + attributes),
    ensures
        pair.len() > 0 ==> harvested(headers) == Some(pair),
        pair.len() == 0 ==> harvested(headers) is None,
{
    lemma_span_of_free(lead + pair + tail, ';');
    lemma_span_of_joined(lead + pair + tail, ';', attributes);
    law_trimming_takes_the_blank_ends(lead, pair, tail);
}

/// An answer without a readable `set-cookie` header brings no cookie; one that brings
/// none, or no answer, is followed by a pause of half a second; one that brings a
/// cookie ends the handshake with it.
pub proof fn law_what_an_answer_leads_to(headers: Seq<(Seq<char>, Seq<u8>)>)
    ensures
        field_text(headers, "set-cookie"@) is None ==> harvested(headers) is None,
        harvested(headers) is None ==> after_reply(Some(headers)) == HandshakeStepView::Pause(500),
        harvested(headers) matches Some(c) ==> after_reply(Some(headers))
            == HandshakeStepView::Done(Some(c)),
        after_reply(None) == HandshakeStepView::Pause(500),
{
}

/// A handshake is due where no good cookie is at hand and there is a token to
/// exchange, and only there.
pub proof fn law_when_a_handshake_is_due(cache: CookieCache, now: u128, token: Seq<char>)
    ensures
        due(cache, now, token) <==> token.len() > 0 && (cache.cookie() is None || cache.stale(
            now,
        )),
{
}

/// How long a wait goes on: a page's for eight seconds, with one try at a time; that
/// of any other request for eight pauses, with twenty tries at a time. A pause takes
/// 400 milliseconds, and a good cookie ends either.
pub proof fn law_how_long_a_wait_goes_on(cache: CookieCache, now: u128, n: u32, deadline: u128)
    ensures
        WAIT_ROUNDS == 8,
        now <= 1_000_000_000_000_000_000_000_000_000 ==> brief_deadline(now) == now
            + 8_000_000_000,
        wait_attempts(Patience::Rounds(n)) == 20,
        wait_attempts(Patience::Until(deadline)) == 1,
        cache.fresh(now) matches Some(c) ==> after_look(Patience::Rounds(n), cache, now)
            == WaitStepView::Done(c) && after_look(Patience::Until(deadline), cache, now)
            == WaitStepView::Done(c),
        cache.fresh(now) is None && n > 0 ==> after_look(Patience::Rounds(n), cache, now)
            == WaitStepView::Pause(400),
        cache.fresh(now) is None && n == 0 ==> after_look(Patience::Rounds(n), cache, now)
            == WaitStepView::Done(Seq::empty()),
        cache.fresh(now) is None && now < deadline ==> after_look(
            Patience::Until(deadline),
            cache,
            now,
        ) == WaitStepView::Pause(400),
        cache.fresh(now) is None && now >= deadline ==> after_look(
            Patience::Until(deadline),
            cache,
            now,
        ) == WaitStepView::Done(Seq::empty()),
        n > 0 ==> after_pause(Patience::Rounds(n)) == Patience::Rounds((n - 1) as u32),
        after_pause(Patience::Until(deadline)) == Patience::Until(deadline),
{
}

/// The health of the proxy, word for word: it is ready if its cookie is good, and it
/// names the agent's port and whether there is a launch token.
pub proof fn law_health_is_told_truly(
    cache: CookieCache,
    now: u128,
    port: u16,
    has_token: bool,
)
    ensures
        object_json(health_members(cache, now, port, has_token)) == "{"@ + (json_quoted("status"@)
            + ":"@ + json_quoted("ok"@) + ","@ + (json_quoted("ready"@) + ":"@ + word(
            cache.cookie() is Some && !cache.stale(now),
        ) + ","@ + (json_quoted("agent_port"@) + ":"@ + decimal(port as nat) + ","@ + (json_quoted(
            "cookie"@,
        ) + ":"@ + json_quoted(cookie_status(cache, now)) + ","@ + (json_quoted("agent_token"@)
            + ":"@ + word(has_token) + ","@ + (json_quoted("proxy_uptime"@) + ":"@ + json_quoted(
            "healthy"@,
        ) + "}"@)))))),
{
    let ms = health_members(cache, now, port, has_token);
    let m5 = ms.skip(5);
    let m4 = ms.skip(4);
    let m3 = ms.skip(3);
    let m2 = ms.skip(2);
    let m1 = ms.skip(1);
    let t5 = json_quoted("proxy_uptime"@) + ":"@ + json_quoted("healthy"@) + "}"@;
    let t4 = json_quoted("agent_token"@) + ":"@ + word(has_token) + ","@ + t5;
    let t3 = json_quoted("cookie"@) + ":"@ + json_quoted(cookie_status(cache, now)) + ","@ + t4;
    let t2 = json_quoted("agent_port"@) + ":"@ + decimal(port as nat) + ","@ + t3;
    let t1 = json_quoted("ready"@) + ":"@ + word(cache.ready(now)) + ","@ + t2;
    assert(m5 =~= seq![ms[5]]);
    assert(m4 =~= seq![ms[4]] + m5);
    assert(m3 =~= seq![ms[3]] + m4);
    assert(m2 =~= seq![ms[2]] + m3);
    assert(m1 =~= seq![ms[1]] + m2);
    assert(ms =~= seq![ms[0]] + m1);
    reveal_strlit("{");
    lemma_last_member(ms[5]);
    lemma_more_members(ms[4], m5, t5);
    lemma_more_members(ms[3], m4, t4);
    lemma_more_members(ms[2], m3, t3);
    lemma_more_members(ms[1], m2, t2);
    lemma_more_members(ms[0], m1, t1);
}

/// A truth as a word.
pub open spec fn word(b: bool) -> Seq<char> {
    if b {
        "true"@
    } else {
        "false"@
    }
}

/// The last member of an object.
proof fn lemma_last_member(m: (Seq<char>, JsonView))
    ensures
        object_json(seq![m]) == "{"@ + (json_quoted(m.0) + ":"@ + value_json(m.1) + "}"@),
{
    law_an_object_is_its_members(m, Seq::empty(), Seq::empty(), 0);
    assert("{"@ + json_quoted(m.0) + ":"@ + value_json(m.1) + "}"@ =~= "{"@ + (json_quoted(m.0)
        + ":"@ + value_json(m.1) + "}"@));
}

/// A member before others.
proof fn lemma_more_members(
    m: (Seq<char>, JsonView),
    rest: Seq<(Seq<char>, JsonView)>,
    tail: Seq<char>,
)
    requires
        rest.len() > 0,
        object_json(rest) == "{"@ + tail,
    ensures
        object_json(seq![m] + rest) == "{"@ + (json_quoted(m.0) + ":"@ + value_json(m.1) + ","@
            + tail),
{
    reveal_strlit("{");
    law_an_object_is_its_members(m, rest, Seq::empty(), 0);
    assert(("{"@ + tail).drop_first() =~= tail);
    assert("{"@ + json_quoted(m.0) + ":"@ + value_json(m.1) + ","@ + tail =~= "{"@ + (json_quoted(
        m.0,
    ) + ":"@ + value_json(m.1) + ","@ + tail));
}

} // verus!
