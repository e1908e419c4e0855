//! WebSocket tunnels: where the agent is looked for, and what passes through.

use vstd::prelude::*;
use vstd::string::*;

use crate::auth::{
    allowed_origin, law_stripped_has_no_token, origin_allowed, presented_token, query_value,
    strip_proxy_token, stripped, valid_token,
};
use crate::exchange::ProxyState;
use crate::forward::{agent_address, agent_url};
use crate::http::{
    fields, plain_text, query_or_empty, target_or_root, text_reply, Header, Reply, ReplyView,
    RequestUri,
};
use crate::text::{
    after, decimal, joined, lemma_span_of_joined, opt_text, same_text, text_after, text_has_char,
    texts,
};

verus! {

// ---------------------------------------------------------------------------
// Where the agent is looked for
// ---------------------------------------------------------------------------

/// The names that the agent's endpoint has had, the current one first.
pub open spec fn ws_route_names() -> Seq<Seq<char>> {
    seq!["/api/remote.mux"@, "/api/events.mux"@, "/api/events.host"@]
}

/// The names that the agent's endpoint has had, the current one first.
pub fn ws_routes() -> (r: Vec<String>)
    ensures
        texts(r@) == ws_route_names(),
{
    let mut r: Vec<String> = Vec::new();
    r.push("/api/remote.mux".to_owned());
    r.push("/api/events.mux".to_owned());
    r.push("/api/events.host".to_owned());
    assert(texts(r@) =~= ws_route_names());
    r
}

/// A name of the endpoint with the query of a request.
pub open spec fn route_with_query(route: Seq<char>, requested: Seq<char>) -> Seq<char> {
    if requested.contains('?') && after(requested, '?').len() > 0 {
        route + "?"@ + after(requested, '?')
    } else {
        route
    }
}

/// A list with one more entry, unless it is there already.
pub open spec fn with_new(list: Seq<Seq<char>>, c: Seq<char>) -> Seq<Seq<char>> {
    if list.contains(c) {
        list
    } else {
        list.push(c)
    }
}

/// The places at which the agent is tried for a request, when `n` names of the
/// endpoint are taken into account: what was asked for, then each name.
pub open spec fn places(requested: Seq<char>, n: int) -> Seq<Seq<char>>
    decreases n,
{
    if n <= 0 {
        seq![requested]
    } else {
        with_new(places(requested, n - 1), route_with_query(ws_route_names()[n - 1], requested))
    }
}

/// The places at which the agent is tried for a request to this target. The
/// proxy's own token is left out.
pub open spec fn candidates_of(uri: Option<Seq<char>>) -> Seq<Seq<char>> {
    places(stripped(target_or_root(uri)), 3)
}

/// Whether a list holds a text.
fn holds_text(list: &Vec<String>, c: &str) -> (r: bool)
    ensures
        r == texts(list@).contains(c@),
{
    for i in 0..list.len()
        invariant
            forall|k: int| 0 <= k < i ==> texts(list@)[k] != c@,
    {
        if same_text(list[i].as_str(), c) {
            assert(texts(list@)[i as int] == c@);
            return true;
        }
        assert(texts(list@)[i as int] != c@);
    }
    false
}

/// The places at which the agent is tried for a request to this target.
pub fn ws_candidates(uri: &RequestUri) -> (r: Vec<String>)
    ensures
        texts(r@) == candidates_of(uri@),
{
    let target = uri.target();
    let requested = strip_proxy_token(target.as_str());
    let query = if text_has_char(requested.as_str(), '?') {
        text_after(requested.as_str(), '?')
    } else {
        String::new()
    };
    let routes = ws_routes();
    let mut out: Vec<String> = Vec::new();
    out.push(requested.clone());
    assert(texts(out@) =~= places(requested@, 0));
    assert(routes.len() == texts(routes@).len());
    for i in 0..routes.len()
        invariant
            texts(routes@) == ws_route_names(),
            routes.len() == 3,
            query@ == if requested@.contains('?') {
                after(requested@, '?')
            } else {
                Seq::empty()
            },
            texts(out@) == places(requested@, i as int),
    {
        assert(texts(routes@)[i as int] == routes@[i as int]@);
        let mut cand = routes[i].clone();
        if !query.as_str().is_empty() {
            cand.append("?");
            cand.append(query.as_str());
        }
        let ghost before_push = texts(out@);
        if !holds_text(&out, cand.as_str()) {
            out.push(cand);
            assert(texts(out@) =~= before_push.push(cand@));
        }
    }
    out
}

// ---------------------------------------------------------------------------
// Opening a tunnel
// ---------------------------------------------------------------------------

/// A tunnel that is being opened.
#[derive(Clone, Debug)]
pub struct Tunnel {
    port: u16,
    cookie: String,
    candidates: Vec<String>,
    current: usize,
    errors: String,
}

/// What is known of a tunnel that is being opened.
pub struct TunnelView {
    pub port: u16,
    /// The cookie of the session, empty until it is there.
    pub cookie: Seq<char>,
    pub candidates: Seq<Seq<char>>,
    /// The place that is being tried.
    pub current: int,
    /// What went wrong at the places before.
    pub errors: Seq<char>,
}

impl View for Tunnel {
    type V = TunnelView;

    closed spec fn view(&self) -> TunnelView {
        TunnelView {
            port: self.port,
            cookie: self.cookie@,
            candidates: texts(self.candidates@),
            current: self.current as int,
            errors: self.errors@,
        }
    }
}

/// The reply to a request for a tunnel that is turned away.
pub open spec fn tunnel_refusal(
    token: Seq<char>,
    uri: Option<Seq<char>>,
    headers: Seq<(Seq<char>, Seq<u8>)>,
) -> Option<ReplyView> {
    if presented_token(uri, headers) != Some(token) {
        Some(plain_text(401, "unauthorized"@))
    } else if !origin_allowed(headers) {
        Some(plain_text(403, "forbidden origin"@))
    } else {
        None
    }
}

/// What a tunnel does next.
#[derive(Clone, Debug)]
pub enum TunnelStep {
    /// Connect to this address with this cookie.
    Connect { url: String, cookie: String },
    /// Let messages pass, after this notice if there is one.
    Pipe(Option<String>),
    /// Close the browser's side, after this notice.
    Drop(String),
}

/// What a step of a tunnel says.
pub enum TunnelStepView {
    Connect { url: Seq<char>, cookie: Seq<char> },
    Pipe(Option<Seq<char>>),
    Drop(Seq<char>),
}

impl View for TunnelStep {
    type V = TunnelStepView;

    open spec fn view(&self) -> TunnelStepView {
        match self {
            TunnelStep::Connect { url, cookie } => TunnelStepView::Connect {
                url: url@,
                cookie: cookie@,
            },
            TunnelStep::Pipe(n) => TunnelStepView::Pipe(opt_text(*n)),
            TunnelStep::Drop(m) => TunnelStepView::Drop(m@),
        }
    }
}

/// The try at the place that is current, with the cookie of the session.
pub open spec fn try_current(t: TunnelView) -> TunnelStepView {
    TunnelStepView::Connect {
        url: agent_url("ws"@, t.port, t.candidates[t.current]),
        cookie: t.cookie,
    }
}

/// What is noted of a place that failed.
pub open spec fn failure_note(place: Seq<char>, bad_request: bool, error: Seq<char>) -> Seq<char> {
    "["@ + place + (if bad_request {
        "] bad request: "@
    } else {
        "] "@
    }) + error + "; "@
}

/// A tunnel after its current place has failed.
pub open spec fn after_failure(t: TunnelView, bad_request: bool, error: Seq<char>) -> TunnelView {
    TunnelView {
        current: t.current + 1,
        errors: t.errors + failure_note(t.candidates[t.current], bad_request, error),
        ..t
    }
}

/// What follows when the current place has failed: the next place, or the end.
pub open spec fn step_after_failure(
    t: TunnelView,
    bad_request: bool,
    error: Seq<char>,
) -> TunnelStepView {
    let next = after_failure(t, bad_request, error);
    if next.current < next.candidates.len() {
        try_current(next)
    } else {
        TunnelStepView::Drop("proxy ws upstream connect failed: "@ + next.errors)
    }
}

impl Tunnel {
    /// Whether there is a place to try.
    pub open spec fn open_ended(&self) -> bool {
        0 <= self@.current < self@.candidates.len()
    }

    /// Judges a request for a tunnel: it is turned away with a reply, or let in.
    pub fn open(state: &ProxyState, uri: &RequestUri, headers: &Vec<Header>) -> (r: Result<
        Tunnel,
        Reply,
    >)
        ensures
            match tunnel_refusal(state.token@, uri@, fields(headers@)) {
                Some(reply) => r is Err && r->Err_0@ == reply,
                None => {
                    &&& r is Ok
                    &&& r->Ok_0@.port == state.agent_port
                    &&& r->Ok_0@.cookie == Seq::<char>::empty()
                    &&& r->Ok_0@.candidates == candidates_of(uri@)
                    &&& r->Ok_0@.current == 0
                    &&& r->Ok_0@.errors == Seq::<char>::empty()
                    &&& r->Ok_0.open_ended()
                },
            },
    {
        if !valid_token(state.token.as_str(), uri, headers) {
            return Err(text_reply(401, "unauthorized"));
        }
        if !allowed_origin(headers) {
            return Err(text_reply(403, "forbidden origin"));
        }
        let candidates = ws_candidates(uri);
        proof {
            lemma_places(stripped(target_or_root(uri@)), 3);
        }
        assert(candidates.len() == texts(candidates@).len());
        Ok(
            Tunnel {
                port: state.agent_port,
                cookie: String::new(),
                candidates,
                current: 0,
                errors: String::new(),
            },
        )
    }

    /// The wait for the cookie of the session is over; it is empty if there is none.
    pub fn begin(&mut self, cookie: &str) -> (r: TunnelStep)
        requires
            old(self).open_ended(),
        ensures
            final(self)@ == (TunnelView { cookie: cookie@, ..old(self)@ }),
            final(self).open_ended(),
            r@ == if cookie@.len() == 0 {
                TunnelStepView::Drop(
                    "proxy ws: harness auth cookie unavailable, dropping upgrade"@,
                )
            } else {
                try_current(final(self)@)
            },
    {
        self.cookie = cookie.to_owned();
        if cookie.is_empty() {
            TunnelStep::Drop(
                "proxy ws: harness auth cookie unavailable, dropping upgrade".to_owned(),
            )
        } else {
            self.connect()
        }
    }

    /// The try at the place that is current.
    fn connect(&self) -> (r: TunnelStep)
        requires
            self.open_ended(),
        ensures
            r@ == try_current(self@),
    {
        assert(texts(self.candidates@)[self.current as int]
            == self.candidates@[self.current as int]@);
        TunnelStep::Connect {
            url: agent_address("ws", self.port, self.candidates[self.current].as_str()),
            cookie: self.cookie.clone(),
        }
    }

    /// The agent could not be reached at the current place.
    pub fn failed(&mut self, bad_request: bool, error: &str) -> (r: TunnelStep)
        requires
            old(self).open_ended(),
        ensures
            final(self)@ == after_failure(old(self)@, bad_request, error@),
            r@ == step_after_failure(old(self)@, bad_request, error@),
            r@ is Connect ==> final(self).open_ended(),
    {
        assert(texts(self.candidates@)[self.current as int]
            == self.candidates@[self.current as int]@);
        let mut errors = joined(self.errors.as_str(), "[");
        errors.append(self.candidates[self.current].as_str());
        if bad_request {
            errors.append("] bad request: ");
        } else {
            errors.append("] ");
        }
        errors.append(error);
        errors.append("; ");
        assert(errors@ =~= self.errors@ + failure_note(
            self@.candidates[self@.current],
            bad_request,
            error@,
        ));
        self.errors = errors;
        let n: usize = self.candidates.len();
        self.current = self.current + 1;
        if self.current < n {
            self.connect()
        } else {
            TunnelStep::Drop(joined("proxy ws upstream connect failed: ", self.errors.as_str()))
        }
    }

    /// The agent has been reached at the current place.
    pub fn connected(&self) -> (r: TunnelStep)
        requires
            self.open_ended(),
        ensures
            r@ == TunnelStepView::Pipe(
                if self@.current > 0 {
                    Some(
                        "proxy ws: upstream path fell back to "@
                            + self@.candidates[self@.current],
                    )
                } else {
                    None
                },
            ),
    {
        assert(texts(self.candidates@)[self.current as int]
            == self.candidates@[self.current as int]@);
        if self.current > 0 {
            TunnelStep::Pipe(
                Some(
                    joined(
                        "proxy ws: upstream path fell back to ",
                        self.candidates[self.current].as_str(),
                    ),
                ),
            )
        } else {
            TunnelStep::Pipe(None)
        }
    }
}

// ---------------------------------------------------------------------------
// What passes through
// ---------------------------------------------------------------------------

/// Why a side closes.
#[derive(Clone, Debug)]
pub struct CloseReason {
    pub code: u16,
    pub reason: String,
}

/// A message of the browser's side.
#[derive(Clone, Debug)]
pub enum ClientMessage {
    Text(String),
    Binary(Vec<u8>),
    Ping(Vec<u8>),
    Pong(Vec<u8>),
    Close(Option<CloseReason>),
}

/// A message of the agent's side.
#[derive(Clone, Debug)]
pub enum UpstreamMessage {
    Text(String),
    Binary(Vec<u8>),
    Ping(Vec<u8>),
    Pong(Vec<u8>),
    Close(Option<CloseReason>),
    /// A raw frame, which the browser's side has no message for.
    Frame,
}

/// A message of the browser's side as one of the agent's: as it is, but a close
/// goes without its reason.
pub open spec fn to_upstream(m: ClientMessage) -> UpstreamMessage {
    match m {
        ClientMessage::Text(t) => UpstreamMessage::Text(t),
        ClientMessage::Binary(b) => UpstreamMessage::Binary(b),
        ClientMessage::Ping(b) => UpstreamMessage::Ping(b),
        ClientMessage::Pong(b) => UpstreamMessage::Pong(b),
        ClientMessage::Close(_) => UpstreamMessage::Close(None),
    }
}

/// A message of the agent's side as one of the browser's, where there is one: as
/// it is, but a close goes without its reason.
pub open spec fn to_client(m: UpstreamMessage) -> Option<ClientMessage> {
    match m {
        UpstreamMessage::Text(t) => Some(ClientMessage::Text(t)),
        UpstreamMessage::Binary(b) => Some(ClientMessage::Binary(b)),
        UpstreamMessage::Ping(b) => Some(ClientMessage::Ping(b)),
        UpstreamMessage::Pong(b) => Some(ClientMessage::Pong(b)),
        UpstreamMessage::Close(_) => Some(ClientMessage::Close(None)),
        UpstreamMessage::Frame => None,
    }
}

/// A message of the browser's side as one of the agent's.
pub fn a_to_t(m: ClientMessage) -> (r: UpstreamMessage)
    ensures
        r == to_upstream(m),
{
    match m {
        ClientMessage::Text(t) => UpstreamMessage::Text(t),
        ClientMessage::Binary(b) => UpstreamMessage::Binary(b),
        ClientMessage::Ping(b) => UpstreamMessage::Ping(b),
        ClientMessage::Pong(b) => UpstreamMessage::Pong(b),
        ClientMessage::Close(_) => UpstreamMessage::Close(None),
    }
}

/// A message of the agent's side as one of the browser's, where there is one.
pub fn t_to_a(m: UpstreamMessage) -> (r: Option<ClientMessage>)
    ensures
        r == to_client(m),
{
    match m {
        UpstreamMessage::Text(t) => Some(ClientMessage::Text(t)),
        UpstreamMessage::Binary(b) => Some(ClientMessage::Binary(b)),
        UpstreamMessage::Ping(b) => Some(ClientMessage::Ping(b)),
        UpstreamMessage::Pong(b) => Some(ClientMessage::Pong(b)),
        UpstreamMessage::Close(_) => Some(ClientMessage::Close(None)),
        UpstreamMessage::Frame => None,
    }
}

/// What a tunnel does with what it hears.
#[derive(Clone, Debug)]
pub enum PipeStep {
    /// Send the agent this message.
    ToUpstream(UpstreamMessage),
    /// Send the browser this message.
    ToClient(ClientMessage),
    /// Go on.
    Continue,
    /// Close the agent's side: the tunnel is over.
    CloseUpstream,
    /// Close the browser's side: the tunnel is over.
    CloseClient,
}

/// The browser has sent a message, or sends no more.
pub fn from_client(m: Option<ClientMessage>) -> (r: PipeStep)
    ensures
        r == match m {
            Some(x) => PipeStep::ToUpstream(to_upstream(x)),
            None => PipeStep::CloseUpstream,
        },
{
    match m {
        Some(x) => PipeStep::ToUpstream(a_to_t(x)),
        None => PipeStep::CloseUpstream,
    }
}

/// The agent has sent a message, or sends no more. A message that the browser's
/// side has none for is passed over.
pub fn from_upstream(m: Option<UpstreamMessage>) -> (r: PipeStep)
    ensures
        r == match m {
            Some(x) => match to_client(x) {
                Some(y) => PipeStep::ToClient(y),
                None => PipeStep::Continue,
            },
            None => PipeStep::CloseClient,
        },
{
    match m {
        Some(x) => match t_to_a(x) {
            Some(y) => PipeStep::ToClient(y),
            None => PipeStep::Continue,
        },
        None => PipeStep::CloseClient,
    }
}

/// A message to the agent has been sent, or could not be.
pub fn sent_upstream(sent: bool) -> (r: PipeStep)
    ensures
        r == if sent {
            PipeStep::Continue
        } else {
            PipeStep::CloseUpstream
        },
{
    if sent {
        PipeStep::Continue
    } else {
        PipeStep::CloseUpstream
    }
}

/// A message to the browser has been sent, or could not be.
pub fn sent_client(sent: bool) -> (r: PipeStep)
    ensures
        r == if sent {
            PipeStep::Continue
        } else {
            PipeStep::CloseClient
        },
{
    if sent {
        PipeStep::Continue
    } else {
        PipeStep::CloseClient
    }
}

// ---------------------------------------------------------------------------
// Laws
// ---------------------------------------------------------------------------

/// The places are what was asked for and the names of the endpoint, each once.
proof fn lemma_places(requested: Seq<char>, n: int)
    requires
        0 <= n <= 3,
    ensures
        1 <= places(requested, n).len() <= n + 1,
        places(requested, n)[0] == requested,
        places(requested, n).no_duplicates(),
        forall|k: int|
            0 <= k < n ==> places(requested, n).contains(
                #[trigger] route_with_query(ws_route_names()[k], requested),
            ),
        forall|c: Seq<char>| #[trigger]
            places(requested, n).contains(c) ==> c == requested || exists|k: int|
                0 <= k < n && c == #[trigger] route_with_query(ws_route_names()[k], requested),
    decreases n,
{
    if n > 0 {
        lemma_places(requested, n - 1);
        let list = places(requested, n - 1);
        let c = route_with_query(ws_route_names()[n - 1], requested);
        let more = places(requested, n);
        if !list.contains(c) {
            assert(more[list.len() as int] == c);
            assert forall|d: Seq<char>| list.contains(d) implies #[trigger] more.contains(d) by {
                let i = list.index_of(d);
                assert(more[i] == d);
            }
            assert forall|d: Seq<char>| #[trigger] more.contains(d) implies d == c
                || list.contains(d) by {
                let i = more.index_of(d);
                if i < list.len() {
                    assert(list[i] == d);
                }
            }
        }
    } else {
        let list = places(requested, 0);
        assert(list.contains(requested)) by {
            assert(list[0] == requested);
        }
    }
}

/// The agent is tried first where the browser asked for it, then at every name
/// that its endpoint has had, and at no place twice.
pub proof fn law_every_place_is_tried_once(uri: Option<Seq<char>>, k: int)
    requires
        0 <= k < 3,
    ensures
        candidates_of(uri).len() <= 4,
        candidates_of(uri)[0] == stripped(target_or_root(uri)),
        candidates_of(uri).no_duplicates(),
        candidates_of(uri).contains(
            route_with_query(ws_route_names()[k], stripped(target_or_root(uri))),
        ),
{
    lemma_places(stripped(target_or_root(uri)), 3);
}

/// The agent never gets the proxy's own token: no place carries it.
pub proof fn law_no_place_carries_the_token(uri: Option<Seq<char>>, i: int)
    requires
        0 <= i < candidates_of(uri).len(),
    ensures
        query_value(query_or_empty(Some(candidates_of(uri)[i])), "t"@) is None,
{
    let requested = stripped(target_or_root(uri));
    lemma_places(requested, 3);
    law_stripped_has_no_token(target_or_root(uri));
    let c = candidates_of(uri)[i];
    assert(candidates_of(uri).contains(c));
    reveal_strlit("/api/remote.mux");
    reveal_strlit("/api/events.mux");
    reveal_strlit("/api/events.host");
    reveal_strlit("?");
    if c != requested {
        let k = choose|k: int|
            0 <= k < 3 && c == #[trigger] route_with_query(ws_route_names()[k], requested);
        let route = ws_route_names()[k];
        assert(!route.contains('?'));
        if requested.contains('?') && after(requested, '?').len() > 0 {
            let q = after(requested, '?');
            assert(c =~= route + seq!['?'] + q);
            lemma_span_of_joined(route, '?', q);
            assert(query_or_empty(Some(c)) == q);
            assert(query_or_empty(Some(requested)) == q);
        } else {
            assert(c == route);
            law_stripped_has_no_token(Seq::empty());
            assert(!stripped(Seq::<char>::empty()).contains('?'));
        }
    }
}

/// Every failed place brings the end nearer: the places that are left become
/// fewer, and where none is left the tunnel is dropped.
pub proof fn law_places_run_out(t: TunnelView, bad_request: bool, error: Seq<char>)
    requires
        0 <= t.current < t.candidates.len(),
    ensures
        after_failure(t, bad_request, error).candidates == t.candidates,
        after_failure(t, bad_request, error).cookie == t.cookie,
        after_failure(t, bad_request, error).current == t.current + 1,
        step_after_failure(t, bad_request, error) is Drop <==> t.current + 1
            == t.candidates.len(),
{
}

/// What the browser sends comes back as it was sent, if the agent returns it;
/// only the reason of a close is lost.
pub proof fn law_messages_survive_the_way(m: ClientMessage)
    ensures
        to_client(to_upstream(m)) == Some(
            match m {
                ClientMessage::Close(_) => ClientMessage::Close(None),
                _ => m,
            },
        ),
{
}

/// A tunnel is asked for at the agent's own endpoint with what the browser asked for:
/// the query goes with each name of the endpoint, and an empty one goes with none.
pub proof fn law_the_query_goes_along(route: Seq<char>, path: Seq<char>, query: Seq<char>)
    requires
        !path.contains('?'),
    ensures
        query.len() > 0 ==> route_with_query(route, path + seq!['?'] + query) == route + seq!['?']
            + query,
        query.len() == 0 ==> route_with_query(route, path + seq!['?'] + query) == route,
        route_with_query(route, path) == route,
{
    reveal_strlit("?");
    lemma_span_of_joined(path, '?', query);
    assert("?"@ =~= seq!['?']);
}

/// First what was asked for is tried, then each name that the endpoint has had, the
/// current one first; none of them twice.
pub proof fn law_the_order_of_the_places(uri: Option<Seq<char>>)
    ensures
        ({
            let s = stripped(
                match uri {
                    Some(t) => t,
                    None => "/"@,
                },
            );
            let a = route_with_query("/api/remote.mux"@, s);
            let b = route_with_query("/api/events.mux"@, s);
            let c = route_with_query("/api/events.host"@, s);
            &&& s != a && s != b && s != c ==> candidates_of(uri) == seq![s, a, b, c]
            &&& s == a ==> candidates_of(uri) == seq![s, b, c]
            &&& s == b ==> candidates_of(uri) == seq![s, a, c]
            &&& s == c ==> candidates_of(uri) == seq![s, a, b]
        }),
{
    let s = stripped(target_or_root(uri));
    let a = route_with_query("/api/remote.mux"@, s);
    let b = route_with_query("/api/events.mux"@, s);
    let c = route_with_query("/api/events.host"@, s);
    reveal_strlit("/api/remote.mux");
    reveal_strlit("/api/events.mux");
    reveal_strlit("/api/events.host");
    assert(a[5] == 'r' && b[5] == 'e' && c[5] == 'e');
    assert(b[12] == 'm' && c[12] == 'h');
    assert(ws_route_names()[0] == "/api/remote.mux"@ && ws_route_names()[1] == "/api/events.mux"@
        && ws_route_names()[2] == "/api/events.host"@);
    reveal_with_fuel(places, 4);
    let p0 = seq![s];
    assert(places(s, 0) == p0);
    let p1 = with_new(p0, a);
    assert(places(s, 1) == p1);
    assert(p0.contains(a) <==> s == a) by {
        if s == a {
            assert(p0[0] == a);
        }
    }
    assert(p1 =~= if s == a {
        seq![s]
    } else {
        seq![s, a]
    });
    let p2 = with_new(p1, b);
    assert(places(s, 2) == p2);
    assert(p1.contains(b) <==> s == b) by {
        if s == b {
            assert(p1[0] == b);
        }
    }
    assert(p2 =~= if s == a {
        seq![s, b]
    } else if s == b {
        seq![s, a]
    } else {
        seq![s, a, b]
    });
    let p3 = with_new(p2, c);
    assert(places(s, 3) == p3);
    assert(p2.contains(c) <==> s == c) by {
        if s == c {
            assert(p2[0] == c);
        }
    }
    assert(p3 =~= if s == a {
        seq![s, b, c]
    } else if s == b {
        seq![s, a, c]
    } else if s == c {
        seq![s, a, b]
    } else {
        seq![s, a, b, c]
    });
}

/// Each try goes to its place at the agent's port with the cookie of the session; a
/// place that fails is noted with its error and followed by the next, and the last by
/// the end, with all that was noted.
pub proof fn law_the_places_are_tried_in_order(
    t: TunnelView,
    bad_request: bool,
    error: Seq<char>,
)
    requires
        0 <= t.current < t.candidates.len(),
    ensures
        try_current(t) == (TunnelStepView::Connect {
            url: "ws://127.0.0.1:"@ + decimal(t.port as nat) + t.candidates[t.current],
            cookie: t.cookie,
        }),
        after_failure(t, bad_request, error).port == t.port,
        bad_request ==> after_failure(t, bad_request, error).errors == t.errors + ("["@
            + t.candidates[t.current] + "] bad request: "@ + error + "; "@),
        !bad_request ==> after_failure(t, bad_request, error).errors == t.errors + ("["@
            + t.candidates[t.current] + "] "@ + error + "; "@),
        t.current + 1 < t.candidates.len() ==> step_after_failure(t, bad_request, error) == (
        TunnelStepView::Connect {
            url: "ws://127.0.0.1:"@ + decimal(t.port as nat) + t.candidates[t.current + 1],
            cookie: t.cookie,
        }),
        t.current + 1 == t.candidates.len() ==> step_after_failure(t, bad_request, error)
            == TunnelStepView::Drop(
            "proxy ws upstream connect failed: "@ + after_failure(t, bad_request, error).errors,
        ),
{
    reveal_strlit("ws");
    reveal_strlit("://127.0.0.1:");
    reveal_strlit("ws://127.0.0.1:");
    assert("ws"@ + "://127.0.0.1:"@ =~= "ws://127.0.0.1:"@);
}

/// A tunnel is refused to one who does not present the token, and to one who comes
/// from a foreign page; to nobody else.
pub proof fn law_who_is_refused_a_tunnel(
    token: Seq<char>,
    uri: Option<Seq<char>>,
    headers: Seq<(Seq<char>, Seq<u8>)>,
)
    ensures
        presented_token(uri, headers) != Some(token) ==> tunnel_refusal(token, uri, headers)
            == Some(plain_text(401, "unauthorized"@)),
        presented_token(uri, headers) == Some(token) && !origin_allowed(headers)
            ==> tunnel_refusal(token, uri, headers) == Some(plain_text(403, "forbidden origin"@)),
        presented_token(uri, headers) == Some(token) && origin_allowed(headers) ==> tunnel_refusal(
            token,
            uri,
            headers,
        ) is None,
{
}

/// A message passes as what it is, in either direction, with all that it holds; only
/// a close goes without its reason, and a raw frame goes to nobody.
pub proof fn law_messages_pass_as_they_are(
    t: String,
    b: Vec<u8>,
    c: Option<CloseReason>,
)
    ensures
        to_upstream(ClientMessage::Text(t)) == UpstreamMessage::Text(t),
        to_upstream(ClientMessage::Binary(b)) == UpstreamMessage::Binary(b),
        to_upstream(ClientMessage::Ping(b)) == UpstreamMessage::Ping(b),
        to_upstream(ClientMessage::Pong(b)) == UpstreamMessage::Pong(b),
        to_upstream(ClientMessage::Close(c)) == UpstreamMessage::Close(None),
        to_client(UpstreamMessage::Text(t)) == Some(ClientMessage::Text(t)),
        to_client(UpstreamMessage::Binary(b)) == Some(ClientMessage::Binary(b)),
        to_client(UpstreamMessage::Ping(b)) == Some(ClientMessage::Ping(b)),
        to_client(UpstreamMessage::Pong(b)) == Some(ClientMessage::Pong(b)),
        to_client(UpstreamMessage::Close(c)) == Some(ClientMessage::Close(None)),
        to_client(UpstreamMessage::Frame) is None,
{
}

} // verus!
