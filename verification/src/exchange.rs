//! One request through the proxy: who may ask, how the agent is asked, what is
//! tried again, and what the browser gets.

use vstd::prelude::*;
use vstd::string::*;

use crate::auth::{
    allowed_origin, cookie_to_set, first_visit, origin_allowed, presented_token, session_cookie,
    valid_token,
};
use crate::boot_page::{boot_page, boot_page_response};
use crate::cookie::{first_filled, live_agent_token, or_empty, starting_agent_token};
use crate::forward::{
    accepts_html, forward_plan, forwarded, wants_html, UpstreamRequest, UpstreamView,
};
use crate::http::{
    field, fields, is_success, path_of, plain_text, text_reply, Header, Reply, ReplyView,
    RequestUri,
};
use crate::page::{transform_report, transform_upstream, transformed, PageReport};
use crate::text::{clone_opt, decimal, decimal_text, joined, opt_text, same_text};

verus! {

/// How often the agent is asked at most for one request that it turns away, the
/// first time among them.
pub const MAX_401_RETRIES: u32 = 3;

/// The pause behind the first further try, in milliseconds; it doubles with each.
pub const FIRST_BACKOFF_MS: u64 = 200;

/// Shown while there is no session with the agent.
pub const NO_SESSION: &'static str = "等待上游鉴权会话就绪…";

/// Shown while the agent cannot be reached.
pub const NOT_REACHED: &'static str = "上游 harness 尚未就绪…";

/// Shown while the agent turns the session away.
pub const TURNED_AWAY: &'static str = "上游鉴权尚未就绪…";

/// Shown, with the status, while the agent does not serve the page.
pub const NOT_SERVED: &'static str = "上游返回 ";

/// The end of what is shown while the agent does not serve the page.
pub const AND_SO_ON: &'static str = "…";

/// What the proxy knows when it starts.
#[derive(Clone, Debug)]
pub struct ProxyState {
    /// The port of the agent.
    pub agent_port: u16,
    /// The token that a browser has to present.
    pub token: String,
    /// The theme that is set in the page.
    pub theme: Option<String>,
    /// The launch token of the agent, empty while it is not known.
    pub agent_token: String,
}

/// Where the page reports its theme.
pub const THEME_ROUTE: &'static str = "/__dsh_theme";

/// Where the proxy says how it is.
pub const HEALTH_ROUTE: &'static str = "/__dsh_health";

/// What the proxy knows when it starts. It takes the launch token that it is
/// handed, or the one that the agent has printed meanwhile.
pub fn proxy_state(
    agent_port: u16,
    token: &str,
    theme: Option<String>,
    passed: &Option<String>,
    live: &Option<String>,
) -> (r: ProxyState)
    ensures
        r.agent_port == agent_port,
        r.token@ == token@,
        r.theme == theme,
        r.agent_token@ == first_filled(or_empty(opt_text(*passed)), or_empty(opt_text(*live))),
{
    ProxyState {
        agent_port,
        token: token.to_owned(),
        theme,
        agent_token: starting_agent_token(passed, live),
    }
}

// ---------------------------------------------------------------------------
// The state of an exchange
// ---------------------------------------------------------------------------

/// What an exchange waits for.
#[derive(Clone, Copy, Debug, PartialEq, Eq, Structural)]
pub enum Phase {
    /// The cookie of the session.
    Waiting,
    /// The agent's answer to the first try.
    First,
    /// The body of the answer to the first try.
    FirstBody,
    /// The launch token.
    Token,
    /// A new cookie.
    Renewing,
    /// The agent's answer to a further try.
    Retry,
    /// The body of the answer to a further try.
    RetryBody,
    /// The end of a pause.
    Pausing,
    /// Nothing: the reply has been given.
    Over,
}

/// An exchange under way.
#[derive(Clone, Debug)]
pub struct Exchange {
    port: u16,
    launch_token: String,
    theme: Option<String>,
    set_cookie: Option<String>,
    method: String,
    uri: RequestUri,
    headers: Vec<Header>,
    html_nav: bool,
    is_root: bool,
    phase: Phase,
    attempt: u32,
    token: String,
    status: u16,
    answered: Vec<Header>,
    report: Option<PageReport>,
}

/// What is known of an exchange.
pub struct ExchangeView {
    pub port: u16,
    /// The launch token that the proxy was started with.
    pub launch_token: Seq<char>,
    pub theme: Option<Seq<char>>,
    /// The session cookie that the browser gets with the agent's answer.
    pub set_cookie: Option<Seq<char>>,
    pub method: Seq<char>,
    pub uri: Option<Seq<char>>,
    pub headers: Seq<(Seq<char>, Seq<u8>)>,
    /// Whether a browser goes to the root page.
    pub html_nav: bool,
    pub is_root: bool,
    pub phase: Phase,
    /// Which further try is under way.
    pub attempt: u32,
    /// The launch token that further tries use.
    pub token: Seq<char>,
    /// The status of the answer whose body is awaited.
    pub status: u16,
    /// The headers of the answer whose body is awaited.
    pub answered: Seq<(Seq<char>, Seq<u8>)>,
    /// What was done to the answer.
    pub report: Option<PageReport>,
}

impl View for Exchange {
    type V = ExchangeView;

    closed spec fn view(&self) -> ExchangeView {
        ExchangeView {
            port: self.port,
            launch_token: self.launch_token@,
            theme: opt_text(self.theme),
            set_cookie: opt_text(self.set_cookie),
            method: self.method@,
            uri: self.uri@,
            headers: fields(self.headers@),
            html_nav: self.html_nav,
            is_root: self.is_root,
            phase: self.phase,
            attempt: self.attempt,
            token: self.token@,
            status: self.status,
            answered: fields(self.answered@),
            report: self.report,
        }
    }
}

/// The head of an answer of the agent.
#[derive(Clone, Debug)]
pub struct Answer {
    pub status: u16,
    pub headers: Vec<Header>,
}

/// What an exchange hears.
#[derive(Debug)]
pub enum Event {
    /// The wait for the cookie is over; the cookie is empty if there is none.
    Cookie(String),
    /// The agent has answered, or could not be asked.
    Answered(Result<Answer, String>),
    /// The body of the answer has been read, or could not be.
    Body(Result<Vec<u8>, String>),
    /// The launch token that the agent has printed, if it has.
    Token(Option<String>),
    /// The handshake is over.
    Renewed(Option<String>),
    /// The pause is over.
    Paused,
}

/// What an event says.
pub enum EventView {
    Cookie(Seq<char>),
    Answered(Result<(u16, Seq<(Seq<char>, Seq<u8>)>), Seq<char>>),
    Body(Result<Seq<u8>, Seq<char>>),
    Token(Option<Seq<char>>),
    Renewed(Option<Seq<char>>),
    Paused,
}

impl View for Event {
    type V = EventView;

    open spec fn view(&self) -> EventView {
        match self {
            Event::Cookie(c) => EventView::Cookie(c@),
            Event::Answered(a) => EventView::Answered(
                match a {
                    Ok(x) => Ok((x.status, fields(x.headers@))),
                    Err(e) => Err(e@),
                },
            ),
            Event::Body(b) => EventView::Body(
                match b {
                    Ok(x) => Ok(x@),
                    Err(e) => Err(e@),
                },
            ),
            Event::Token(t) => EventView::Token(opt_text(*t)),
            Event::Renewed(c) => EventView::Renewed(opt_text(*c)),
            Event::Paused => EventView::Paused,
        }
    }
}

/// What an exchange does next.
#[derive(Clone, Debug)]
pub enum Action {
    /// Give the browser this reply.
    Reply(Reply),
    /// Wait for the cookie, briefly or patiently.
    AwaitCookie { brief: bool },
    /// Send the agent this request, with the body of the browser's.
    Forward(UpstreamRequest),
    /// Read the body of the agent's answer.
    ReadBody,
    /// Look up the launch token that the agent has printed.
    ReadToken,
    /// Exchange this launch token for a cookie, and keep the cookie.
    Handshake(String),
    /// Wait for so many milliseconds.
    Pause(u64),
}

/// What an action says.
pub enum ActionView {
    Reply(ReplyView),
    AwaitCookie { brief: bool },
    Forward(UpstreamView),
    ReadBody,
    ReadToken,
    Handshake(Seq<char>),
    Pause(u64),
}

impl View for Action {
    type V = ActionView;

    open spec fn view(&self) -> ActionView {
        match self {
            Action::Reply(r) => ActionView::Reply(r@),
            Action::AwaitCookie { brief } => ActionView::AwaitCookie { brief: *brief },
            Action::Forward(u) => ActionView::Forward(u@),
            Action::ReadBody => ActionView::ReadBody,
            Action::ReadToken => ActionView::ReadToken,
            Action::Handshake(t) => ActionView::Handshake(t@),
            Action::Pause(ms) => ActionView::Pause(*ms),
        }
    }
}

// ---------------------------------------------------------------------------
// The rules
// ---------------------------------------------------------------------------

/// Whether a browser goes to the root page.
pub open spec fn is_page_visit(
    uri: Option<Seq<char>>,
    headers: Seq<(Seq<char>, Seq<u8>)>,
) -> bool {
    path_of(uri) == "/"@ && accepts_html(headers)
}

/// What is done first: a request without the token is turned away, and so is one
/// that comes from a foreign page; for any other the cookie is awaited.
pub open spec fn first_action(
    token: Seq<char>,
    uri: Option<Seq<char>>,
    headers: Seq<(Seq<char>, Seq<u8>)>,
) -> ActionView {
    if presented_token(uri, headers) != Some(token) {
        ActionView::Reply(plain_text(401, "unauthorized"@))
    } else if !origin_allowed(headers) {
        ActionView::Reply(plain_text(403, "forbidden origin"@))
    } else {
        ActionView::AwaitCookie { brief: is_page_visit(uri, headers) }
    }
}

/// An exchange as it begins.
pub open spec fn opened(
    state: ProxyState,
    method: Seq<char>,
    uri: Option<Seq<char>>,
    headers: Seq<(Seq<char>, Seq<u8>)>,
) -> ExchangeView {
    ExchangeView {
        port: state.agent_port,
        launch_token: state.agent_token@,
        theme: opt_text(state.theme),
        set_cookie: if first_visit(uri, headers) {
            Some(session_cookie(state.token@))
        } else {
            None
        },
        method,
        uri,
        headers,
        html_nav: is_page_visit(uri, headers),
        is_root: path_of(uri) == "/"@,
        phase: if first_action(state.token@, uri, headers) is Reply {
            Phase::Over
        } else {
            Phase::Waiting
        },
        attempt: 0,
        token: Seq::empty(),
        status: 0,
        answered: Seq::empty(),
        report: None,
    }
}

/// Whether two exchanges are about the same request.
pub open spec fn same_request(x: ExchangeView, y: ExchangeView) -> bool {
    &&& x.port == y.port
    &&& x.launch_token == y.launch_token
    &&& x.theme == y.theme
    &&& x.set_cookie == y.set_cookie
    &&& x.method == y.method
    &&& x.uri == y.uri
    &&& x.headers == y.headers
    &&& x.html_nav == y.html_nav
    &&& x.is_root == y.is_root
}

/// Whether an exchange waits for an event of this kind.
pub open spec fn awaited(phase: Phase, e: EventView) -> bool {
    match e {
        EventView::Cookie(_) => phase == Phase::Waiting,
        EventView::Answered(_) => phase == Phase::First || phase == Phase::Retry,
        EventView::Body(_) => phase == Phase::FirstBody || phase == Phase::RetryBody,
        EventView::Token(_) => phase == Phase::Token,
        EventView::Renewed(_) => phase == Phase::Renewing,
        EventView::Paused => phase == Phase::Pausing,
    }
}

/// The end of an exchange.
pub open spec fn ended(x: ExchangeView, r: ReplyView) -> (ExchangeView, ActionView) {
    (ExchangeView { phase: Phase::Over, ..x }, ActionView::Reply(r))
}

/// The reply to a request that failed: a page that tries again by itself for one
/// who goes to the root page, the failure for any other.
pub open spec fn failure(
    x: ExchangeView,
    status: u16,
    text: Seq<char>,
    reason: Seq<char>,
) -> ReplyView {
    if x.html_nav {
        boot_page(x.uri, reason)
    } else {
        plain_text(status, text)
    }
}

/// What is shown while the agent answers with this status.
pub open spec fn not_served(status: u16) -> Seq<char> {
    NOT_SERVED@ + decimal(status as nat) + AND_SO_ON@
}

/// The pause behind a further try.
pub open spec fn backoff(attempt: int) -> int
    decreases attempt,
{
    if attempt <= 1 {
        FIRST_BACKOFF_MS as int
    } else {
        2 * backoff(attempt - 1)
    }
}

/// The request to the agent, with a cookie.
pub open spec fn forward_of(x: ExchangeView, cookie: Seq<char>) -> ActionView {
    ActionView::Forward(forwarded(x.port, x.method, x.uri, x.headers, cookie))
}

/// A further try has come to nothing: the next follows after a pause, unless it
/// was the last.
pub open spec fn after_try(x: ExchangeView) -> (ExchangeView, ActionView) {
    if x.attempt + 1 < MAX_401_RETRIES {
        (
            ExchangeView { phase: Phase::Pausing, ..x },
            ActionView::Pause(backoff(x.attempt as int) as u64),
        )
    } else {
        ended(x, failure(x, 401, "harness auth required after retries"@, TURNED_AWAY@))
    }
}

/// The cookie of the session has come, or has not.
pub open spec fn after_cookie(x: ExchangeView, c: Seq<char>) -> (ExchangeView, ActionView) {
    if c.len() == 0 {
        ended(x, failure(x, 502, "harness auth cookie unavailable"@, NO_SESSION@))
    } else {
        (ExchangeView { phase: Phase::First, ..x }, forward_of(x, c))
    }
}

/// The agent has answered the first try, or has not.
pub open spec fn after_first(
    x: ExchangeView,
    a: Result<(u16, Seq<(Seq<char>, Seq<u8>)>), Seq<char>>,
) -> (ExchangeView, ActionView) {
    match a {
        Err(e) => ended(x, failure(x, 502, "upstream error: "@ + e, NOT_REACHED@)),
        Ok((status, headers)) => if status == 401 {
            (ExchangeView { phase: Phase::Token, ..x }, ActionView::ReadToken)
        } else if x.html_nav && !is_success(status) {
            ended(x, boot_page(x.uri, not_served(status)))
        } else {
            (
                ExchangeView { phase: Phase::FirstBody, status, answered: headers, ..x },
                ActionView::ReadBody,
            )
        },
    }
}

/// The body of the answer to the first try has been read, or has not.
pub open spec fn after_first_body(
    x: ExchangeView,
    b: Result<Seq<u8>, Seq<char>>,
) -> (ExchangeView, ActionView) {
    match b {
        Err(e) => ended(x, plain_text(502, "read upstream body failed: "@ + e)),
        Ok(raw) => ended(
            ExchangeView { report: Some(transform_report(x.answered, raw, x.is_root)), ..x },
            transformed(x.status, x.answered, raw, x.theme, x.set_cookie, x.is_root),
        ),
    }
}

/// The launch token is known, or is not.
pub open spec fn after_token(x: ExchangeView, live: Option<Seq<char>>) -> (
    ExchangeView,
    ActionView,
) {
    let token = first_filled(or_empty(live), x.launch_token);
    if token.len() == 0 {
        ended(x, failure(x, 401, "harness auth required"@, TURNED_AWAY@))
    } else {
        (
            ExchangeView { phase: Phase::Renewing, attempt: 1, token, ..x },
            ActionView::Handshake(token),
        )
    }
}

/// The handshake before a further try has given a cookie, or has not.
pub open spec fn after_renewal(x: ExchangeView, c: Option<Seq<char>>) -> (
    ExchangeView,
    ActionView,
) {
    match c {
        Some(cookie) => (ExchangeView { phase: Phase::Retry, ..x }, forward_of(x, cookie)),
        None => after_try(x),
    }
}

/// The agent has answered a further try, or has not.
pub open spec fn after_retry(
    x: ExchangeView,
    a: Result<(u16, Seq<(Seq<char>, Seq<u8>)>), Seq<char>>,
) -> (ExchangeView, ActionView) {
    match a {
        Err(e) => ended(x, failure(x, 502, "upstream error: "@ + e, TURNED_AWAY@)),
        Ok((status, headers)) => if status == 401 {
            after_try(x)
        } else {
            (
                ExchangeView { phase: Phase::RetryBody, status, answered: headers, ..x },
                ActionView::ReadBody,
            )
        },
    }
}

/// The body of the answer to a further try has been read, or has not.
pub open spec fn after_retry_body(
    x: ExchangeView,
    b: Result<Seq<u8>, Seq<char>>,
) -> (ExchangeView, ActionView) {
    match b {
        Err(e) => ended(
            x,
            failure(x, 502, "read upstream body failed: "@ + e, TURNED_AWAY@),
        ),
        Ok(raw) => {
            let y = ExchangeView {
                report: Some(transform_report(x.answered, raw, x.is_root)),
                ..x
            };
            if x.html_nav && !is_success(x.status) {
                ended(y, boot_page(x.uri, TURNED_AWAY@))
            } else {
                ended(
                    y,
                    transformed(x.status, x.answered, raw, x.theme, x.set_cookie, x.is_root),
                )
            }
        },
    }
}

/// A pause is over: the next try begins with a new handshake.
pub open spec fn after_backoff(x: ExchangeView) -> (ExchangeView, ActionView) {
    (
        ExchangeView { phase: Phase::Renewing, attempt: (x.attempt + 1) as u32, ..x },
        ActionView::Handshake(x.token),
    )
}

/// What an event leads to.
pub open spec fn after(x: ExchangeView, e: EventView) -> (ExchangeView, ActionView) {
    match e {
        EventView::Cookie(c) => after_cookie(x, c),
        EventView::Answered(a) => if x.phase == Phase::First {
            after_first(x, a)
        } else {
            after_retry(x, a)
        },
        EventView::Body(b) => if x.phase == Phase::FirstBody {
            after_first_body(x, b)
        } else {
            after_retry_body(x, b)
        },
        EventView::Token(t) => after_token(x, t),
        EventView::Renewed(c) => after_renewal(x, c),
        EventView::Paused => after_backoff(x),
    }
}

/// What holds of every exchange: further tries are numbered, a pause is followed
/// by one, and a page is awaited only where the agent serves it.
pub open spec fn sound(x: ExchangeView) -> bool {
    &&& x.phase == Phase::Renewing || x.phase == Phase::Retry || x.phase == Phase::RetryBody
        || x.phase == Phase::Pausing ==> 1 <= x.attempt < MAX_401_RETRIES
    &&& x.phase == Phase::Pausing ==> x.attempt + 1 < MAX_401_RETRIES
    &&& x.phase == Phase::FirstBody && x.html_nav ==> is_success(x.status)
}

/// The pause behind a further try that is not the last.
fn backoff_ms(attempt: u32) -> (r: u64)
    requires
        attempt < MAX_401_RETRIES,
    ensures
        r == backoff(attempt as int),
{
    let mut ms: u64 = FIRST_BACKOFF_MS;
    let mut i: u32 = 1;
    while i < attempt
        invariant
            1 <= i,
            i <= attempt || attempt == 0,
            attempt == 0 ==> i == 1,
            attempt < MAX_401_RETRIES,
            ms == backoff(i as int),
            i == 1 ==> ms == 200,
            i == 2 ==> ms == 400,
            i <= 2,
        decreases attempt - i,
    {
        ms = ms * 2;
        i = i + 1;
    }
    ms
}

impl Exchange {
    /// Begins an exchange: the request is judged, and either answered at once or
    /// let in.
    pub fn open(state: &ProxyState, method: &str, uri: &RequestUri, headers: Vec<Header>) -> (r: (
        Exchange,
        Action,
    ))
        ensures
            r.1@ == first_action(state.token@, uri@, fields(headers@)),
            r.0@ == opened(*state, method@, uri@, fields(headers@)),
            r.0@.port == state.agent_port,
            r.0@.method == method@,
            r.0@.uri == uri@,
            r.0@.headers == fields(headers@),
            sound(r.0@),
    {
        let path = uri.path();
        let is_root = same_text(path.as_str(), "/");
        let html_nav = is_root && wants_html(&headers);
        let set_cookie = cookie_to_set(state.token.as_str(), uri, &headers);
        let action = if !valid_token(state.token.as_str(), uri, &headers) {
            Action::Reply(text_reply(401, "unauthorized"))
        } else if !allowed_origin(&headers) {
            Action::Reply(text_reply(403, "forbidden origin"))
        } else {
            Action::AwaitCookie { brief: html_nav }
        };
        let phase = match &action {
            Action::Reply(_) => Phase::Over,
            _ => Phase::Waiting,
        };
        let x = Exchange {
            port: state.agent_port,
            launch_token: state.agent_token.clone(),
            theme: clone_opt(&state.theme),
            set_cookie,
            method: method.to_owned(),
            uri: RequestUri { path_and_query: clone_opt(&uri.path_and_query) },
            headers,
            html_nav,
            is_root,
            phase,
            attempt: 0,
            token: String::new(),
            status: 0,
            answered: Vec::new(),
            report: None,
        };
        assert(x@.answered =~= Seq::empty());
        (x, action)
    }

    /// Whether the exchange waits for such an event.
    pub fn expects(&self, e: &Event) -> (r: bool)
        ensures
            r == awaited(self@.phase, e@),
    {
        match e {
            Event::Cookie(_) => self.phase == Phase::Waiting,
            Event::Answered(_) => self.phase == Phase::First || self.phase == Phase::Retry,
            Event::Body(_) => self.phase == Phase::FirstBody || self.phase == Phase::RetryBody,
            Event::Token(_) => self.phase == Phase::Token,
            Event::Renewed(_) => self.phase == Phase::Renewing,
            Event::Paused => self.phase == Phase::Pausing,
        }
    }

    /// What was done to the agent's answer, once something was.
    pub fn page_report(&self) -> (r: Option<PageReport>)
        ensures
            r == self@.report,
    {
        match &self.report {
            Some(p) => Some(
                PageReport { body_is_html: p.body_is_html, len: p.len, injected: p.injected },
            ),
            None => None,
        }
    }

    /// The reply to a request that failed.
    fn fail(&mut self, status: u16, text: &str, reason: &str) -> (r: Action)
        ensures
            (final(self)@, r@) == ended(
                old(self)@,
                failure(old(self)@, status, text@, reason@),
            ),
    {
        self.phase = Phase::Over;
        if self.html_nav {
            Action::Reply(boot_page_response(&self.uri, reason))
        } else {
            Action::Reply(text_reply(status, text))
        }
    }

    /// The request to the agent, with a cookie.
    fn forward(&self, cookie: &str) -> (r: Action)
        ensures
            r@ == forward_of(self@, cookie@),
    {
        Action::Forward(
            forward_plan(self.port, self.method.as_str(), &self.uri, &self.headers, cookie),
        )
    }

    /// A further try has come to nothing.
    fn give_up_try(&mut self) -> (r: Action)
        ensures
            (final(self)@, r@) == after_try(old(self)@),
    {
        if self.attempt < MAX_401_RETRIES - 1 {
            self.phase = Phase::Pausing;
            Action::Pause(backoff_ms(self.attempt))
        } else {
            self.fail(401, "harness auth required after retries", TURNED_AWAY)
        }
    }

    /// The agent has answered the first try, or has not.
    fn first_answer(&mut self, a: Result<Answer, String>) -> (r: Action)
        ensures
            (final(self)@, r@) == after_first(
                old(self)@,
                match a {
                    Ok(x) => Ok((x.status, fields(x.headers@))),
                    Err(e) => Err(e@),
                },
            ),
    {
        match a {
            Err(e) => {
                let text = joined("upstream error: ", e.as_str());
                self.fail(502, text.as_str(), NOT_REACHED)
            },
            Ok(x) => {
                if x.status == 401 {
                    self.phase = Phase::Token;
                    Action::ReadToken
                } else if self.html_nav && !(200 <= x.status && x.status < 300) {
                    self.phase = Phase::Over;
                    let number = decimal_text(x.status as u64);
                    let mut reason = joined(NOT_SERVED, number.as_str());
                    reason.append(AND_SO_ON);
                    Action::Reply(boot_page_response(&self.uri, reason.as_str()))
                } else {
                    self.phase = Phase::FirstBody;
                    self.status = x.status;
                    self.answered = x.headers;
                    Action::ReadBody
                }
            },
        }
    }

    /// The body of the answer to the first try has been read, or has not.
    fn first_body(&mut self, b: Result<Vec<u8>, String>) -> (r: Action)
        ensures
            (final(self)@, r@) == after_first_body(
                old(self)@,
                match b {
                    Ok(x) => Ok(x@),
                    Err(e) => Err(e@),
                },
            ),
    {
        self.phase = Phase::Over;
        match b {
            Err(e) => {
                let text = joined("read upstream body failed: ", e.as_str());
                Action::Reply(text_reply(502, text.as_str()))
            },
            Ok(raw) => {
                let (reply, report) = transform_upstream(
                    self.status,
                    &self.answered,
                    &raw,
                    &self.theme,
                    &self.set_cookie,
                    self.is_root,
                );
                self.report = Some(report);
                Action::Reply(reply)
            },
        }
    }

    /// The launch token is known, or is not.
    fn token_known(&mut self, live: Option<String>) -> (r: Action)
        ensures
            (final(self)@, r@) == after_token(old(self)@, opt_text(live)),
    {
        let token = live_agent_token(&live, self.launch_token.as_str());
        if token.as_str().is_empty() {
            self.fail(401, "harness auth required", TURNED_AWAY)
        } else {
            self.phase = Phase::Renewing;
            self.attempt = 1;
            self.token = token.clone();
            Action::Handshake(token)
        }
    }

    /// The agent has answered a further try, or has not.
    fn retry_answer(&mut self, a: Result<Answer, String>) -> (r: Action)
        ensures
            (final(self)@, r@) == after_retry(
                old(self)@,
                match a {
                    Ok(x) => Ok((x.status, fields(x.headers@))),
                    Err(e) => Err(e@),
                },
            ),
    {
        match a {
            Err(e) => {
                let text = joined("upstream error: ", e.as_str());
                self.fail(502, text.as_str(), TURNED_AWAY)
            },
            Ok(x) => {
                if x.status == 401 {
                    self.give_up_try()
                } else {
                    self.phase = Phase::RetryBody;
                    self.status = x.status;
                    self.answered = x.headers;
                    Action::ReadBody
                }
            },
        }
    }

    /// The body of the answer to a further try has been read, or has not.
    fn retry_body(&mut self, b: Result<Vec<u8>, String>) -> (r: Action)
        ensures
            (final(self)@, r@) == after_retry_body(
                old(self)@,
                match b {
                    Ok(x) => Ok(x@),
                    Err(e) => Err(e@),
                },
            ),
    {
        match b {
            Err(e) => {
                let text = joined("read upstream body failed: ", e.as_str());
                self.fail(502, text.as_str(), TURNED_AWAY)
            },
            Ok(raw) => {
                self.phase = Phase::Over;
                let (reply, report) = transform_upstream(
                    self.status,
                    &self.answered,
                    &raw,
                    &self.theme,
                    &self.set_cookie,
                    self.is_root,
                );
                self.report = Some(report);
                if self.html_nav && !(200 <= self.status && self.status < 300) {
                    Action::Reply(boot_page_response(&self.uri, TURNED_AWAY))
                } else {
                    Action::Reply(reply)
                }
            },
        }
    }

    /// Takes an event that the exchange waits for, and says what to do next.
    pub fn step(&mut self, e: Event) -> (r: Action)
        requires
            sound(old(self)@),
            awaited(old(self)@.phase, e@),
        ensures
            (final(self)@, r@) == after(old(self)@, e@),
            same_request(old(self)@, final(self)@),
            r@ matches ActionView::Forward(sent) ==> {
                let m = old(self)@.method;
                &&& m == "GET"@ || m == "POST"@ || m == "PUT"@ || m == "DELETE"@ || m == "PATCH"@
                    || m == "HEAD"@ || m == "OPTIONS"@ ==> sent.method == m
                &&& sent.method == m || sent.method == "GET"@
            },
            sound(final(self)@),
    {
        proof {
            lemma_sound(self@, e@);
        }
        match e {
            Event::Cookie(c) => {
                if c.as_str().is_empty() {
                    self.fail(502, "harness auth cookie unavailable", NO_SESSION)
                } else {
                    self.phase = Phase::First;
                    self.forward(c.as_str())
                }
            },
            Event::Answered(a) => {
                if self.phase == Phase::First {
                    self.first_answer(a)
                } else {
                    self.retry_answer(a)
                }
            },
            Event::Body(b) => {
                if self.phase == Phase::FirstBody {
                    self.first_body(b)
                } else {
                    self.retry_body(b)
                }
            },
            Event::Token(t) => self.token_known(t),
            Event::Renewed(c) => match c {
                Some(cookie) => {
                    self.phase = Phase::Retry;
                    self.forward(cookie.as_str())
                },
                None => self.give_up_try(),
            },
            Event::Paused => {
                self.phase = Phase::Renewing;
                self.attempt = self.attempt + 1;
                Action::Handshake(self.token.clone())
            },
        }
    }
}

// ---------------------------------------------------------------------------
// Laws
// ---------------------------------------------------------------------------

/// A request that does not present the token, or that comes from a foreign page,
/// is answered at once, and nothing follows: the agent never hears of it.
pub proof fn law_the_uninvited_are_turned_away(
    state: ProxyState,
    method: Seq<char>,
    uri: Option<Seq<char>>,
    headers: Seq<(Seq<char>, Seq<u8>)>,
    e: EventView,
)
    requires
        presented_token(uri, headers) != Some(state.token@) || !origin_allowed(headers),
    ensures
        first_action(state.token@, uri, headers) is Reply,
        first_action(state.token@, uri, headers)->Reply_0.status == 401
            || first_action(state.token@, uri, headers)->Reply_0.status == 403,
        !awaited(opened(state, method, uri, headers).phase, e),
{
}

/// An exchange ends with its reply: whatever gives a reply leaves an exchange
/// that waits for nothing, and nothing else does.
pub proof fn law_the_reply_is_the_end(x: ExchangeView, e: EventView, f: EventView)
    requires
        awaited(x.phase, e),
    ensures
        after(x, e).1 is Reply <==> after(x, e).0.phase == Phase::Over,
        after(x, e).1 is Reply ==> !awaited(after(x, e).0.phase, f),
{
}

/// How far an exchange is from its end.
pub open spec fn distance(x: ExchangeView) -> int {
    let tries = 4 * (MAX_401_RETRIES - x.attempt);
    match x.phase {
        Phase::Waiting => 40,
        Phase::First => 30,
        Phase::FirstBody => 20,
        Phase::Token => 20,
        Phase::Renewing => tries + 5,
        Phase::Retry => tries + 4,
        Phase::RetryBody => tries + 3,
        Phase::Pausing => tries + 3,
        Phase::Over => 0,
    }
}

/// Every step brings an exchange nearer to its end: none goes on for ever.
pub proof fn law_every_exchange_ends(x: ExchangeView, e: EventView)
    requires
        sound(x),
        awaited(x.phase, e),
    ensures
        sound(after(x, e).0),
        0 <= distance(after(x, e).0) < distance(x) <= 40,
{
}

/// How many requests an exchange may still send to the agent.
pub open spec fn requests_left(x: ExchangeView) -> int {
    match x.phase {
        Phase::Waiting => MAX_401_RETRIES as int,
        Phase::First => MAX_401_RETRIES - 1,
        Phase::FirstBody => 0,
        Phase::Token => MAX_401_RETRIES - 1,
        Phase::Renewing => MAX_401_RETRIES - x.attempt,
        Phase::Retry => MAX_401_RETRIES - 1 - x.attempt,
        Phase::RetryBody => 0,
        Phase::Pausing => MAX_401_RETRIES - 1 - x.attempt,
        Phase::Over => 0,
    }
}

/// The agent is asked at most so often in all: each request takes one from what
/// is left, and nothing adds to it.
pub proof fn law_requests_are_bounded(x: ExchangeView, e: EventView)
    requires
        sound(x),
        awaited(x.phase, e),
    ensures
        0 <= requests_left(after(x, e).0) <= requests_left(x) <= MAX_401_RETRIES,
        after(x, e).1 is Forward ==> requests_left(after(x, e).0) < requests_left(x),
{
}

/// Whether an exchange can hear these events, one after the other.
pub open spec fn can_hear(x: ExchangeView, events: Seq<EventView>) -> bool
    decreases events.len(),
{
    events.len() == 0 || {
        &&& awaited(x.phase, events[0])
        &&& can_hear(after(x, events[0]).0, events.drop_first())
    }
}

/// How many requests an exchange sends to the agent while it hears these events.
pub open spec fn requests_sent(x: ExchangeView, events: Seq<EventView>) -> int
    decreases events.len(),
{
    if events.len() == 0 {
        0
    } else {
        let (y, action) = after(x, events[0]);
        (if action is Forward {
            1int
        } else {
            0int
        }) + requests_sent(y, events.drop_first())
    }
}

/// The exchange that these events leave.
pub open spec fn after_all(x: ExchangeView, events: Seq<EventView>) -> ExchangeView
    decreases events.len(),
{
    if events.len() == 0 {
        x
    } else {
        after_all(after(x, events[0]).0, events.drop_first())
    }
}

/// Whatever an exchange hears, it hears no more than its distance from its end,
/// and sends the agent no more requests than are left: from the first on, no more
/// than may be sent in all.
pub proof fn law_no_exchange_is_long(x: ExchangeView, events: Seq<EventView>)
    requires
        sound(x),
        can_hear(x, events),
    ensures
        sound(after_all(x, events)),
        events.len() <= distance(x) - distance(after_all(x, events)),
        0 <= requests_sent(x, events) <= requests_left(x) - requests_left(after_all(x, events)),
        requests_sent(x, events) <= MAX_401_RETRIES,
    decreases events.len(),
{
    if events.len() > 0 {
        let y = after(x, events[0]).0;
        law_every_exchange_ends(x, events[0]);
        law_requests_are_bounded(x, events[0]);
        law_no_exchange_is_long(y, events.drop_first());
        lemma_requests_left(after_all(y, events.drop_first()));
    } else {
        lemma_requests_left(x);
    }
}

/// There are never more requests left than at first, and never fewer than none.
proof fn lemma_requests_left(x: ExchangeView)
    requires
        sound(x),
    ensures
        0 <= requests_left(x) <= MAX_401_RETRIES,
{
}

/// One who goes to the root page is never left with a failure: every reply is a
/// page that is served, be it the agent's or the one that tries again by itself.
/// Only an answer that breaks off while its body is read is passed on as it is.
pub proof fn law_a_page_visit_is_always_served(x: ExchangeView, e: EventView)
    requires
        sound(x),
        awaited(x.phase, e),
        x.html_nav,
        !(x.phase == Phase::FirstBody && e is Body && e->Body_0 is Err),
        after(x, e).1 is Reply,
    ensures
        is_success(after(x, e).1->Reply_0.status),
{
}

/// Any other request learns what happened: it gets the agent's answer, or a
/// status that says that there is none. It never gets the page that tries again.
pub proof fn law_other_requests_get_the_truth(x: ExchangeView, e: EventView)
    requires
        awaited(x.phase, e),
        !x.html_nav,
        after(x, e).1 is Reply,
    ensures
        e is Body && e->Body_0 is Ok ==> after(x, e).1->Reply_0 == transformed(
            x.status,
            x.answered,
            e->Body_0->Ok_0,
            x.theme,
            x.set_cookie,
            x.is_root,
        ),
        !(e is Body && e->Body_0 is Ok) ==> after(x, e).1->Reply_0.status == 401 || after(
            x,
            e,
        ).1->Reply_0.status == 502,
{
}

/// A first visit gets the session cookie with whatever answer of the agent is
/// passed on to it, be it the first or one to a further try.
pub proof fn law_a_first_visit_gets_its_cookie(x: ExchangeView, raw: Seq<u8>, cookie: Seq<char>)
    requires
        x.phase == Phase::FirstBody || x.phase == Phase::RetryBody,
        sound(x),
        !x.html_nav || is_success(x.status),
        x.set_cookie == Some(cookie),
    ensures
        ({
            let reply = after(x, EventView::Body(Ok(raw))).1;
            &&& reply is Reply
            &&& reply->Reply_0.headers.last() == field("set-cookie"@, cookie)
        }),
{
}

/// The pauses between further tries double.
pub proof fn law_backoff_doubles(attempt: int)
    requires
        attempt >= 1,
    ensures
        backoff(1) == FIRST_BACKOFF_MS,
        backoff(attempt + 1) == 2 * backoff(attempt),
{
}

/// What holds of every exchange goes on holding.
proof fn lemma_sound(x: ExchangeView, e: EventView)
    requires
        sound(x),
        awaited(x.phase, e),
    ensures
        sound(after(x, e).0),
{
}

} // verus!
