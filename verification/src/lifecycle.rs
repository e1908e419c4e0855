//! The life of the agent: what its output says, when it is ready, and how the
//! state that the front end sees changes.

use vstd::prelude::*;
use vstd::string::*;

use crate::cookie::or_empty;
use crate::state::{AgentStatus, ChildHandle, InnerState, LogLine, StateEvent};
use crate::text::{
    chars_of, clone_opt, contains, decimal, decimal_text, find, find_chars, is_space, joined,
    law_trimming_the_end, lemma_find_contains, lemma_find_from, occurs_at, opt_text, same_text,
    slice_text, space_char, text_contains, trim_end, trim_end_text,
};
use crate::theme::{chosen, chosen_theme};

verus! {

// ---------------------------------------------------------------------------
// What the agent prints
// ---------------------------------------------------------------------------

/// Whether a character ends the launch token in a line: the next parameter,
/// white space, a bracket or a quote.
pub open spec fn ends_token(c: char) -> bool {
    c == '&' || is_space(c) || c == '(' || c == ')' || c == '"' || c == '\''
}

/// Whether a character ends the launch token in a line.
fn token_end(c: char) -> (r: bool)
    ensures
        r == ends_token(c),
{
    c == '&' || space_char(c) || c == '(' || c == ')' || c == '"' || c == '\''
}

/// How long the launch token is that a text begins with.
pub open spec fn token_span(s: Seq<char>) -> int
    decreases s.len(),
{
    if s.len() == 0 || ends_token(s[0]) {
        0
    } else {
        1 + token_span(s.drop_first())
    }
}

/// Where the launch token begins in a line that the agent prints: behind
/// `?token=`, or behind `token=` where the token is not the first parameter.
pub open spec fn token_start(line: Seq<char>) -> Option<int> {
    match find(line, "?token="@) {
        Some(i) => Some(i + 7),
        None => match find(line, "token="@) {
            Some(i) => Some(i + 6),
            None => None,
        },
    }
}

/// The launch token in a line that the agent prints.
pub open spec fn printed_token(line: Seq<char>) -> Option<Seq<char>> {
    match token_start(line) {
        Some(from) => {
            let rest = line.skip(from);
            if token_span(rest) > 0 {
                Some(rest.take(token_span(rest)))
            } else {
                None
            }
        },
        None => None,
    }
}

/// A launch token begins within its line.
proof fn lemma_token_start(line: Seq<char>)
    ensures
        token_start(line) matches Some(i) ==> 0 <= i <= line.len(),
{
    reveal_strlit("?token=");
    reveal_strlit("token=");
    lemma_find_from(line, "?token="@, 0);
    lemma_find_from(line, "token="@, 0);
}

/// Where the launch token begins in a line that the agent prints.
fn find_token_start(cs: &Vec<char>) -> (r: Option<usize>)
    ensures
        match r {
            Some(i) => token_start(cs@) == Some(i as int) && i <= cs.len(),
            None => token_start(cs@) is None,
        },
{
    let first = chars_of("?token=");
    let other = chars_of("token=");
    proof {
        lemma_token_start(cs@);
    }
    assert(cs.len() <= usize::MAX);
    match find_chars(cs, &first) {
        Some(i) => Some(i + 7),
        None => match find_chars(cs, &other) {
            Some(i) => Some(i + 6),
            None => None,
        },
    }
}

/// The launch token in a line that the agent prints.
pub fn extract_agent_token(line: &str) -> (r: Option<String>)
    ensures
        opt_text(r) == printed_token(line@),
{
    let cs = chars_of(line);
    let n: usize = cs.len();
    match find_token_start(&cs) {
        Some(from) => {
            let ghost rest = line@.skip(from as int);
            let mut to: usize = from;
            assert(rest.skip(0) =~= rest);
            while to < n && !token_end(cs[to])
                invariant
                    from <= to <= n,
                    n == cs.len(),
                    cs@ == line@,
                    rest == line@.skip(from as int),
                    token_span(rest) == (to - from) + token_span(rest.skip(to - from)),
                decreases n - to,
            {
                assert(rest.skip(to - from)[0] == cs@[to as int]);
                assert(rest.skip(to - from).drop_first() =~= rest.skip(to + 1 - from));
                to = to + 1;
            }
            assert(token_span(rest) == to - from) by {
                if to < n {
                    assert(rest.skip(to - from)[0] == cs@[to as int]);
                }
            }
            if to > from {
                assert(line@.subrange(from as int, to as int) =~= rest.take(to - from));
                Some(slice_text(line, from, to))
            } else {
                None
            }
        },
        None => None,
    }
}

/// Whether a line says that the agent listens on this port.
pub open spec fn says_ready(line: Seq<char>, port: u16) -> bool {
    contains(line, "http://127.0.0.1"@) && contains(line, ":"@ + decimal(port as nat))
}

/// Whether a line says that the agent listens on this port.
pub fn is_ready_line(line: &str, port: u16) -> (r: bool)
    ensures
        r == says_ready(line@, port),
{
    let number = decimal_text(port as u64);
    let suffix = joined(":", number.as_str());
    text_contains(line, "http://127.0.0.1") && text_contains(line, suffix.as_str())
}

/// A line of the agent's output as the log shows it; none if it is empty.
pub open spec fn logged(raw: Seq<char>) -> Option<Seq<char>> {
    if trim_end(raw).len() == 0 {
        None
    } else {
        Some(trim_end(raw))
    }
}

/// A line of the agent's error output as the log shows it; none if it is empty.
pub fn stderr_line(raw: &str) -> (r: Option<LogLine>)
    ensures
        match logged(raw@) {
            Some(t) => r matches Some(l) && l.stream@ == "stderr"@ && l.line@ == t,
            None => r is None,
        },
{
    let line = trim_end_text(raw);
    if line.as_str().is_empty() {
        None
    } else {
        Some(LogLine { stream: "stderr".to_owned(), line })
    }
}

/// Watches the agent's output for the line that says that it is ready.
#[derive(Clone, Copy, Debug)]
pub struct OutputWatch {
    port: u16,
    ready: bool,
}

/// The agent has said that it is ready, with its launch token if it gave one.
#[derive(Clone, Debug)]
pub struct ReadyNotice {
    pub agent_token: Option<String>,
}

impl OutputWatch {
    /// The port on which the agent is to listen.
    pub closed spec fn awaited_port(&self) -> u16 {
        self.port
    }

    /// Whether the agent has said that it is ready.
    pub closed spec fn seen(&self) -> bool {
        self.ready
    }

    /// Starts to watch.
    pub fn start(port: u16) -> (r: OutputWatch)
        ensures
            r.awaited_port() == port,
            !r.seen(),
    {
        OutputWatch { port, ready: false }
    }

    /// A line of the agent's output: what the log shows of it, and a notice the
    /// first time that it says that the agent is ready.
    pub fn line(&mut self, raw: &str) -> (r: (Option<LogLine>, Option<ReadyNotice>))
        ensures
            final(self).awaited_port() == old(self).awaited_port(),
            match logged(raw@) {
                Some(t) => {
                    &&& r.0 matches Some(l) && l.stream@ == "stdout"@ && l.line@ == t
                    &&& r.1 is Some <==> !old(self).seen() && says_ready(
                        t,
                        old(self).awaited_port(),
                    )
                    &&& r.1 matches Some(n) ==> opt_text(n.agent_token) == printed_token(t)
                    &&& final(self).seen() == (old(self).seen() || r.1 is Some)
                },
                None => r.0 is None && r.1 is None && final(self).seen() == old(self).seen(),
            },
    {
        let line = trim_end_text(raw);
        if line.as_str().is_empty() {
            return (None, None);
        }
        let notice = if !self.ready && is_ready_line(line.as_str(), self.port) {
            self.ready = true;
            Some(ReadyNotice { agent_token: extract_agent_token(line.as_str()) })
        } else {
            None
        };
        (Some(LogLine { stream: "stdout".to_owned(), line }), notice)
    }
}

// ---------------------------------------------------------------------------
// The state
// ---------------------------------------------------------------------------

/// What is known of the running agent.
pub struct InnerView {
    pub pid: Option<u32>,
    pub token: Option<Seq<char>>,
    pub proxy_port: Option<u16>,
    pub proxy_url: Option<Seq<char>>,
    pub agent_port: Option<u16>,
    pub agent_token: Option<Seq<char>>,
    pub state: Seq<char>,
    pub last_error: Option<Seq<char>>,
}

impl View for InnerState {
    type V = InnerView;

    open spec fn view(&self) -> InnerView {
        InnerView {
            pid: match self.child {
                Some(c) => Some(c.pid),
                None => None,
            },
            token: opt_text(self.token),
            proxy_port: self.proxy_port,
            proxy_url: opt_text(self.proxy_url),
            agent_port: self.agent_port,
            agent_token: opt_text(self.agent_token),
            state: self.state@,
            last_error: opt_text(self.last_error),
        }
    }
}

/// What the front end reads of the running agent.
pub struct StatusView {
    pub state: Seq<char>,
    pub agent_port: u16,
    pub proxy_port: u16,
    pub proxy_url: Seq<char>,
    pub pid: Option<u32>,
}

impl View for AgentStatus {
    type V = StatusView;

    open spec fn view(&self) -> StatusView {
        StatusView {
            state: self.state@,
            agent_port: self.agent_port,
            proxy_port: self.proxy_port,
            proxy_url: self.proxy_url@,
            pid: self.pid,
        }
    }
}

impl View for StateEvent {
    type V = StatusView;

    open spec fn view(&self) -> StatusView {
        StatusView {
            state: self.state@,
            agent_port: self.agent_port,
            proxy_port: self.proxy_port,
            proxy_url: self.proxy_url@,
            pid: self.pid,
        }
    }
}

/// An optional port, 0 where there is none.
pub open spec fn port_or_zero(p: Option<u16>) -> u16 {
    match p {
        Some(n) => n,
        None => 0,
    }
}

/// What the front end reads in this state.
pub open spec fn status_of(v: InnerView) -> StatusView {
    StatusView {
        state: v.state,
        agent_port: port_or_zero(v.agent_port),
        proxy_port: port_or_zero(v.proxy_port),
        proxy_url: or_empty(v.proxy_url),
        pid: v.pid,
    }
}

/// The state once the agent has been started.
pub open spec fn starting(v: InnerView, pid: u32, token: Seq<char>, port: u16) -> InnerView {
    InnerView {
        pid: Some(pid),
        token: Some(token),
        agent_port: Some(port),
        state: "starting"@,
        last_error: None,
        ..v
    }
}

/// The state once the proxy serves the agent.
pub open spec fn running(
    v: InnerView,
    agent_port: u16,
    proxy_port: u16,
    proxy_url: Seq<char>,
) -> InnerView {
    InnerView {
        proxy_port: Some(proxy_port),
        proxy_url: Some(proxy_url),
        agent_port: Some(agent_port),
        state: "running"@,
        ..v
    }
}

/// The state once the agent has been stopped.
pub open spec fn stopped(v: InnerView) -> InnerView {
    InnerView {
        pid: None,
        token: None,
        proxy_port: None,
        proxy_url: None,
        agent_port: None,
        state: "stopped"@,
        ..v
    }
}

/// What the front end reads.
pub fn current_status(inner: &InnerState) -> (r: AgentStatus)
    ensures
        r@ == status_of(inner@),
{
    AgentStatus {
        state: inner.state.clone(),
        agent_port: match inner.agent_port {
            Some(p) => p,
            None => 0,
        },
        proxy_port: match inner.proxy_port {
            Some(p) => p,
            None => 0,
        },
        proxy_url: match &inner.proxy_url {
            Some(u) => u.clone(),
            None => String::new(),
        },
        pid: match &inner.child {
            Some(c) => Some(c.pid),
            None => None,
        },
    }
}

/// What a request to start the agent is answered with at once: an agent that
/// runs is not started a second time.
pub fn start_guard(inner: &InnerState) -> (r: Option<AgentStatus>)
    ensures
        r is Some <==> inner@.pid is Some,
        r matches Some(s) ==> s@ == status_of(inner@),
{
    if inner.child.is_some() {
        Some(current_status(inner))
    } else {
        None
    }
}

/// The agent has been started.
pub fn record_start(inner: &mut InnerState, pid: u32, token: &str, port: u16)
    ensures
        final(inner)@ == starting(old(inner)@, pid, token@, port),
{
    inner.child = Some(ChildHandle { pid });
    inner.token = Some(token.to_owned());
    inner.agent_port = Some(port);
    inner.state = "starting".to_owned();
    inner.last_error = None;
}

/// The agent has said that it is ready; a launch token that it gave is kept.
pub fn record_notice(inner: &mut InnerState, notice: &ReadyNotice)
    ensures
        final(inner)@ == (InnerView {
            agent_token: match opt_text(notice.agent_token) {
                Some(t) => Some(t),
                None => old(inner)@.agent_token,
            },
            ..old(inner)@
        }),
{
    if let Some(t) = &notice.agent_token {
        inner.agent_token = Some(t.clone());
    }
}

/// What the proxy is started with.
#[derive(Clone, Debug)]
pub struct ProxyStart {
    pub agent_token: Option<String>,
    pub theme: Option<String>,
}

/// The agent is ready: what the proxy is to be started with, unless it runs
/// already. A launch token that comes with the news wins over one that was kept,
/// unless it is empty.
pub fn ready_plan(inner: &InnerState, agent_token: Option<String>, theme: &str) -> (r: Option<
    ProxyStart,
>)
    ensures
        r is None <==> inner@.state == "running"@,
        r matches Some(p) ==> opt_text(p.agent_token) == (if or_empty(
            opt_text(agent_token),
        ).len() > 0 {
            opt_text(agent_token)
        } else {
            inner@.agent_token
        }) && opt_text(p.theme) == chosen(theme@),
{
    if same_text(inner.state.as_str(), "running") {
        return None;
    }
    let token = match agent_token {
        Some(t) => if t.as_str().is_empty() {
            clone_opt(&inner.agent_token)
        } else {
            Some(t)
        },
        None => clone_opt(&inner.agent_token),
    };
    Some(ProxyStart { agent_token: token, theme: chosen_theme(theme) })
}

/// The proxy serves the agent: the state, and what the front end hears of it.
pub fn record_proxy(
    inner: &mut InnerState,
    agent_port: u16,
    proxy_port: u16,
    proxy_url: &str,
) -> (r: StateEvent)
    ensures
        final(inner)@ == running(old(inner)@, agent_port, proxy_port, proxy_url@),
        r@ == status_of(final(inner)@),
{
    inner.proxy_port = Some(proxy_port);
    inner.proxy_url = Some(proxy_url.to_owned());
    inner.agent_port = Some(agent_port);
    inner.state = "running".to_owned();
    StateEvent {
        state: "running".to_owned(),
        proxy_url: proxy_url.to_owned(),
        agent_port,
        proxy_port,
        pid: match &inner.child {
            Some(c) => Some(c.pid),
            None => None,
        },
    }
}

/// What is said when the proxy could not be started.
pub fn proxy_failed_text(error: &str) -> (r: String)
    ensures
        r@ == "本地反代启动失败: "@ + error@,
{
    joined("本地反代启动失败: ", error)
}

/// The agent is to stop: the state, and the process to end if there is one.
pub fn stop_dsh(inner: &mut InnerState) -> (r: Option<ChildHandle>)
    ensures
        final(inner)@ == stopped(old(inner)@),
        r == old(inner).child,
{
    let child = match &inner.child {
        Some(c) => Some(ChildHandle { pid: c.pid }),
        None => None,
    };
    inner.state = "stopped".to_owned();
    inner.token = None;
    inner.proxy_port = None;
    inner.proxy_url = None;
    inner.agent_port = None;
    inner.child = None;
    child
}

/// The agent has ended by itself: the state, and what the front end hears of it.
pub fn record_end(inner: &mut InnerState, agent_port: u16) -> (r: StateEvent)
    ensures
        final(inner)@ == (InnerView { state: "stopped"@, pid: None, ..old(inner)@ }),
        r@ == (StatusView {
            state: "stopped"@,
            agent_port,
            proxy_port: 0,
            proxy_url: Seq::empty(),
            pid: None,
        }),
{
    inner.state = "stopped".to_owned();
    inner.child = None;
    StateEvent {
        state: "stopped".to_owned(),
        proxy_url: String::new(),
        agent_port,
        proxy_port: 0,
        pid: None,
    }
}

// ---------------------------------------------------------------------------
// Knocking
// ---------------------------------------------------------------------------

/// How often the agent's port is tried.
pub const PROBES: u32 = 40;

/// The pause before each try, in milliseconds.
pub const PROBE_PAUSE_MS: u64 = 500;

/// How long a try may take, in milliseconds.
pub const PROBE_TIMEOUT_MS: u64 = 400;

/// Tries the agent's port, for an agent whose output does not say that it is
/// ready.
#[derive(Clone, Copy, Debug)]
pub struct Probe {
    left: u32,
}

/// What the probe does next.
#[derive(Clone, Debug)]
pub enum ProbeStep {
    /// Wait for so many milliseconds, then try the port.
    Pause(u64),
    /// The agent is ready; this launch token is known, if any is.
    Ready(Option<String>),
    /// Nothing more.
    Stop,
}

/// What a step of the probe says.
pub enum ProbeStepView {
    Pause(u64),
    Ready(Option<Seq<char>>),
    Stop,
}

impl View for ProbeStep {
    type V = ProbeStepView;

    open spec fn view(&self) -> ProbeStepView {
        match self {
            ProbeStep::Pause(ms) => ProbeStepView::Pause(*ms),
            ProbeStep::Ready(t) => ProbeStepView::Ready(opt_text(*t)),
            ProbeStep::Stop => ProbeStepView::Stop,
        }
    }
}

/// What follows a try of the port when so many are left, it among them.
pub open spec fn after_probe(left: u32, answered: bool, v: InnerView) -> ProbeStepView {
    if answered {
        if v.proxy_url is Some {
            ProbeStepView::Stop
        } else {
            ProbeStepView::Ready(v.agent_token)
        }
    } else if left > 1 {
        ProbeStepView::Pause(PROBE_PAUSE_MS)
    } else {
        ProbeStepView::Stop
    }
}

impl Probe {
    /// How many tries are left.
    pub closed spec fn tries(&self) -> u32 {
        self.left
    }

    /// Starts to probe.
    pub fn start() -> (r: (Probe, ProbeStep))
        ensures
            r.0.tries() == PROBES,
            r.1@ == ProbeStepView::Pause(PROBE_PAUSE_MS),
    {
        (Probe { left: PROBES }, ProbeStep::Pause(PROBE_PAUSE_MS))
    }

    /// The port has been tried. The first answer ends the probe; it counts only
    /// if the proxy does not serve the agent already.
    pub fn tried(&mut self, answered: bool, inner: &InnerState) -> (r: ProbeStep)
        ensures
            r@ == after_probe(old(self).tries(), answered, inner@),
            final(self).tries() == if answered || old(self).tries() == 0 {
                old(self).tries()
            } else {
                (old(self).tries() - 1) as u32
            },
    {
        if answered {
            if inner.proxy_url.is_some() {
                ProbeStep::Stop
            } else {
                ProbeStep::Ready(clone_opt(&inner.agent_token))
            }
        } else {
            if self.left > 0 {
                self.left = self.left - 1;
            }
            if self.left > 0 {
                ProbeStep::Pause(PROBE_PAUSE_MS)
            } else {
                ProbeStep::Stop
            }
        }
    }
}

// ---------------------------------------------------------------------------
// Laws
// ---------------------------------------------------------------------------

/// A launch token holds no character that ends one, and is not empty.
pub proof fn law_a_printed_token_is_pure(line: Seq<char>, i: int)
    requires
        printed_token(line) is Some,
        0 <= i < printed_token(line)->0.len(),
    ensures
        printed_token(line)->0.len() > 0,
        !ends_token(printed_token(line)->0[i]),
{
    lemma_token_start(line);
    lemma_token_span(line.skip(token_start(line)->0));
}

/// `token_span` counts the characters before the first that ends a token.
proof fn lemma_token_span(s: Seq<char>)
    ensures
        0 <= token_span(s) <= s.len(),
        forall|k: int| 0 <= k < token_span(s) ==> !ends_token(#[trigger] s[k]),
    decreases s.len(),
{
    if s.len() > 0 && !ends_token(s[0]) {
        let t = s.drop_first();
        lemma_token_span(t);
        assert forall|k: int| 0 <= k < token_span(s) implies !ends_token(#[trigger] s[k]) by {
            if k > 0 {
                assert(t[k - 1] == s[k]);
            }
        }
    }
}

/// An agent that has been started is seen as starting, on its port.
pub proof fn law_a_start_is_seen(v: InnerView, pid: u32, token: Seq<char>, port: u16)
    ensures
        status_of(starting(v, pid, token, port)).state == "starting"@,
        status_of(starting(v, pid, token, port)).pid == Some(pid),
        status_of(starting(v, pid, token, port)).agent_port == port,
{
}

/// Once the proxy serves the agent it is seen as running, under the proxy's
/// address, and the agent goes on being the one that was started.
pub proof fn law_a_proxy_is_seen(
    v: InnerView,
    agent_port: u16,
    proxy_port: u16,
    url: Seq<char>,
)
    ensures
        ({
            let after = running(v, agent_port, proxy_port, url);
            &&& status_of(after) == (StatusView {
                state: "running"@,
                agent_port,
                proxy_port,
                proxy_url: url,
                pid: v.pid,
            })
            &&& after.token == v.token
            &&& after.agent_token == v.agent_token
        }),
{
}

/// A stop leaves nothing to be seen of the agent, and a second stop changes
/// nothing.
pub proof fn law_a_stop_is_complete(v: InnerView)
    ensures
        status_of(stopped(v)) == (StatusView {
            state: "stopped"@,
            agent_port: 0,
            proxy_port: 0,
            proxy_url: Seq::empty(),
            pid: None,
        }),
        stopped(v).token is None,
        stopped(stopped(v)) == stopped(v),
{
}

/// The probe pauses at most as often as it has tries: a try that is not answered
/// takes one, and the last is followed by nothing.
pub proof fn law_the_probe_ends(left: u32, v: InnerView)
    ensures
        after_probe(left, false, v) is Pause <==> left > 1,
        after_probe(left, true, v) !is Pause,
        after_probe(left, true, v) is Ready <==> v.proxy_url is None,
{
}

/// A launch token is read whole: behind the first `?token=` of a line it runs to the
/// first ampersand, white space, bracket or quote, or to the end, however long it
/// is.
pub proof fn law_a_token_is_read_whole(head: Seq<char>, token: Seq<char>, tail: Seq<char>)
    requires
        !contains(head, "?token="@),
        token.len() > 0,
        forall|i: int|
            0 <= i < token.len() ==> #[trigger] token[i] != '&' && token[i] != '(' && token[i]
                != ')' && token[i] != '"' && token[i] != '\'' && !is_space(token[i]),
        tail.len() == 0 || tail[0] == '&' || tail[0] == '(' || tail[0] == ')' || tail[0] == '"'
            || tail[0] == '\'' || is_space(tail[0]),
    ensures
        printed_token(head + "?token="@ + token + tail) == Some(token),
{
    reveal_strlit("?token=");
    let mark = "?token="@;
    let line = head + mark + token + tail;
    let n = head.len() as int;
    lemma_mark_is_found(head, mark, token + tail);
    assert(line =~= head + mark + (token + tail));
    let rest = line.skip(n + 7);
    assert(rest =~= token + tail);
    lemma_token_span_is(token, tail);
    assert(rest.take(token.len() as int) =~= token);
}

/// In a line without `?token=` the first `token=` counts, and the token behind it is
/// read whole.
pub proof fn law_a_bare_token_is_read_whole(head: Seq<char>, token: Seq<char>, tail: Seq<char>)
    requires
        !contains(head, "token="@),
        !contains(head + "token="@ + token + tail, "?token="@),
        token.len() > 0,
        forall|i: int|
            0 <= i < token.len() ==> #[trigger] token[i] != '&' && token[i] != '(' && token[i]
                != ')' && token[i] != '"' && token[i] != '\'' && !is_space(token[i]),
        tail.len() == 0 || tail[0] == '&' || tail[0] == '(' || tail[0] == ')' || tail[0] == '"'
            || tail[0] == '\'' || is_space(tail[0]),
    ensures
        printed_token(head + "token="@ + token + tail) == Some(token),
{
    reveal_strlit("?token=");
    reveal_strlit("token=");
    let mark = "token="@;
    let line = head + mark + token + tail;
    let n = head.len() as int;
    lemma_find_contains(line, "?token="@);
    lemma_mark_is_found(head, mark, token + tail);
    assert(line =~= head + mark + (token + tail));
    let rest = line.skip(n + 6);
    assert(rest =~= token + tail);
    lemma_token_span_is(token, tail);
    assert(rest.take(token.len() as int) =~= token);
}

/// A line without `token=` has no token, and neither has one in which what ends a
/// token follows `?token=` at once.
pub proof fn law_where_there_is_no_token(line: Seq<char>, head: Seq<char>, tail: Seq<char>)
    requires
        !contains(line, "token="@),
        !contains(head, "?token="@),
        tail.len() == 0 || tail[0] == '&' || tail[0] == '(' || tail[0] == ')' || tail[0] == '"'
            || tail[0] == '\'' || is_space(tail[0]),
    ensures
        printed_token(line) is None,
        printed_token(head + "?token="@ + tail) is None,
{
    reveal_strlit("?token=");
    reveal_strlit("token=");
    lemma_find_contains(line, "token="@);
    lemma_find_contains(line, "?token="@);
    if contains(line, "?token="@) {
        let i = choose|i: int| occurs_at(line, "?token="@, i);
        assert(line.subrange(i + 1, i + 7) =~= line.subrange(i, i + 7).drop_first());
        assert("?token="@.drop_first() =~= "token="@);
        assert(occurs_at(line, "token="@, i + 1));
    }
    let full = head + "?token="@ + tail;
    let n = head.len() as int;
    lemma_mark_is_found(head, "?token="@, tail);
    assert(full.skip(n + 7) =~= tail);
}

/// A mark whose first character does not come again in it is found behind a text
/// that does not hold it.
proof fn lemma_mark_is_found(head: Seq<char>, mark: Seq<char>, rest: Seq<char>)
    requires
        !contains(head, mark),
        mark.len() > 0,
        forall|k: int| 0 < k < mark.len() ==> #[trigger] mark[k] != mark[0],
    ensures
        find(head + mark + rest, mark) == Some(head.len() as int),
{
    let s = head + mark + rest;
    let n = head.len() as int;
    let m = mark.len() as int;
    assert(s.subrange(n, n + m) =~= mark);
    assert(occurs_at(s, mark, n));
    lemma_find_from(s, mark, 0);
    let i = find(s, mark)->0;
    if i < n {
        let part = s.subrange(i, i + m);
        assert(part == mark);
        if i + m <= n {
            assert(head.subrange(i, i + m) =~= part);
            assert(occurs_at(head, mark, i));
        } else {
            assert(part[n - i] == s[n]);
            assert(s[n] == mark[0]);
        }
        assert(false);
    }
}

/// A token ends where something follows that ends it.
proof fn lemma_token_span_is(token: Seq<char>, tail: Seq<char>)
    requires
        forall|i: int| 0 <= i < token.len() ==> !ends_token(#[trigger] token[i]),
        tail.len() == 0 || ends_token(tail[0]),
    ensures
        token_span(token + tail) == token.len(),
    decreases token.len(),
{
    let s = token + tail;
    if token.len() > 0 {
        assert(s[0] == token[0]);
        assert(s.drop_first() =~= token.drop_first() + tail);
        assert forall|i: int| 0 <= i < token.drop_first().len() implies !ends_token(
            #[trigger] token.drop_first()[i],
        ) by {
            assert(token.drop_first()[i] == token[i + 1]);
        }
        lemma_token_span_is(token.drop_first(), tail);
    } else {
        assert(s =~= tail);
    }
}

/// A line that tells the agent's address on its port says that it is ready; one
/// that does not name this machine, or not the port, does not.
pub proof fn law_which_line_says_ready(head: Seq<char>, tail: Seq<char>, line: Seq<char>, port: u16)
    ensures
        says_ready(head + "http://127.0.0.1:"@ + decimal(port as nat) + tail, port),
        says_ready(line, port) ==> contains(line, "http://127.0.0.1"@) && contains(
            line,
            ":"@ + decimal(port as nat),
        ),
{
    reveal_strlit("http://127.0.0.1:");
    reveal_strlit("http://127.0.0.1");
    reveal_strlit(":");
    let d = decimal(port as nat);
    let s = head + "http://127.0.0.1:"@ + d + tail;
    let n = head.len() as int;
    assert(s.subrange(n, n + 16) =~= "http://127.0.0.1"@);
    assert(occurs_at(s, "http://127.0.0.1"@, n));
    assert(s.subrange(n + 16, n + 17 + d.len()) =~= ":"@ + d);
    assert(occurs_at(s, ":"@ + d, n + 16));
}

/// A line of the output is logged without the white space at its end, and not at
/// all if there is nothing else.
pub proof fn law_what_is_logged(core: Seq<char>, tail: Seq<char>)
    requires
        forall|i: int| 0 <= i < tail.len() ==> is_space(#[trigger] tail[i]),
        core.len() > 0 ==> !is_space(core.last()),
    ensures
        core.len() > 0 ==> logged(core + tail) == Some(core),
        logged(tail) is None,
{
    law_trimming_the_end(core, tail);
    law_trimming_the_end(Seq::empty(), tail);
    assert(Seq::<char>::empty() + tail =~= tail);
}

/// What the front end reads is what is known; a port that is not known is zero, an
/// address that is not known is empty.
pub proof fn law_the_status_is_what_is_known(v: InnerView)
    ensures
        status_of(v).state == v.state,
        status_of(v).pid == v.pid,
        v.agent_port matches Some(p) ==> status_of(v).agent_port == p,
        v.agent_port is None ==> status_of(v).agent_port == 0,
        v.proxy_port matches Some(p) ==> status_of(v).proxy_port == p,
        v.proxy_port is None ==> status_of(v).proxy_port == 0,
        v.proxy_url matches Some(u) ==> status_of(v).proxy_url == u,
        v.proxy_url is None ==> status_of(v).proxy_url == Seq::<char>::empty(),
{
}

/// A start is recorded with its process, its token and its port, forgets an earlier
/// error, and leaves the rest; a stop forgets all of the agent but its launch token
/// and the last error.
pub proof fn law_what_a_start_and_a_stop_change(
    v: InnerView,
    pid: u32,
    token: Seq<char>,
    port: u16,
)
    ensures
        starting(v, pid, token, port) == (InnerView {
            pid: Some(pid),
            token: Some(token),
            proxy_port: v.proxy_port,
            proxy_url: v.proxy_url,
            agent_port: Some(port),
            agent_token: v.agent_token,
            state: "starting"@,
            last_error: None,
        }),
        stopped(v) == (InnerView {
            pid: None,
            token: None,
            proxy_port: None,
            proxy_url: None,
            agent_port: None,
            agent_token: v.agent_token,
            state: "stopped"@,
            last_error: v.last_error,
        }),
        running(v, port, port, token).last_error == v.last_error,
{
}

/// The port is tried forty times, half a second apart; an agent that answers is
/// ready with the launch token that it has printed, unless the proxy serves it
/// already.
pub proof fn law_how_the_port_is_probed(left: u32, v: InnerView)
    ensures
        PROBES == 40,
        left > 1 ==> after_probe(left, false, v) == ProbeStepView::Pause(500),
        left <= 1 ==> after_probe(left, false, v) == ProbeStepView::Stop,
        v.proxy_url is None ==> after_probe(left, true, v) == ProbeStepView::Ready(v.agent_token),
        v.proxy_url is Some ==> after_probe(left, true, v) == ProbeStepView::Stop,
{
}

} // verus!
