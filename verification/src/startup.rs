//! The order in which the agent is started, and what happens when the
//! application opens.

use vstd::prelude::*;
use vstd::string::*;

use crate::config::{base_env, build_env, resolve_dsh_home};
use crate::launch::{
    call_args, gen_token, is_token_of, launch_args, launch_failed, launch_failed_text,
    normalize_path, normalized,
};
use crate::lifecycle::{current_status, record_start, start_guard, starting, status_of};
use crate::locks::{healed_line, healed_log_line};
use crate::state::{AgentStatus, AppConfig, InnerState, LogLine};
use crate::string_map::StringMap;
use crate::text::{clone_opt, decimal, opt_text, same_text, texts};
use crate::theme::{restore_script, theme_restore_script};

verus! {

// ---------------------------------------------------------------------------
// Starting the agent
// ---------------------------------------------------------------------------

/// What a start waits for.
#[derive(Clone, Copy, Debug, PartialEq, Eq, Structural)]
pub enum StartPhase {
    /// The locks that were left behind have been set aside.
    Healing,
    /// The settings have been written.
    Settings,
    /// The key has been read.
    Key,
    /// A port has been found.
    Port,
    /// The runtime has been found.
    Node,
    /// The agent's entry has been found.
    Entry,
    /// The process has been started.
    Process,
    /// Nothing: the start is over.
    Over,
}

/// How the agent's process is to be called.
#[derive(Clone, Debug)]
pub struct Call {
    pub program: String,
    pub args: Vec<String>,
    pub env: StringMap,
}

/// A start under way.
#[derive(Clone, Debug)]
pub struct Start {
    cfg: AppConfig,
    home: String,
    verbatim_paths: bool,
    phase: StartPhase,
    key: Option<String>,
    port: u16,
    node: String,
    entry: String,
}

/// What is known of a start.
pub struct StartView {
    pub cfg: AppConfig,
    /// Where the agent keeps its data.
    pub home: Seq<char>,
    /// Whether paths may be verbatim ones, which the runtime does not take.
    pub verbatim_paths: bool,
    pub phase: StartPhase,
    pub key: Option<Seq<char>>,
    pub port: u16,
    pub node: Seq<char>,
    pub entry: Seq<char>,
}

impl View for Start {
    type V = StartView;

    closed spec fn view(&self) -> StartView {
        StartView {
            cfg: self.cfg,
            home: self.home@,
            verbatim_paths: self.verbatim_paths,
            phase: self.phase,
            key: opt_text(self.key),
            port: self.port,
            node: self.node@,
            entry: self.entry@,
        }
    }
}

/// What a start hears.
#[derive(Debug)]
pub enum StartEvent {
    /// These locks have been set aside; each held by this process.
    Healed(Vec<(String, u32)>),
    /// The settings have been written, or could not be.
    Settings(Result<(), String>),
    /// The key in the system's key store, if there is one.
    Key(Option<String>),
    /// The port to listen on.
    Port(u16),
    /// The runtime has been found, or has not.
    Node(Result<String, String>),
    /// The agent's entry has been found, or has not.
    Entry(Result<String, String>),
}

/// What a start does next.
#[derive(Debug)]
pub enum StartAction {
    /// The start is over: this is what the front end reads.
    Report(AgentStatus),
    /// Set aside the locks below this directory that were left behind.
    Heal(String),
    /// Log these lines, then write the settings.
    WriteSettings(Vec<LogLine>),
    /// Read the key from the system's key store.
    ReadKey,
    /// Find a free port, this one if it is.
    FindPort(u16),
    /// Find the runtime.
    FindNode,
    /// Find the agent's entry.
    FindEntry,
    /// Start the process.
    Launch(Call),
    /// The start has failed.
    Fail(String),
}

/// Whether a start waits for an event of this kind.
pub open spec fn start_awaits(phase: StartPhase, e: StartEvent) -> bool {
    match e {
        StartEvent::Healed(_) => phase == StartPhase::Healing,
        StartEvent::Settings(_) => phase == StartPhase::Settings,
        StartEvent::Key(_) => phase == StartPhase::Key,
        StartEvent::Port(_) => phase == StartPhase::Port,
        StartEvent::Node(_) => phase == StartPhase::Node,
        StartEvent::Entry(_) => phase == StartPhase::Entry,
    }
}

/// A path in the form that the runtime takes.
pub open spec fn runtime_path(verbatim_paths: bool, p: Seq<char>) -> Seq<char> {
    if verbatim_paths {
        normalized(p)
    } else {
        p
    }
}

/// Where the agent keeps its data.
pub open spec fn home_of(cfg: AppConfig, own: Seq<char>) -> Seq<char> {
    if cfg.paths.data_dir@.len() > 0 {
        cfg.paths.data_dir@
    } else {
        own
    }
}

/// A start after an event.
pub open spec fn start_after(x: StartView, e: StartEvent) -> StartView {
    match e {
        StartEvent::Healed(_) => StartView { phase: StartPhase::Settings, ..x },
        StartEvent::Settings(s) => StartView {
            phase: if s is Ok {
                StartPhase::Key
            } else {
                StartPhase::Over
            },
            ..x
        },
        StartEvent::Key(k) => StartView { phase: StartPhase::Port, key: opt_text(k), ..x },
        StartEvent::Port(p) => StartView { phase: StartPhase::Node, port: p, ..x },
        StartEvent::Node(n) => match n {
            Ok(path) => StartView {
                phase: StartPhase::Entry,
                node: runtime_path(x.verbatim_paths, path@),
                ..x
            },
            Err(_) => StartView { phase: StartPhase::Over, ..x },
        },
        StartEvent::Entry(n) => match n {
            Ok(path) => StartView {
                phase: StartPhase::Process,
                entry: runtime_path(x.verbatim_paths, path@),
                ..x
            },
            Err(_) => StartView { phase: StartPhase::Over, ..x },
        },
    }
}

/// Whether the log lines are those of the locks that were set aside.
pub open spec fn heal_lines(lines: Seq<LogLine>, locks: Seq<(String, u32)>) -> bool {
    &&& lines.len() == locks.len()
    &&& forall|i: int|
        0 <= i < lines.len() ==> (#[trigger] lines[i]).stream@ == "system"@ && lines[i].line@
            == healed_line(locks[i].0@, locks[i].1)
}

/// Whether a call is the one that a start makes.
pub open spec fn is_call(c: Call, x: StartView) -> bool {
    &&& c.program@ == x.node
    &&& texts(c.args@) == call_args(x.entry, x.port)
    &&& c.env.wf()
    &&& c.env@ == base_env(x.home, x.key, x.cfg.model.base_url@).union_prefer_right(
        x.cfg.advanced.extra_env@,
    )
}

/// Whether an action is the one that follows an event, `y` being the start after
/// it.
pub open spec fn is_start_action(a: StartAction, e: StartEvent, y: StartView) -> bool {
    match e {
        StartEvent::Healed(locks) => a matches StartAction::WriteSettings(lines) && heal_lines(
            lines@,
            locks@,
        ),
        StartEvent::Settings(s) => match s {
            Ok(_) => a is ReadKey,
            Err(t) => a matches StartAction::Fail(m) && m@ == t@,
        },
        StartEvent::Key(_) => a == StartAction::FindPort(y.cfg.server.port),
        StartEvent::Port(_) => a is FindNode,
        StartEvent::Node(n) => match n {
            Ok(_) => a is FindEntry,
            Err(t) => a matches StartAction::Fail(m) && m@ == t@,
        },
        StartEvent::Entry(n) => match n {
            Ok(_) => a matches StartAction::Launch(c) && is_call(c, y),
            Err(t) => a matches StartAction::Fail(m) && m@ == t@,
        },
    }
}

/// What came of the attempt to start the process.
#[derive(Clone, Debug)]
pub struct StartOutcome {
    /// What the front end reads, or what went wrong.
    pub result: Option<AgentStatus>,
    /// What is announced if it went wrong.
    pub error: String,
    /// The token under which the proxy will be reached.
    pub token: String,
}

impl Start {
    /// Whether the user's own variables are well formed.
    pub open spec fn wf(&self) -> bool {
        self@.cfg.advanced.extra_env.wf()
    }

    /// Begins a start. An agent that runs is not started a second time; before
    /// any other is started, the locks that the last one left behind are set
    /// aside.
    pub fn begin(inner: &InnerState, cfg: AppConfig, own_home: &str, verbatim_paths: bool) -> (r: (
        Start,
        StartAction,
    ))
        requires
            cfg.advanced.extra_env.wf(),
        ensures
            r.0.wf(),
            r.0@ == (StartView {
                cfg,
                home: home_of(cfg, own_home@),
                verbatim_paths,
                phase: if inner@.pid is Some {
                    StartPhase::Over
                } else {
                    StartPhase::Healing
                },
                key: None,
                port: 0,
                node: Seq::empty(),
                entry: Seq::empty(),
            }),
            match inner@.pid {
                Some(_) => r.1 matches StartAction::Report(s) && s@ == status_of(inner@),
                None => r.1 matches StartAction::Heal(h) && h@ == home_of(cfg, own_home@),
            },
    {
        let home = match resolve_dsh_home(&cfg) {
            Some(h) => h,
            None => own_home.to_owned(),
        };
        let (phase, action) = match start_guard(inner) {
            Some(s) => (StartPhase::Over, StartAction::Report(s)),
            None => (StartPhase::Healing, StartAction::Heal(home.clone())),
        };
        let x = Start {
            cfg,
            home,
            verbatim_paths,
            phase,
            key: None,
            port: 0,
            node: String::new(),
            entry: String::new(),
        };
        (x, action)
    }

    /// Whether the start waits for such an event.
    pub fn expects(&self, e: &StartEvent) -> (r: bool)
        ensures
            r == start_awaits(self@.phase, *e),
    {
        match e {
            StartEvent::Healed(_) => self.phase == StartPhase::Healing,
            StartEvent::Settings(_) => self.phase == StartPhase::Settings,
            StartEvent::Key(_) => self.phase == StartPhase::Key,
            StartEvent::Port(_) => self.phase == StartPhase::Port,
            StartEvent::Node(_) => self.phase == StartPhase::Node,
            StartEvent::Entry(_) => self.phase == StartPhase::Entry,
        }
    }

    /// Whether the start waits for the process.
    pub fn expects_process(&self) -> (r: bool)
        ensures
            r == (self@.phase == StartPhase::Process),
    {
        self.phase == StartPhase::Process
    }

    /// A path in the form that the runtime takes.
    fn path(&self, p: String) -> (r: String)
        ensures
            r@ == runtime_path(self@.verbatim_paths, p@),
    {
        if self.verbatim_paths {
            normalize_path(p.as_str())
        } else {
            p
        }
    }

    /// How the agent's process is to be called.
    fn call(&self) -> (r: Call)
        requires
            self.wf(),
        ensures
            is_call(r, self@),
    {
        let key = clone_opt(&self.key);
        Call {
            program: self.node.clone(),
            args: launch_args(self.entry.as_str(), self.port),
            env: build_env(&self.cfg, self.home.as_str(), key),
        }
    }

    /// Takes an event that the start waits for, and says what to do next.
    pub fn step(&mut self, e: StartEvent) -> (r: StartAction)
        requires
            old(self).wf(),
            start_awaits(old(self)@.phase, e),
        ensures
            final(self).wf(),
            final(self)@ == start_after(old(self)@, e),
            is_start_action(r, e, final(self)@),
    {
        match e {
            StartEvent::Healed(locks) => {
                self.phase = StartPhase::Settings;
                let mut lines: Vec<LogLine> = Vec::new();
                for i in 0..locks.len()
                    invariant
                        lines.len() == i,
                        forall|k: int|
                            0 <= k < i ==> (#[trigger] lines@[k]).stream@ == "system"@
                                && lines@[k].line@ == healed_line(locks@[k].0@, locks@[k].1),
                {
                    lines.push(healed_log_line(locks[i].0.as_str(), locks[i].1));
                }
                StartAction::WriteSettings(lines)
            },
            StartEvent::Settings(s) => match s {
                Ok(_) => {
                    self.phase = StartPhase::Key;
                    StartAction::ReadKey
                },
                Err(t) => {
                    self.phase = StartPhase::Over;
                    StartAction::Fail(t)
                },
            },
            StartEvent::Key(k) => {
                self.phase = StartPhase::Port;
                self.key = k;
                StartAction::FindPort(self.cfg.server.port)
            },
            StartEvent::Port(p) => {
                self.phase = StartPhase::Node;
                self.port = p;
                StartAction::FindNode
            },
            StartEvent::Node(n) => match n {
                Ok(path) => {
                    self.phase = StartPhase::Entry;
                    self.node = self.path(path);
                    StartAction::FindEntry
                },
                Err(t) => {
                    self.phase = StartPhase::Over;
                    StartAction::Fail(t)
                },
            },
            StartEvent::Entry(n) => match n {
                Ok(path) => {
                    self.phase = StartPhase::Process;
                    self.entry = self.path(path);
                    StartAction::Launch(self.call())
                },
                Err(t) => {
                    self.phase = StartPhase::Over;
                    StartAction::Fail(t)
                },
            },
        }
    }

    /// The process has been started, or could not be. Once it has, the state
    /// says so, under a new token.
    pub fn launched(&mut self, process: Result<u32, String>, inner: &mut InnerState) -> (r:
        StartOutcome)
        requires
            old(self)@.phase == StartPhase::Process,
        ensures
            final(self)@ == (StartView { phase: StartPhase::Over, ..old(self)@ }),
            match process {
                Ok(pid) => {
                    &&& exists|b: Seq<u8>| #[trigger] is_token_of(r.token@, b)
                    &&& final(inner)@ == starting(
                        old(inner)@,
                        pid,
                        r.token@,
                        old(self)@.port,
                    )
                    &&& r.result matches Some(s) && s@ == status_of(final(inner)@)
                    &&& r.error@ == Seq::<char>::empty()
                },
                Err(t) => {
                    &&& final(inner)@ == old(inner)@
                    &&& r.result is None
                    &&& r.error@ == launch_failed(t@, old(self)@.node, old(self)@.entry)
                    &&& r.token@ == Seq::<char>::empty()
                },
            },
    {
        self.phase = StartPhase::Over;
        match process {
            Ok(pid) => {
                let token = gen_token();
                record_start(inner, pid, token.as_str(), self.port);
                let status = current_status(inner);
                StartOutcome { result: Some(status), error: String::new(), token }
            },
            Err(t) => StartOutcome {
                result: None,
                error: launch_failed_text(t.as_str(), self.node.as_str(), self.entry.as_str()),
                token: String::new(),
            },
        }
    }
}

// ---------------------------------------------------------------------------
// Opening the application
// ---------------------------------------------------------------------------

/// What happens when the application opens.
#[derive(Clone, Debug)]
pub struct Opening {
    /// The script that sets the theme in the window, if one is preferred.
    pub restore: Option<String>,
    /// Whether the agent is started.
    pub autostart: bool,
}

/// What happens when the application opens.
pub fn opening(cfg: &AppConfig, preferred_theme: &Option<String>) -> (r: Opening)
    ensures
        r.autostart == cfg.server.auto_start,
        opt_text(r.restore) == match opt_text(*preferred_theme) {
            Some(t) => Some(restore_script(t)),
            None => None,
        },
{
    Opening {
        restore: match preferred_theme {
            Some(t) => Some(theme_restore_script(t.as_str())),
            None => None,
        },
        autostart: cfg.server.auto_start,
    }
}

/// Whether the theme is set in a window of this name.
pub fn is_main_window(name: &str) -> (r: bool)
    ensures
        r == (name@ == "main"@),
{
    same_text(name, "main")
}

// ---------------------------------------------------------------------------
// Laws
// ---------------------------------------------------------------------------

/// How far a start is from its end.
pub open spec fn start_distance(phase: StartPhase) -> int {
    match phase {
        StartPhase::Healing => 7,
        StartPhase::Settings => 6,
        StartPhase::Key => 5,
        StartPhase::Port => 4,
        StartPhase::Node => 3,
        StartPhase::Entry => 2,
        StartPhase::Process => 1,
        StartPhase::Over => 0,
    }
}

/// A start goes through its phases in their order, one at a time, unless it
/// fails: the process is started only once the locks have been set aside, the
/// settings written, and the port, the runtime and the entry found.
pub proof fn law_a_start_goes_in_order(x: StartView, e: StartEvent)
    requires
        start_awaits(x.phase, e),
    ensures
        start_after(x, e).phase == StartPhase::Over || start_distance(start_after(x, e).phase)
            == start_distance(x.phase) - 1,
        start_after(x, e).cfg == x.cfg,
        start_after(x, e).home == x.home,
{
}

/// A start that fails ends, and says why.
pub proof fn law_a_failed_start_ends(x: StartView, e: StartEvent, a: StartAction)
    requires
        start_awaits(x.phase, e),
        is_start_action(a, e, start_after(x, e)),
    ensures
        a is Fail <==> start_after(x, e).phase == StartPhase::Over,
        a is Launch <==> start_after(x, e).phase == StartPhase::Process,
{
}

/// The agent is kept where the user says, and in the application's own directory if
/// the user says nothing.
pub proof fn law_where_the_agent_is_kept(cfg: AppConfig, own: Seq<char>)
    ensures
        cfg.paths.data_dir@.len() > 0 ==> home_of(cfg, own) == cfg.paths.data_dir@,
        cfg.paths.data_dir@.len() == 0 ==> home_of(cfg, own) == own,
{
}

/// From the locks to the process: what is launched is the runtime that was found,
/// with the entry that was found and the port that was found, and with the home, the
/// key and the address that were given, under the user's own variables. Nothing that
/// is heard in between changes any of it.
pub proof fn law_what_was_found_is_launched(
    x: StartView,
    locks: Vec<(String, u32)>,
    key: Option<String>,
    port: u16,
    node: String,
    entry: String,
    call: Call,
)
    requires
        x.phase == StartPhase::Healing,
        is_start_action(
            StartAction::Launch(call),
            StartEvent::Entry(Ok(entry)),
            start_after(
                start_after(
                    start_after(
                        start_after(
                            start_after(
                                start_after(x, StartEvent::Healed(locks)),
                                StartEvent::Settings(Ok(())),
                            ),
                            StartEvent::Key(key),
                        ),
                        StartEvent::Port(port),
                    ),
                    StartEvent::Node(Ok(node)),
                ),
                StartEvent::Entry(Ok(entry)),
            ),
        ),
    ensures
        !x.verbatim_paths ==> call.program@ == node@ && texts(call.args@) == seq![
            entry@,
            "web"@,
            "--port"@,
            decimal(port as nat),
        ],
        x.verbatim_paths ==> call.program@ == normalized(node@) && texts(call.args@) == seq![
            normalized(entry@),
            "web"@,
            "--port"@,
            decimal(port as nat),
        ],
        call.env@ == base_env(
            x.home,
            opt_text(key),
            x.cfg.model.base_url@,
        ).union_prefer_right(x.cfg.advanced.extra_env@),
{
}

/// What a start does next: it logs each lock that was set aside and writes the
/// settings, reads the key, looks for a free port from the configured one on, for the
/// runtime and for the entry; what goes wrong is told as it is.
pub proof fn law_what_a_start_does_next(a: StartAction, e: StartEvent, y: StartView)
    requires
        is_start_action(a, e, y),
    ensures
        e matches StartEvent::Healed(locks) ==> (a matches StartAction::WriteSettings(lines)
            && lines@.len() == locks@.len() && forall|i: int|
            0 <= i < lines@.len() ==> (#[trigger] lines@[i]).stream@ == "system"@ && lines@[i].line@
                == healed_line(locks@[i].0@, locks@[i].1)),
        e == StartEvent::Settings(Ok(())) ==> a is ReadKey,
        e is Key ==> a == StartAction::FindPort(y.cfg.server.port),
        e is Port ==> a is FindNode,
        (e matches StartEvent::Node(n) && n is Ok) ==> a is FindEntry,
        (e matches StartEvent::Entry(n) && n is Ok) ==> a is Launch,
        e matches StartEvent::Settings(Err(t)) ==> (a matches StartAction::Fail(m) && m@ == t@),
        e matches StartEvent::Node(Err(t)) ==> (a matches StartAction::Fail(m) && m@ == t@),
        e matches StartEvent::Entry(Err(t)) ==> (a matches StartAction::Fail(m) && m@ == t@),
{
}

} // verus!
