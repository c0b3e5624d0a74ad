use vstd::prelude::*;

use crate::connection::{app_config_str, cfg_text, object1, object2, empty_object, with_member};
use crate::json::{as_str, as_u64, get, view_entries, Json, JsonV};
use crate::text::{
    cat, contains, contains_str, join, join_strings, lines_of, lines_v, own, str_eq, trim, trim_str,
};

verus! {

/// Why the core could not be brought up.
#[derive(Debug, Clone, Copy, PartialEq, Eq, Structural)]
pub enum FailureKind {
    CoreMissing,
    ConfigInvalid,
    ServiceUnavailable,
    Timeout,
    Other,
}

/// A failed core start, stop or service call.
pub struct CoreError {
    pub kind: FailureKind,
    pub detail: String,
}

impl CoreError {
    pub fn new(kind: FailureKind, detail: String) -> (r: CoreError)
        ensures
            r.kind == kind,
            r.detail@ == detail@,
    {
        CoreError { kind, detail }
    }

    /// The message shown for this error: its detail.
    pub fn message(&self) -> (r: String)
        ensures
            r@ == self.detail@,
    {
        self.detail.clone()
    }
}

/// Where the running core's REST controller answers (empty before a start).
pub struct ControllerUrl {
    url: String,
}

impl View for ControllerUrl {
    type V = Seq<char>;

    closed spec fn view(&self) -> Seq<char> {
        self.url@
    }
}

impl ControllerUrl {
    /// No controller known yet.
    pub fn new() -> (r: ControllerUrl)
        ensures
            r@ == Seq::<char>::empty(),
    {
        ControllerUrl { url: String::new() }
    }

    /// The controller address recorded last.
    pub fn controller_url(&self) -> (r: String)
        ensures
            r@ == self@,
    {
        self.url.clone()
    }

    /// Records the controller address of the core that was just started.
    pub fn set_controller_url(&mut self, url: String)
        ensures
            final(self)@ == url@,
    {
        self.url = url;
    }
}

/// Everything needed to launch the core, resolved and checked up front.
pub struct StartSpec {
    pub binary: String,
    pub work_dir: String,
    pub config: String,
    pub controller: String,
    pub secret: Option<String>,
    pub max_log_days: u32,
}

/// Whether this process was started to host the Windows service. Only the
/// Windows build hosts the service; everywhere else there is nothing to run.
pub fn maybe_run_as_service_from_args() -> (r: Option<i32>)
    ensures
        r is None,
{
    None
}


/// What polling the core process we spawned reported.
#[derive(Debug, Clone, Copy, PartialEq, Eq, Structural)]
pub enum ChildProbe {
    /// We hold no child process.
    NoChild,
    /// `try_wait` reported it still running.
    Running,
    /// `try_wait` reported an exit, or failed.
    Gone,
}

/// Whether the spawned core is alive, and whether its handle must be
/// forgotten (it exited or could not be polled).
pub fn alive(probe: ChildProbe) -> (r: (bool, bool))
    ensures
        r.0 == (probe == ChildProbe::Running),
        r.1 == (probe == ChildProbe::Gone),
{
    match probe {
        ChildProbe::NoChild => (false, false),
        ChildProbe::Running => (true, false),
        ChildProbe::Gone => (false, true),
    }
}

/// Which side runs the core: the privileged service, or a child process.
#[derive(Debug, Clone, Copy, PartialEq, Eq, Structural)]
pub enum Backend {
    Service,
    Direct,
}

/// The backend to start the core with: a child process when the app config's
/// `corePermissionMode` (default `service`) is `direct`; else the service,
/// which must be installed.
pub fn choose_backend(app_config: &Json, service_installed: bool) -> (r: Result<Backend, CoreError>)
    ensures
        cfg_text(app_config@, "corePermissionMode"@, "service"@) == "direct"@ ==> r == Ok::<Backend, CoreError>(Backend::Direct),
        cfg_text(app_config@, "corePermissionMode"@, "service"@) != "direct"@ ==> (if service_installed {
            r == Ok::<Backend, CoreError>(Backend::Service)
        } else {
            r matches Err(e) && e.kind == FailureKind::ServiceUnavailable && e.detail@
                == "the Nyx service is not installed"@
        }),
{
    let mode = app_config_str(app_config, "corePermissionMode", "service");
    if str_eq(mode.as_str(), "direct") {
        return Ok(Backend::Direct);
    }
    if !service_installed {
        return Err(CoreError::new(FailureKind::ServiceUnavailable, own("the Nyx service is not installed")));
    }
    Ok(Backend::Service)
}

/// What stopping the core has to reach.
#[derive(Debug, Clone, Copy, PartialEq, Eq, Structural)]
pub enum StopPlan {
    StopService,
    StopChild,
    /// Unknown owner (a fresh launch): stop both, so an earlier run cannot
    /// keep the proxy alive.
    StopBoth,
}

/// How to stop the core, given the backend that started it, if known.
pub fn stop_plan(active: Option<Backend>) -> (r: StopPlan)
    ensures
        r == (match active {
            Some(Backend::Service) => StopPlan::StopService,
            Some(Backend::Direct) => StopPlan::StopChild,
            None => StopPlan::StopBoth,
        }),
{
    match active {
        Some(Backend::Service) => StopPlan::StopService,
        Some(Backend::Direct) => StopPlan::StopChild,
        None => StopPlan::StopBoth,
    }
}

/// Polls between liveness checks of the core (they cost more than a poll).
pub const LIVENESS_EVERY: u32 = 5;

/// What the wait for a starting core learned last.
pub enum ReadyEvent {
    /// Whether the controller answered a poll.
    Responded(bool),
    /// Whether the backend still runs the core.
    Alive(bool),
    /// Whether the start deadline has passed.
    DeadlinePassed(bool),
}

/// What the wait asks for next.
pub enum ReadyAction {
    /// The controller answers.
    Ready,
    Fail(CoreError),
    CheckAlive,
    CheckDeadline,
    /// Sleep one poll interval, then poll again.
    SleepThenPoll,
}

/// The wait for a starting core's controller: polls so far and its URL.
pub struct ReadyWait {
    pub tick: u32,
    pub url: String,
}

impl ReadyWait {
    pub fn new(url: String) -> (r: ReadyWait)
        ensures
            r.tick == 0,
            r.url@ == url@,
    {
        ReadyWait { tick: 0, url }
    }

    /// One step of the wait: an answer ends it; a missed poll counts, and
    /// every fifth one checks that the core still runs (a dead core fails as
    /// an invalid config); past the deadline it fails as a time-out; else it
    /// sleeps and polls again.
    pub fn step(&mut self, ev: ReadyEvent) -> (r: ReadyAction)
        requires
            old(self).tick < u32::MAX,
        ensures
            final(self).url == old(self).url,
            match ev {
                ReadyEvent::Responded(true) => r is Ready && final(self).tick == old(self).tick,
                ReadyEvent::Responded(false) => final(self).tick == old(self).tick + 1 && (if (old(self).tick
                    + 1) % 5 == 0 {
                    r is CheckAlive
                } else {
                    r is CheckDeadline
                }),
                ReadyEvent::Alive(true) => r is CheckDeadline && final(self).tick == old(self).tick,
                ReadyEvent::Alive(false) => final(self).tick == old(self).tick && (r matches ReadyAction::Fail(e)
                    && e.kind == FailureKind::ConfigInvalid && e.detail@
                    == "the core exited right after starting — check the core log"@),
                ReadyEvent::DeadlinePassed(true) => final(self).tick == old(self).tick && (r matches ReadyAction::Fail(e)
                    && e.kind == FailureKind::Timeout && e.detail@ == "the core did not answer on "@
                    + old(self).url@ + " within 20s"@),
                ReadyEvent::DeadlinePassed(false) => r is SleepThenPoll && final(self).tick == old(self).tick,
            },
            (r is SleepThenPoll) <==> (ev matches ReadyEvent::DeadlinePassed(false)),
            final(self).tick <= old(self).tick + 1,
    {
        match ev {
            ReadyEvent::Responded(true) => ReadyAction::Ready,
            ReadyEvent::Responded(false) => {
                self.tick = self.tick + 1;
                if self.tick % LIVENESS_EVERY == 0 {
                    ReadyAction::CheckAlive
                } else {
                    ReadyAction::CheckDeadline
                }
            },
            ReadyEvent::Alive(true) => ReadyAction::CheckDeadline,
            ReadyEvent::Alive(false) => ReadyAction::Fail(
                CoreError::new(
                    FailureKind::ConfigInvalid,
                    own("the core exited right after starting — check the core log"),
                ),
            ),
            ReadyEvent::DeadlinePassed(true) => {
                let mut d = cat("the core did not answer on ", self.url.as_str());
                d.push_str(" within 20s");
                ReadyAction::Fail(CoreError::new(FailureKind::Timeout, d))
            },
            ReadyEvent::DeadlinePassed(false) => ReadyAction::SleepThenPoll,
        }
    }
}

/// The trimmed, non-blank lines of a text, in order.
pub open spec fn nonblank(ls: Seq<Seq<char>>) -> Seq<Seq<char>>
    decreases ls.len(),
{
    if ls.len() == 0 {
        Seq::empty()
    } else {
        let r = nonblank(ls.drop_last());
        if trim(ls.last()).len() > 0 {
            r.push(trim(ls.last()))
        } else {
            r
        }
    }
}

/// The core's complaint in short: its last three non-blank lines joined by
/// `; ` (the banner comes first, the offending key last), or a fixed text
/// when it printed nothing.
pub open spec fn summarize_v(text: Seq<char>) -> Seq<char> {
    let ls = nonblank(lines_v(text));
    let tail = if ls.len() > 3 {
        ls.subrange(ls.len() - 3, ls.len() as int)
    } else {
        ls
    };
    if tail.len() == 0 {
        "the configuration was rejected by the core"@
    } else {
        join(tail, "; "@)
    }
}

/// Summarises the core's output on a rejected config.
pub fn summarize(text: &str) -> (r: String)
    ensures
        r@ == summarize_v(text@),
{
    let lines = lines_of(text);
    let ghost lv = lines@.map_values(|x: String| x@);
    let mut kept: Vec<String> = Vec::new();
    let mut i: usize = 0;
    assert(lv.subrange(0, 0) =~= Seq::<Seq<char>>::empty());
    assert(kept@.map_values(|x: String| x@) =~= Seq::<Seq<char>>::empty());
    while i < lines.len()
        invariant
            i <= lines.len(),
            lv == lines@.map_values(|x: String| x@),
            kept@.map_values(|x: String| x@) == nonblank(lv.subrange(0, i as int)),
        decreases lines.len() - i,
    {
        assert(lv.subrange(0, i + 1).drop_last() =~= lv.subrange(0, i as int));
        let t = trim_str(lines[i].as_str());
        if !t.as_str().is_empty() {
            let ghost before = kept@;
            kept.push(t);
            assert(kept@.map_values(|x: String| x@) =~= before.map_values(|x: String| x@).push(t@));
        }
        i += 1;
    }
    assert(lv.subrange(0, lines.len() as int) =~= lv);
    let ghost kv = kept@.map_values(|x: String| x@);
    let n = kept.len();
    let start: usize = if n > 3 {
        n - 3
    } else {
        0
    };
    let mut tail: Vec<String> = Vec::new();
    let mut j: usize = start;
    assert(tail@.map_values(|x: String| x@) =~= kv.subrange(start as int, start as int));
    while j < n
        invariant
            start <= j <= n,
            n == kept.len(),
            kv == kept@.map_values(|x: String| x@),
            tail@.map_values(|x: String| x@) == kv.subrange(start as int, j as int),
        decreases n - j,
    {
        let ghost before = tail@;
        let x = kept[j].clone();
        assert(kv[j as int] == x@);
        tail.push(x);
        assert(tail@.map_values(|x: String| x@) =~= before.map_values(|x: String| x@).push(x@));
        assert(kv.subrange(start as int, j + 1) =~= kv.subrange(start as int, j as int).push(kv[j as int]));
        j += 1;
    }
    if tail.len() == 0 {
        own("the configuration was rejected by the core")
    } else {
        assert(kv.subrange(start as int, n as int) =~= (if kv.len() > 3 {
            kv.subrange(kv.len() - 3, kv.len() as int)
        } else {
            kv
        }));
        join_strings(&tail, "; ")
    }
}

/// The outcome of checking the merged config with the core's `-t`: a core
/// that could not be run, or that accepted it, passes (the spawn reports the
/// former); so does a core without `-t`; else the config is invalid, with
/// the core's output (`stdout` then `stderr`) summarised.
pub fn validation_outcome(ran: bool, success: bool, stdout: &str, stderr: &str) -> (r: Result<(), CoreError>)
    ensures
        (!ran || success || contains(stdout@ + stderr@, "flag provided but not defined"@)) ==> r is Ok,
        !(!ran || success || contains(stdout@ + stderr@, "flag provided but not defined"@)) ==> (r matches Err(e)
            && e.kind == FailureKind::ConfigInvalid && e.detail@ == summarize_v(stdout@ + stderr@)),
{
    if !ran || success {
        return Ok(());
    }
    let text = cat(stdout, stderr);
    if contains_str(text.as_str(), "flag provided but not defined") {
        return Ok(());
    }
    Err(CoreError::new(FailureKind::ConfigInvalid, summarize(text.as_str())))
}

/// Where the core binary comes from.
pub enum CoreSource {
    /// The configured system core at this path.
    System(String),
    /// A managed core of this kind (`mihomo`, `mihomo-alpha`).
    Managed(String),
}

/// The core the app config asks for (`core`, default `mihomo`): for `system`
/// the configured `systemCorePath`, which must be set.
pub fn core_source(app_config: &Json) -> (r: Result<CoreSource, CoreError>)
    ensures
        cfg_text(app_config@, "core"@, "mihomo"@) == "system"@ ==> (match as_str(get(app_config@, "systemCorePath"@)) {
            Some(p) => if p.len() > 0 {
                r matches Ok(CoreSource::System(x)) && x@ == p
            } else {
                r matches Err(e) && e.kind == FailureKind::CoreMissing && e.detail@ == "no system core path is configured"@
            },
            None => r matches Err(e) && e.kind == FailureKind::CoreMissing && e.detail@ == "no system core path is configured"@,
        }),
        cfg_text(app_config@, "core"@, "mihomo"@) != "system"@ ==> (r matches Ok(CoreSource::Managed(x)) && x@ == cfg_text(
            app_config@,
            "core"@,
            "mihomo"@,
        )),
{
    let core = app_config_str(app_config, "core", "mihomo");
    if !str_eq(core.as_str(), "system") {
        return Ok(CoreSource::Managed(core));
    }
    match app_config.get("systemCorePath") {
        Some(v) => match v.as_str() {
            Some(p) => if !p.is_empty() {
                Ok(CoreSource::System(own(p)))
            } else {
                Err(CoreError::new(FailureKind::CoreMissing, own("no system core path is configured")))
            },
            None => Err(CoreError::new(FailureKind::CoreMissing, own("no system core path is configured"))),
        },
        None => Err(CoreError::new(FailureKind::CoreMissing, own("no system core path is configured"))),
    }
}

/// A configured system core must exist.
pub fn check_system_core(path: String, exists: bool) -> (r: Result<String, CoreError>)
    ensures
        exists ==> (r matches Ok(p) && p@ == path@),
        !exists ==> (r matches Err(e) && e.kind == FailureKind::CoreMissing && e.detail@ == path@
            + " does not exist"@),
{
    if exists {
        Ok(path)
    } else {
        let mut d = path;
        d.push_str(" does not exist");
        Err(CoreError::new(FailureKind::CoreMissing, d))
    }
}

/// Days the core keeps its logs: the app config's `maxLogDays` (cut to 32
/// bits), else 7.
pub fn max_log_days(app_config: &Json) -> (r: u32)
    ensures
        r == (match as_u64(get(app_config@, "maxLogDays"@)) {
            Some(d) => (d % 0x1_0000_0000) as u32,
            None => 7u32,
        }),
{
    match app_config.get("maxLogDays") {
        Some(v) => match v.as_u64() {
            Some(d) => (d % 0x1_0000_0000) as u32,
            None => 7,
        },
        None => 7,
    }
}

/// The controller secret of the runtime config, when set.
pub fn read_secret(config: Option<&Json>) -> (r: Option<String>)
    ensures
        match config {
            Some(c) => match as_str(get(c@, "secret"@)) {
                Some(s) => if s.len() > 0 {
                    r matches Some(x) && x@ == s
                } else {
                    r is None
                },
                None => r is None,
            },
            None => r is None,
        },
{
    match config {
        Some(c) => match c.get("secret") {
            Some(v) => match v.as_str() {
                Some(s) => if !s.is_empty() {
                    Some(own(s))
                } else {
                    None
                },
                None => None,
            },
            None => None,
        },
        None => None,
    }
}

/// Whether a process (by its `comm` name, when it could be read) is a core we
/// may stop: its name holds `mihomo`.
pub fn owned_by_us(comm: Option<&str>) -> (r: bool)
    ensures
        r == (match comm {
            Some(c) => contains(trim(c@), "mihomo"@),
            None => false,
        }),
{
    match comm {
        Some(c) => contains_str(trim_str(c).as_str(), "mihomo"),
        None => false,
    }
}

/// `dir` joined with the file name `name` the way a path push does it: a
/// separator in between unless `dir` is empty or already ends with one.
pub open spec fn path_join_v(dir: Seq<char>, name: Seq<char>, windows: bool) -> Seq<char> {
    if dir.len() == 0 || dir.last() == '/' || (windows && dir.last() == '\\') {
        dir + name
    } else {
        dir.push(if windows { '\\' } else { '/' }) + name
    }
}

/// Joins a directory and a file name.
pub fn path_join(dir: &str, name: &str, windows: bool) -> (r: String)
    ensures
        r@ == path_join_v(dir@, name@, windows),
{
    let cs = crate::text::to_chars(dir);
    let mut out = own(dir);
    if !(cs.len() == 0 || cs[cs.len() - 1] == '/' || (windows && cs[cs.len() - 1] == '\\')) {
        out.push(if windows { '\\' } else { '/' });
    }
    out.push_str(name);
    out
}

/// Where the spawned core's pid is recorded.
pub fn pid_file(data_dir: &str, windows: bool) -> (r: String)
    ensures
        r@ == path_join_v(data_dir@, "mihomo.pid"@, windows),
{
    path_join(data_dir, "mihomo.pid", windows)
}

/// Where the spawned core writes its log.
pub fn core_log_path(log_dir: &str, windows: bool) -> (r: String)
    ensures
        r@ == path_join_v(log_dir@, "mihomo.log"@, windows),
{
    path_join(log_dir, "mihomo.log", windows)
}

/// The pid a pid file records (its trimmed text as a `u32`).
pub fn parse_pid(text: &str) -> (r: Option<u32>)
    ensures
        match r {
            Some(p) => crate::keys::parse_uint(trim(text@), u32::MAX as int) == Some(p as int),
            None => crate::keys::parse_uint(trim(text@), u32::MAX as int) is None,
        },
{
    let t = trim_str(text);
    let cs = crate::text::to_chars(t.as_str());
    crate::keys::parse_uint_chars(cs.as_slice(), u32::MAX)
}

} // verus!
