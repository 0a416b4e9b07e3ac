//! Daemon control as a state machine: what the manager believes about the
//! agent process, and which command each request turns into. Running the
//! commands and sampling processes happens outside; the results come back
//! in through `observe` and the `finish_*` methods.

use vstd::prelude::*;
use crate::paths::{LAUNCHD_LABEL, LAUNCHD_PLIST, SYSTEMD_SERVICE};
use crate::text::{chars_of, contains, contains_chars, lower, push_str, to_lower, trim, trim_chars,
    string_of, joined, join_strings, views};

verus! {

/// What the manager believes the daemon is doing.
#[derive(Debug, Clone, Copy, PartialEq, Eq, Structural)]
pub enum DaemonState {
    Running,
    Stopped,
    Starting,
    Stopping,
    Crashed,
    Unknown,
}

impl DaemonState {
    /// The state's name, as shown to users.
    pub fn label(&self) -> (r: &'static str)
        ensures
            r@ == state_label(*self),
    {
        match self {
            DaemonState::Running => "Running",
            DaemonState::Stopped => "Stopped",
            DaemonState::Starting => "Starting",
            DaemonState::Stopping => "Stopping",
            DaemonState::Crashed => "Crashed",
            DaemonState::Unknown => "Unknown",
        }
    }
}

/// The name of a state.
pub open spec fn state_label(s: DaemonState) -> Seq<char> {
    match s {
        DaemonState::Running => "Running"@,
        DaemonState::Stopped => "Stopped"@,
        DaemonState::Starting => "Starting"@,
        DaemonState::Stopping => "Stopping"@,
        DaemonState::Crashed => "Crashed"@,
        DaemonState::Unknown => "Unknown"@,
    }
}

/// How the daemon is managed on this host.
#[derive(Debug, Clone, Copy, PartialEq, Eq, Structural)]
pub enum ServiceManager {
    /// systemd (Linux)
    Systemctl,
    /// launchd (macOS): the agent is a KeepAlive LaunchDaemon, so it must be
    /// stopped via launchctl; killing the process just gets it respawned.
    Launchctl,
    /// No service manager found; spawn/signal the process directly.
    Direct,
}

impl ServiceManager {
    /// "SYSTEMCTL", "LAUNCHCTL" or "DIRECT".
    pub fn name(&self) -> (r: &'static str)
        ensures
            r@ == manager_name(*self),
    {
        match self {
            ServiceManager::Systemctl => "SYSTEMCTL",
            ServiceManager::Launchctl => "LAUNCHCTL",
            ServiceManager::Direct => "DIRECT",
        }
    }
}

/// Which service manager runs the daemon: launchd on macOS when the
/// agent's LaunchDaemon plist is installed, systemd on Linux when
/// `systemctl` answers, else none (the process is handled directly).
pub open spec fn manager_for_spec(is_macos: bool, is_linux: bool, plist_exists: bool, has_systemctl: bool) -> ServiceManager {
    if is_macos && plist_exists {
        ServiceManager::Launchctl
    } else if is_linux && has_systemctl {
        ServiceManager::Systemctl
    } else {
        ServiceManager::Direct
    }
}

/// Executable `manager_for_spec`.
pub fn manager_for(is_macos: bool, is_linux: bool, plist_exists: bool, has_systemctl: bool) -> (r: ServiceManager)
    ensures
        r == manager_for_spec(is_macos, is_linux, plist_exists, has_systemctl),
{
    if is_macos && plist_exists {
        ServiceManager::Launchctl
    } else if is_linux && has_systemctl {
        ServiceManager::Systemctl
    } else {
        ServiceManager::Direct
    }
}

/// The name of a service manager.
pub open spec fn manager_name(m: ServiceManager) -> Seq<char> {
    match m {
        ServiceManager::Systemctl => "SYSTEMCTL"@,
        ServiceManager::Launchctl => "LAUNCHCTL"@,
        ServiceManager::Direct => "DIRECT"@,
    }
}

/// A process name, ASCII-lowercased.
pub open spec fn lowered(s: Seq<char>) -> Seq<char> {
    s.map_values(|c: char| lower(c))
}

/// Whether a process is the agent daemon: named `lsiagentd`, or any name
/// containing `lsiagent` (case ignored).
pub open spec fn is_daemon_name(name: Seq<char>) -> bool {
    lowered(name) == "lsiagentd"@ || contains(lowered(name), "lsiagent"@)
}

/// Executable `is_daemon_name`. Lowercasing is ASCII: on these two names it
/// agrees with Unicode lowercasing, since no other character lowercases to
/// a lone ASCII letter of them.
pub fn is_daemon_process(name: &str) -> (r: bool)
    ensures
        r == is_daemon_name(name@),
{
    let v = chars_of(name);
    let mut low: Vec<char> = Vec::new();
    let mut i: usize = 0;
    while i < v.len()
        invariant
            i <= v@.len(),
            v@ == name@,
            low@ == lowered(v@.take(i as int)),
        decreases v.len() - i,
    {
        low.push(to_lower(v[i]));
        i += 1;
        assert(low@ =~= lowered(v@.take(i as int)));
    }
    assert(v@.take(i as int) =~= v@);
    let exact = crate::text::seq_eq(&low, &chars_of("lsiagentd"));
    exact || contains_chars(&low, &chars_of("lsiagent"))
}

/// A command the daemon manager wants run.
#[derive(Debug)]
pub enum DaemonCommand {
    /// Run a program with arguments and check that it succeeds.
    Run { program: String, args: Vec<String> },
    /// Spawn the daemon binary directly.
    Spawn { path: String },
    /// Send SIGTERM to a process.
    Terminate { pid: u32 },
}

/// The contents of a `DaemonCommand`.
pub enum CommandView {
    Run { program: Seq<char>, args: Seq<Seq<char>> },
    Spawn { path: Seq<char> },
    Terminate { pid: u32 },
}

impl View for DaemonCommand {
    type V = CommandView;

    open spec fn view(&self) -> CommandView {
        match self {
            DaemonCommand::Run { program, args } => CommandView::Run {
                program: program@,
                args: views(args@),
            },
            DaemonCommand::Spawn { path } => CommandView::Spawn { path: path@ },
            DaemonCommand::Terminate { pid } => CommandView::Terminate { pid: *pid },
        }
    }
}

/// `system/<label>`: the launchd service target.
pub open spec fn launchd_target() -> Seq<char> {
    "system/"@ + LAUNCHD_LABEL@
}

/// The command that starts the daemon.
pub open spec fn start_command(m: ServiceManager, job_loaded: bool, binary: Seq<char>) -> CommandView {
    match m {
        ServiceManager::Systemctl => CommandView::Run {
            program: "systemctl"@,
            args: seq!["start"@, SYSTEMD_SERVICE@],
        },
        ServiceManager::Launchctl => if job_loaded {
            CommandView::Run { program: "launchctl"@, args: seq!["kickstart"@, launchd_target()] }
        } else {
            CommandView::Run {
                program: "launchctl"@,
                args: seq!["bootstrap"@, "system"@, LAUNCHD_PLIST@],
            }
        },
        ServiceManager::Direct => CommandView::Spawn { path: binary },
    }
}

/// The command that stops the daemon, if there is one: direct management
/// needs a known pid.
pub open spec fn stop_command(m: ServiceManager, pid: Option<u32>) -> Option<CommandView> {
    match m {
        ServiceManager::Systemctl => Some(
            CommandView::Run { program: "systemctl"@, args: seq!["stop"@, SYSTEMD_SERVICE@] },
        ),
        ServiceManager::Launchctl => Some(
            CommandView::Run { program: "launchctl"@, args: seq!["bootout"@, launchd_target()] },
        ),
        ServiceManager::Direct => match pid {
            Some(p) => Some(CommandView::Terminate { pid: p }),
            None => None,
        },
    }
}

/// The single command that restarts the daemon under a service manager;
/// None under direct management (stop, then start).
pub open spec fn restart_command(m: ServiceManager, job_loaded: bool) -> Option<CommandView> {
    match m {
        ServiceManager::Systemctl => Some(
            CommandView::Run { program: "systemctl"@, args: seq!["restart"@, SYSTEMD_SERVICE@] },
        ),
        ServiceManager::Launchctl => Some(
            if job_loaded {
                CommandView::Run {
                    program: "launchctl"@,
                    args: seq!["kickstart"@, "-k"@, launchd_target()],
                }
            } else {
                CommandView::Run {
                    program: "launchctl"@,
                    args: seq!["bootstrap"@, "system"@, LAUNCHD_PLIST@],
                }
            },
        ),
        ServiceManager::Direct => None,
    }
}

/// The first argument of a `Run` command (its verb), if any.
pub open spec fn verb(c: CommandView) -> Option<Seq<char>> {
    match c {
        CommandView::Run { args, .. } => if args.len() > 0 {
            Some(args[0])
        } else {
            None
        },
        _ => None,
    }
}

/// The program of a `Run` command, if it is one.
pub open spec fn program_of(c: CommandView) -> Option<Seq<char>> {
    match c {
        CommandView::Run { program, .. } => Some(program),
        _ => None,
    }
}

/// What the daemon commands do under each service manager: systemd is
/// told to `start`, `stop` or `restart` the agent's unit; launchd stops it
/// with `bootout`, which no start or restart command uses; directly, a stop
/// signals the known pid and a start spawns the binary. Stopping is never
/// the same command as starting or restarting.
pub proof fn lemma_command_verbs(pid: Option<u32>, job_loaded: bool, binary: Seq<char>)
    ensures
        stop_command(ServiceManager::Systemctl, pid) == Some(
            CommandView::Run { program: "systemctl"@, args: seq!["stop"@, "lsiagent"@] },
        ),
        verb(stop_command(ServiceManager::Systemctl, pid)->0) == Some("stop"@),
        program_of(start_command(ServiceManager::Systemctl, job_loaded, binary)) == Some(
            "systemctl"@,
        ) && verb(start_command(ServiceManager::Systemctl, job_loaded, binary)) == Some("start"@),
        restart_command(ServiceManager::Systemctl, job_loaded) is Some,
        program_of(restart_command(ServiceManager::Systemctl, job_loaded)->0) == Some("systemctl"@),
        verb(restart_command(ServiceManager::Systemctl, job_loaded)->0) == Some("restart"@),
        stop_command(ServiceManager::Launchctl, pid) is Some,
        program_of(stop_command(ServiceManager::Launchctl, pid)->0) == Some("launchctl"@),
        verb(stop_command(ServiceManager::Launchctl, pid)->0) == Some("bootout"@),
        verb(start_command(ServiceManager::Launchctl, job_loaded, binary)) != Some("bootout"@),
        restart_command(ServiceManager::Launchctl, job_loaded) is Some,
        verb(restart_command(ServiceManager::Launchctl, job_loaded)->0) != Some("bootout"@),
        stop_command(ServiceManager::Direct, pid) == match pid {
            Some(p) => Some(CommandView::Terminate { pid: p }),
            None => None::<CommandView>,
        },
        start_command(ServiceManager::Direct, job_loaded, binary) == (CommandView::Spawn {
            path: binary,
        }),
        forall|m: ServiceManager|
            #[trigger] stop_command(m, pid) is Some ==> stop_command(m, pid)->0 != start_command(
                m,
                job_loaded,
                binary,
            ) && restart_command(m, job_loaded) != stop_command(m, pid),
{
    reveal_strlit("stop");
    reveal_strlit("start");
    reveal_strlit("restart");
    reveal_strlit("bootout");
    reveal_strlit("kickstart");
    reveal_strlit("bootstrap");
    reveal_strlit("lsiagent");
    assert(SYSTEMD_SERVICE@ == "lsiagent"@);
    assert("stop"@ != "start"@) by {
        assert("stop"@[2] != "start"@[2]);
    }
    assert("stop"@ != "restart"@) by {
        assert("stop"@.len() != "restart"@.len());
    }
    assert("bootout"@ != "kickstart"@) by {
        assert("bootout"@.len() != "kickstart"@.len());
    }
    assert("bootout"@ != "bootstrap"@) by {
        assert("bootout"@.len() != "bootstrap"@.len());
    }
}

fn strings2(a: &str, b: &str) -> (r: Vec<String>)
    ensures
        views(r@) == seq![a@, b@],
{
    let mut v: Vec<String> = Vec::new();
    v.push(String::from_str(a));
    v.push(String::from_str(b));
    assert(views(v@) =~= seq![a@, b@]);
    v
}

fn strings3(a: &str, b: &str, c: &str) -> (r: Vec<String>)
    ensures
        views(r@) == seq![a@, b@, c@],
{
    let mut v: Vec<String> = Vec::new();
    v.push(String::from_str(a));
    v.push(String::from_str(b));
    v.push(String::from_str(c));
    assert(views(v@) =~= seq![a@, b@, c@]);
    v
}

fn args_ending(first: Vec<String>, last: String) -> (r: Vec<String>)
    ensures
        views(r@) == views(first@).push(last@),
{
    let mut v = first;
    let ghost before = views(v@);
    v.push(last);
    assert(views(v@) =~= before.push(last@));
    v
}

fn one(a: &str) -> (r: Vec<String>)
    ensures
        views(r@) == seq![a@],
{
    let mut v: Vec<String> = Vec::new();
    v.push(String::from_str(a));
    assert(views(v@) =~= seq![a@]);
    v
}

fn launchd_target_string() -> (r: String)
    ensures
        r@ == launchd_target(),
{
    let mut s = String::from_str("system/");
    push_str(&mut s, LAUNCHD_LABEL);
    s
}

fn run(program: &str, args: Vec<String>) -> (r: DaemonCommand)
    ensures
        r@ == (CommandView::Run { program: program@, args: views(args@) }),
{
    DaemonCommand::Run { program: String::from_str(program), args }
}

/// What the manager knows of the daemon.
pub struct DaemonControl {
    pub manager: ServiceManager,
    pub state: DaemonState,
    pub pid: Option<u32>,
}

impl DaemonControl {
    /// A manager that has not looked yet.
    pub fn new(manager: ServiceManager) -> (r: Self)
        ensures
            r.manager == manager,
            r.state == DaemonState::Unknown,
            r.pid is None,
    {
        DaemonControl { manager, state: DaemonState::Unknown, pid: None }
    }

    /// Take in a process scan: the pid of the daemon process if one was
    /// found, and whether its details could then be read. Found and readable
    /// is Running, found but gone is Crashed, not found is Stopped.
    pub fn observe(&mut self, found: Option<u32>, readable: bool)
        ensures
            final(self).manager == old(self).manager,
            final(self).pid == found,
            final(self).state == match found {
                Some(_) => if readable {
                    DaemonState::Running
                } else {
                    DaemonState::Crashed
                },
                None => DaemonState::Stopped,
            },
    {
        self.pid = found;
        self.state = match found {
            Some(_) => if readable {
                DaemonState::Running
            } else {
                DaemonState::Crashed
            },
            None => DaemonState::Stopped,
        };
    }

    /// Ask to start the daemon. A running daemon is refused and nothing
    /// changes; otherwise the state becomes Starting and the command to run
    /// comes back. `binary` is the daemon binary, for direct management.
    pub fn begin_start(&mut self, job_loaded: bool, binary: &str) -> (r: Result<DaemonCommand, String>)
        ensures
            final(self).manager == old(self).manager,
            final(self).pid == old(self).pid,
            old(self).state == DaemonState::Running ==> {
                &&& final(self).state == old(self).state
                &&& r matches Err(m) && m@ == "Daemon is already running"@
            },
            old(self).state != DaemonState::Running ==> {
                &&& final(self).state == DaemonState::Starting
                &&& r matches Ok(c) && c@ == start_command(old(self).manager, job_loaded, binary@)
            },
    {
        if self.state == DaemonState::Running {
            return Err(String::from_str("Daemon is already running"));
        }
        self.state = DaemonState::Starting;
        let c = match self.manager {
            ServiceManager::Systemctl => run("systemctl", strings2("start", SYSTEMD_SERVICE)),
            ServiceManager::Launchctl => if job_loaded {
                let args = args_ending(one("kickstart"), launchd_target_string());
                assert(views(args@) =~= seq!["kickstart"@, launchd_target()]);
                run("launchctl", args)
            } else {
                run("launchctl", strings3("bootstrap", "system", LAUNCHD_PLIST))
            },
            ServiceManager::Direct => DaemonCommand::Spawn { path: String::from_str(binary) },
        };
        Ok(c)
    }

    /// The start command finished: on failure the daemon is Stopped; a
    /// direct spawn records the child's pid.
    pub fn finish_start(&mut self, outcome: Result<Option<u32>, ()>)
        ensures
            final(self).manager == old(self).manager,
            outcome is Err ==> final(self).state == DaemonState::Stopped && final(self).pid
                == old(self).pid,
            outcome matches Ok(Some(p)) ==> final(self).state == old(self).state
                && final(self).pid == Some(p),
            outcome matches Ok(None) ==> final(self).state == old(self).state && final(self).pid
                == old(self).pid,
    {
        match outcome {
            Err(_) => {
                self.state = DaemonState::Stopped;
            },
            Ok(Some(p)) => {
                self.pid = Some(p);
            },
            Ok(None) => {},
        }
    }

    /// Ask to stop the daemon: the state becomes Stopping and the command
    /// to run comes back; under direct management with no known pid there
    /// is none.
    pub fn begin_stop(&mut self) -> (r: Result<DaemonCommand, String>)
        ensures
            final(self).manager == old(self).manager,
            final(self).pid == old(self).pid,
            final(self).state == DaemonState::Stopping,
            match stop_command(old(self).manager, old(self).pid) {
                Some(c) => r matches Ok(d) && d@ == c,
                None => r matches Err(m) && m@ == "No daemon process running"@,
            },
    {
        self.state = DaemonState::Stopping;
        match self.manager {
            ServiceManager::Systemctl => Ok(run("systemctl", strings2("stop", SYSTEMD_SERVICE))),
            ServiceManager::Launchctl => {
                let args = args_ending(one("bootout"), launchd_target_string());
                assert(views(args@) =~= seq!["bootout"@, launchd_target()]);
                Ok(run("launchctl", args))
            },
            ServiceManager::Direct => match self.pid {
                Some(p) => Ok(DaemonCommand::Terminate { pid: p }),
                None => Err(String::from_str("No daemon process running")),
            },
        }
    }

    /// The stop command finished: on failure the daemon is taken to be
    /// Running still.
    pub fn finish_stop(&mut self, ok: bool)
        ensures
            final(self).manager == old(self).manager,
            final(self).pid == old(self).pid,
            ok ==> final(self).state == old(self).state,
            !ok ==> final(self).state == DaemonState::Running,
    {
        if !ok {
            self.state = DaemonState::Running;
        }
    }

    /// The one command that restarts the daemon under a service manager;
    /// None under direct management, where a restart is a stop, a pause
    /// and a start.
    pub fn restart_command(&self, job_loaded: bool) -> (r: Option<DaemonCommand>)
        ensures
            match restart_command(self.manager, job_loaded) {
                Some(c) => r matches Some(d) && d@ == c,
                None => r is None,
            },
    {
        match self.manager {
            ServiceManager::Systemctl => Some(run("systemctl", strings2("restart", SYSTEMD_SERVICE))),
            ServiceManager::Launchctl => if job_loaded {
                let args = args_ending(strings2("kickstart", "-k"), launchd_target_string());
                assert(views(args@) =~= seq!["kickstart"@, "-k"@, launchd_target()]);
                Some(run("launchctl", args))
            } else {
                Some(run("launchctl", strings3("bootstrap", "system", LAUNCHD_PLIST)))
            },
            ServiceManager::Direct => None,
        }
    }
}

/// The message of a command that ran and failed: the command line, its
/// trimmed stderr, and a hint when not root.
pub open spec fn failure_message(
    program: Seq<char>,
    args: Seq<Seq<char>>,
    stderr: Seq<char>,
    as_root: bool,
) -> Seq<char> {
    program + " "@ + joined(args, " "@) + " failed: "@ + trim(stderr) + if as_root {
        Seq::<char>::empty()
    } else {
        " (not running as root — try sudo)"@
    }
}

/// Executable `failure_message`.
pub fn command_failure(program: &str, args: &Vec<String>, stderr: &str, as_root: bool) -> (r: String)
    ensures
        r@ == failure_message(program@, views(args@), stderr@, as_root),
{
    let mut s = String::from_str(program);
    push_str(&mut s, " ");
    let a = join_strings(args, " ");
    push_str(&mut s, a.as_str());
    push_str(&mut s, " failed: ");
    let t = string_of(&trim_chars(&chars_of(stderr)));
    push_str(&mut s, t.as_str());
    if !as_root {
        push_str(&mut s, " (not running as root — try sudo)");
    }
    assert(s@ =~= failure_message(program@, views(args@), stderr@, as_root));
    s
}

} // verus!
