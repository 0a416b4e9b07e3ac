//! Generic service registration for the agent: systemd units, launchd
//! plists and Windows service entries, and how each manager's status output
//! reads.

use vstd::prelude::*;
use crate::num::{decimal, push_decimal};
use crate::text::{
    chars_of, contains, contains_chars, push_char, push_str, seq_eq, trim, trim_bounds,
};

verus! {

/// The state a service manager reports.
#[derive(Debug, Clone, Copy, PartialEq, Eq, Structural)]
pub enum ServiceStatus {
    Running,
    Stopped,
    Unknown,
}

impl ServiceStatus {
    /// `Running`, `Stopped` or `Unknown`.
    pub fn label(&self) -> (r: &'static str)
        ensures
            r@ == match *self {
                ServiceStatus::Running => "Running"@,
                ServiceStatus::Stopped => "Stopped"@,
                ServiceStatus::Unknown => "Unknown"@,
            },
    {
        match self {
            ServiceStatus::Running => "Running",
            ServiceStatus::Stopped => "Stopped",
            ServiceStatus::Unknown => "Unknown",
        }
    }
}

/// How to run the agent as a service.
#[derive(Debug)]
pub struct ServiceConfig {
    pub service_name: String,
    pub executable_path: String,
    pub args: Vec<String>,
    pub working_directory: Option<String>,
    /// Delay before a restart, in seconds.
    pub restart_delay_secs: u64,
    pub max_restarts: u32,
}

impl Default for ServiceConfig {
    /// `agent_service`, no executable or arguments, restart after 5 s, at
    /// most 3 restarts.
    fn default() -> (r: Self)
        ensures
            r.service_name@ == "agent_service"@,
            r.executable_path@.len() == 0,
            r.args@.len() == 0,
            r.working_directory is None,
            r.restart_delay_secs == 5,
            r.max_restarts == 3,
    {
        ServiceConfig {
            service_name: String::from_str("agent_service"),
            executable_path: String::new(),
            args: Vec::new(),
            working_directory: None,
            restart_delay_secs: 5,
            max_restarts: 3,
        }
    }
}

/// `parts` joined by single spaces.
pub open spec fn join_spaces(parts: Seq<Seq<char>>) -> Seq<char>
    decreases parts.len(),
{
    if parts.len() == 0 {
        Seq::<char>::empty()
    } else if parts.len() == 1 {
        parts[0]
    } else {
        join_spaces(parts.drop_last()) + seq![' '] + parts.last()
    }
}

fn push_joined(s: &mut String, parts: &Vec<String>)
    ensures
        final(s)@ == old(s)@ + join_spaces(parts@.map_values(|p: String| p@)),
{
    let ghost pv = parts@.map_values(|p: String| p@);
    let ghost start = s@;
    let mut i: usize = 0;
    assert(pv.take(0) =~= Seq::<Seq<char>>::empty());
    assert(start + join_spaces(Seq::<Seq<char>>::empty()) =~= start);
    while i < parts.len()
        invariant
            pv == parts@.map_values(|p: String| p@),
            i <= pv.len(),
            s@ == start + join_spaces(pv.take(i as int)),
        decreases parts.len() - i,
    {
        let ghost before = s@;
        if i > 0 {
            push_char(s, ' ');
        }
        push_str(s, parts[i].as_str());
        proof {
            let t = pv.take(i + 1);
            assert(t.drop_last() =~= pv.take(i as int));
            assert(t.last() == parts@[i as int]@);
            if i == 0 {
                assert(t =~= seq![parts@[0]@]);
            }
            assert(s@ =~= start + join_spaces(t));
        }
        i += 1;
    }
    assert(pv.take(pv.len() as int) =~= pv);
}

/// The working directory, or `.`.
pub open spec fn work_dir(c: ServiceConfig) -> Seq<char> {
    match c.working_directory {
        Some(d) => d@,
        None => "."@,
    }
}

/// A systemd unit for the service.
pub open spec fn unit_file_spec(c: ServiceConfig) -> Seq<char> {
    "[Unit]\nDescription=Agent Service - "@ + c.service_name@ + "\nAfter=network.target\n\n[Service]\nType=simple\nExecStart="@
        + c.executable_path@ + " "@ + join_spaces(c.args@.map_values(|p: String| p@))
        + "\nWorkingDirectory="@ + work_dir(c) + "\nRestart=on-failure\nRestartSec="@ + decimal(
        c.restart_delay_secs as nat,
    ) + "\nStandardOutput=journal\nStandardError=journal\n\n[Install]\nWantedBy=multi-user.target\n"@
}

/// Linux service management through systemd.
pub struct LinuxServiceManager {
    pub config: ServiceConfig,
    pub service_file_path: String,
}

impl LinuxServiceManager {
    /// A manager whose unit lives at `/etc/systemd/system/<name>.service`.
    pub fn new(config: ServiceConfig) -> (r: Self)
        ensures
            r.service_file_path@ == "/etc/systemd/system/"@ + config.service_name@ + ".service"@,
            r.config == config,
    {
        let mut p = String::from_str("/etc/systemd/system/");
        push_str(&mut p, config.service_name.as_str());
        push_str(&mut p, ".service");
        LinuxServiceManager { config, service_file_path: p }
    }

    /// `<name>.service`, the unit name systemctl is given.
    pub fn unit_name(&self) -> (r: String)
        ensures
            r@ == self.config.service_name@ + ".service"@,
    {
        let mut s = String::from_str(self.config.service_name.as_str());
        push_str(&mut s, ".service");
        s
    }

    /// The unit file `create_service_file` writes.
    pub fn unit_file(&self) -> (r: String)
        ensures
            r@ == unit_file_spec(self.config),
    {
        let c = &self.config;
        let mut s = String::from_str("[Unit]\nDescription=Agent Service - ");
        push_str(&mut s, c.service_name.as_str());
        push_str(&mut s, "\nAfter=network.target\n\n[Service]\nType=simple\nExecStart=");
        push_str(&mut s, c.executable_path.as_str());
        push_str(&mut s, " ");
        push_joined(&mut s, &c.args);
        push_str(&mut s, "\nWorkingDirectory=");
        match &c.working_directory {
            Some(d) => push_str(&mut s, d.as_str()),
            None => push_str(&mut s, "."),
        }
        push_str(&mut s, "\nRestart=on-failure\nRestartSec=");
        push_decimal(&mut s, c.restart_delay_secs);
        push_str(
            &mut s,
            "\nStandardOutput=journal\nStandardError=journal\n\n[Install]\nWantedBy=multi-user.target\n",
        );
        s
    }
}

/// `systemctl is-active` output: `active` is running, `inactive` and
/// `failed` are stopped, anything else is unknown (surrounding whitespace
/// ignored).
pub open spec fn systemd_status_spec(out: Seq<char>) -> ServiceStatus {
    let t = trim(out);
    if t == "active"@ {
        ServiceStatus::Running
    } else if t == "inactive"@ || t == "failed"@ {
        ServiceStatus::Stopped
    } else {
        ServiceStatus::Unknown
    }
}

/// The status `systemctl is-active` reports.
pub fn systemd_status(out: &str) -> (r: ServiceStatus)
    ensures
        r == systemd_status_spec(out@),
{
    let v = chars_of(out);
    let (a, b) = trim_bounds(&v, 0, v.len());
    assert(v@.subrange(0, v@.len() as int) =~= v@);
    let mut t: Vec<char> = Vec::new();
    let mut i = a;
    while i < b
        invariant
            a <= i <= b <= v@.len(),
            t@ == v@.subrange(a as int, i as int),
        decreases b - i,
    {
        t.push(v[i]);
        i += 1;
    }
    if seq_eq(&t, &chars_of("active")) {
        ServiceStatus::Running
    } else if seq_eq(&t, &chars_of("inactive")) || seq_eq(&t, &chars_of("failed")) {
        ServiceStatus::Stopped
    } else {
        ServiceStatus::Unknown
    }
}

/// Windows `sc` binPath: the quoted executable and its arguments.
pub open spec fn binpath_spec(c: ServiceConfig) -> Seq<char> {
    "\""@ + c.executable_path@ + (if c.args@.len() == 0 {
        Seq::<char>::empty()
    } else {
        " "@ + join_spaces(c.args@.map_values(|p: String| p@))
    }) + "\""@
}

/// Windows service management through the Service Control Manager.
pub struct WindowsServiceManager {
    pub config: ServiceConfig,
}

impl WindowsServiceManager {
    /// A manager for `config`.
    pub fn new(config: ServiceConfig) -> (r: Self)
        ensures
            r.config == config,
    {
        WindowsServiceManager { config }
    }

    /// The `binPath=` value for `sc create`.
    pub fn binpath(&self) -> (r: String)
        ensures
            r@ == binpath_spec(self.config),
    {
        let c = &self.config;
        let mut s = String::from_str("\"");
        push_str(&mut s, c.executable_path.as_str());
        if c.args.len() > 0 {
            push_str(&mut s, " ");
            push_joined(&mut s, &c.args);
        }
        push_str(&mut s, "\"");
        proof {
            if c.args@.len() == 0 {
                assert(s@ =~= binpath_spec(self.config));
            }
        }
        s
    }

    /// The description `sc description` sets.
    pub fn description(&self) -> (r: String)
        ensures
            r@ == "Agent Service - "@ + self.config.service_name@,
    {
        let mut s = String::from_str("Agent Service - ");
        push_str(&mut s, self.config.service_name.as_str());
        s
    }
}

/// `sc query` output: a missing service (error 1060) is unknown; RUNNING is
/// running; STOPPED is stopped; anything else is unknown.
pub open spec fn sc_status_spec(out: Seq<char>) -> ServiceStatus {
    if contains(out, "1060"@) || contains(out, "The specified service does not exist"@) {
        ServiceStatus::Unknown
    } else if contains(out, "RUNNING"@) {
        ServiceStatus::Running
    } else if contains(out, "STOPPED"@) {
        ServiceStatus::Stopped
    } else {
        ServiceStatus::Unknown
    }
}

/// The status `sc query` reports.
pub fn sc_status(out: &str) -> (r: ServiceStatus)
    ensures
        r == sc_status_spec(out@),
{
    let v = chars_of(out);
    if contains_chars(&v, &chars_of("1060")) || contains_chars(
        &v,
        &chars_of("The specified service does not exist"),
    ) {
        ServiceStatus::Unknown
    } else if contains_chars(&v, &chars_of("RUNNING")) {
        ServiceStatus::Running
    } else if contains_chars(&v, &chars_of("STOPPED")) {
        ServiceStatus::Stopped
    } else {
        ServiceStatus::Unknown
    }
}

/// `<home>/Library/LaunchDaemons/com.lakesidesoftware.lsiagentd.plist`.
pub open spec fn default_plist_path(home: Seq<char>) -> Seq<char> {
    home + "/Library/LaunchDaemons/com.lakesidesoftware.lsiagentd.plist"@
}

/// macOS service management through launchd and the agent's control tool.
pub struct MacOSServiceManager {
    pub config: ServiceConfig,
    pub plist_path: String,
    pub ctl_path: String,
}

impl MacOSServiceManager {
    /// A manager using the plist under `home` (the current directory when
    /// there is no home directory).
    pub fn new(config: ServiceConfig, home: Option<&str>) -> (r: Self)
        ensures
            r.config == config,
            r.plist_path@ == default_plist_path(
                match home {
                    Some(h) => h@,
                    None => "."@,
                },
            ),
            r.ctl_path@ == "/Library/Application Support/Lakeside Software/lsiagentctl"@,
    {
        let mut p = match home {
            Some(h) => String::from_str(h),
            None => String::from_str("."),
        };
        push_str(&mut p, "/Library/LaunchDaemons/com.lakesidesoftware.lsiagentd.plist");
        MacOSServiceManager {
            config,
            plist_path: p,
            ctl_path: String::from_str(
                "/Library/Application Support/Lakeside Software/lsiagentctl",
            ),
        }
    }

    /// The `launchctl` arguments that load the service.
    pub fn load_service(&self) -> (r: Vec<String>)
        ensures
            r@.map_values(|s: String| s@) == seq!["load"@, "-w"@, self.plist_path@],
    {
        let mut v = Vec::new();
        v.push(String::from_str("load"));
        v.push(String::from_str("-w"));
        v.push(self.plist_path.clone());
        assert(v@.map_values(|s: String| s@) =~= seq!["load"@, "-w"@, self.plist_path@]);
        v
    }

    /// The `launchctl` arguments that unload the service.
    pub fn unload_service(&self) -> (r: Vec<String>)
        ensures
            r@.map_values(|s: String| s@) == seq!["unload"@, "-w"@, self.plist_path@],
    {
        let mut v = Vec::new();
        v.push(String::from_str("unload"));
        v.push(String::from_str("-w"));
        v.push(self.plist_path.clone());
        assert(v@.map_values(|s: String| s@) =~= seq!["unload"@, "-w"@, self.plist_path@]);
        v
    }
}

/// One entry of a plist's program arguments.
pub open spec fn plist_arg(a: Seq<char>) -> Seq<char> {
    "\t\t<string>"@ + a + "</string>"@
}

/// The program arguments of a plist: the executable, then the arguments,
/// one entry per line.
pub open spec fn plist_args(c: ServiceConfig) -> Seq<char> {
    crate::text::joined(
        seq![c.executable_path@].add(c.args@.map_values(|p: String| p@)).map_values(
            |a: Seq<char>| plist_arg(a),
        ),
        "\n"@,
    )
}

/// A launchd plist for the service, logging under `home`.
pub open spec fn plist_spec(c: ServiceConfig, home: Seq<char>) -> Seq<char> {
    "<?xml version=\"1.0\" encoding=\"UTF-8\"?>\n<!DOCTYPE plist PUBLIC \"-//Apple//DTD PLIST 1.0//EN\" \"http://www.apple.com/DTDs/PropertyList-1.0.dtd\">\n<plist version=\"1.0\">\n<dict>\n    <key>Label</key>\n    <string>com."@
        + c.service_name@ + "</string>\n    <key>ProgramArguments</key>\n    <array>\n"@ + plist_args(c)
        + "\n    </array>\n    <key>WorkingDirectory</key>\n    <string>"@ + work_dir(c)
        + "</string>\n    <key>RunAtLoad</key>\n    <true/>\n    <key>KeepAlive</key>\n    <true/>\n    <key>StandardOutPath</key>\n    <string>"@
        + home + "/Library/Logs/"@ + c.service_name@ + ".log</string>\n    <key>StandardErrorPath</key>\n    <string>"@
        + home + "/Library/Logs/"@ + c.service_name@ + ".err.log</string>\n</dict>\n</plist>"@
}

impl MacOSServiceManager {
    /// The plist that registers the service (see `plist_spec`).
    pub fn plist_file(&self, home: &str) -> (r: String)
        ensures
            r@ == plist_spec(self.config, home@),
    {
        let c = &self.config;
        let ghost all = seq![c.executable_path@].add(c.args@.map_values(|p: String| p@));
        let mut entries: Vec<String> = Vec::new();
        let mut e = String::from_str("\t\t<string>");
        push_str(&mut e, c.executable_path.as_str());
        push_str(&mut e, "</string>");
        entries.push(e);
        let mut i: usize = 0;
        while i < c.args.len()
            invariant
                all == seq![c.executable_path@].add(c.args@.map_values(|p: String| p@)),
                i <= c.args@.len(),
                crate::text::views(entries@) == all.take(i + 1).map_values(|a: Seq<char>| plist_arg(a)),
            decreases c.args.len() - i,
        {
            let mut e = String::from_str("\t\t<string>");
            push_str(&mut e, c.args[i].as_str());
            push_str(&mut e, "</string>");
            let ghost before = crate::text::views(entries@);
            assert(e@ == plist_arg(c.args@[i as int]@));
            entries.push(e);
            assert(crate::text::views(entries@) =~= before.push(plist_arg(c.args@[i as int]@)));
            assert(all[i + 1] == c.args@[i as int]@);
            assert(all.take(i + 2) =~= all.take(i + 1).push(all[i + 1]));
            assert(all.take(i + 2).map_values(|a: Seq<char>| plist_arg(a)) =~= all.take(i + 1).map_values(
                |a: Seq<char>| plist_arg(a),
            ).push(plist_arg(all[i + 1])));
            assert(crate::text::views(entries@) =~= all.take(i + 2).map_values(|a: Seq<char>| plist_arg(a)));
            i += 1;
        }
        assert(all.take(i + 1) =~= all);
        let args = crate::text::join_strings(&entries, "\n");
        let mut s = String::from_str(
            "<?xml version=\"1.0\" encoding=\"UTF-8\"?>\n<!DOCTYPE plist PUBLIC \"-//Apple//DTD PLIST 1.0//EN\" \"http://www.apple.com/DTDs/PropertyList-1.0.dtd\">\n<plist version=\"1.0\">\n<dict>\n    <key>Label</key>\n    <string>com.",
        );
        push_str(&mut s, c.service_name.as_str());
        push_str(&mut s, "</string>\n    <key>ProgramArguments</key>\n    <array>\n");
        push_str(&mut s, args.as_str());
        push_str(&mut s, "\n    </array>\n    <key>WorkingDirectory</key>\n    <string>");
        match &c.working_directory {
            Some(d) => push_str(&mut s, d.as_str()),
            None => push_str(&mut s, "."),
        }
        push_str(
            &mut s,
            "</string>\n    <key>RunAtLoad</key>\n    <true/>\n    <key>KeepAlive</key>\n    <true/>\n    <key>StandardOutPath</key>\n    <string>",
        );
        push_str(&mut s, home);
        push_str(&mut s, "/Library/Logs/");
        push_str(&mut s, c.service_name.as_str());
        push_str(&mut s, ".log</string>\n    <key>StandardErrorPath</key>\n    <string>");
        push_str(&mut s, home);
        push_str(&mut s, "/Library/Logs/");
        push_str(&mut s, c.service_name.as_str());
        push_str(&mut s, ".err.log</string>\n</dict>\n</plist>");
        s
    }

    /// Where a reconfigured service's plist goes:
    /// `<home>/Library/LaunchDaemons/com.<name>.plist`.
    pub fn config_plist_path(home: &str, service_name: &str) -> (r: String)
        ensures
            r@ == home@ + "/Library/LaunchDaemons/com."@ + service_name@ + ".plist"@,
    {
        let mut p = String::from_str(home);
        push_str(&mut p, "/Library/LaunchDaemons/com.");
        push_str(&mut p, service_name);
        push_str(&mut p, ".plist");
        p
    }
}

/// The agent control tool's `status` output: "running" anywhere means
/// running; otherwise an installed plist means stopped; else unknown.
pub open spec fn launchd_status_spec(out: Seq<char>, plist_exists: bool) -> ServiceStatus {
    if contains(out, "running"@) {
        ServiceStatus::Running
    } else if plist_exists {
        ServiceStatus::Stopped
    } else {
        ServiceStatus::Unknown
    }
}

/// The status the control tool's output and the plist's presence give.
pub fn launchd_status(out: &str, plist_exists: bool) -> (r: ServiceStatus)
    ensures
        r == launchd_status_spec(out@, plist_exists),
{
    if contains_chars(&chars_of(out), &chars_of("running")) {
        ServiceStatus::Running
    } else if plist_exists {
        ServiceStatus::Stopped
    } else {
        ServiceStatus::Unknown
    }
}

} // verus!
