//! Platform facts about the LSI (SysTrack) agent installation: where it
//! lives, which logs it writes and where crash reports land.
//!
//! Paths are plain `/`-separated strings; the platform is a parameter so the
//! macOS and Linux layouts can both be checked on any host.

use vstd::prelude::*;
use vstd::multiset::Multiset;
use crate::num::{decimal, push_decimal};
use crate::text::{
    chars_of, lemma_text_lt_irrefl, lemma_text_lt_trans, matches_at, push_char, push_range,
    push_str, seq_eq, string_of, text_less, text_lt,
};

verus! {

/// launchd label for the macOS daemon (LaunchDaemon, system domain).
pub const LAUNCHD_LABEL: &'static str = "com.lakesidesoftware.lsiagentd";

/// Installed launchd plist on macOS.
pub const LAUNCHD_PLIST: &'static str = "/Library/LaunchDaemons/com.lakesidesoftware.lsiagentd.plist";

/// systemd service name on Linux.
pub const SYSTEMD_SERVICE: &'static str = "lsiagent";

/// Process name to look for.
pub const DAEMON_PROCESS_NAME: &'static str = "lsiagentd";

/// The two agent platforms, which lay the install out differently.
#[derive(Debug, Clone, Copy, PartialEq, Eq, Structural)]
pub enum Platform {
    MacOs,
    Linux,
}

/// `a/b`.
pub open spec fn join(a: Seq<char>, b: Seq<char>) -> Seq<char> {
    a + seq!['/'] + b
}

fn join_str(a: &str, b: &str) -> (r: String)
    ensures
        r@ == join(a@, b@),
{
    let mut s = String::new();
    push_str(&mut s, a);
    push_char(&mut s, '/');
    push_str(&mut s, b);
    assert(s@ =~= join(a@, b@));
    s
}

/// Agent runtime base directory.
pub open spec fn base_dir_spec(p: Platform) -> Seq<char> {
    match p {
        Platform::MacOs => "/Library/Application Support/Lakeside Software"@,
        Platform::Linux => "/var/opt/lsiagent"@,
    }
}

/// Agent runtime base directory (`<base>` in the agent docs).
pub fn base_dir(p: Platform) -> (r: String)
    ensures
        r@ == base_dir_spec(p),
{
    match p {
        Platform::MacOs => String::from_str("/Library/Application Support/Lakeside Software"),
        Platform::Linux => String::from_str("/var/opt/lsiagent"),
    }
}

/// Agent config file (INI-style; `[Debug] LogLevel2=` controls trace level).
pub fn config_path(p: Platform) -> (r: String)
    ensures
        r@ == join(base_dir_spec(p), "lsiagent.cfg"@),
{
    join_str(base_dir(p).as_str(), "lsiagent.cfg")
}

/// Agent SQLite database. A non-empty `LSMAN_DB` (passed in as
/// `override_path`) replaces it so an offline snapshot can be inspected.
pub fn database_path(p: Platform, override_path: Option<&str>) -> (r: String)
    ensures
        (override_path matches Some(o) && o@.len() > 0) ==> r@ == override_path->0@,
        !(override_path matches Some(o) && o@.len() > 0) ==> r@ == join(
            join(base_dir_spec(p), "database"@),
            "collect.sqlite3"@,
        ),
{
    if let Some(o) = override_path {
        if !o.is_empty() {
            return String::from_str(o);
        }
    }
    let db = join_str(base_dir(p).as_str(), "database");
    join_str(db.as_str(), "collect.sqlite3")
}

/// Master-delivered agent profile blob, written next to the config.
pub fn profile_path(p: Platform) -> (r: String)
    ensures
        r@ == join(base_dir_spec(p), "profile"@),
{
    join_str(base_dir(p).as_str(), "profile")
}

/// Daemon binary location.
pub fn daemon_binary(p: Platform) -> (r: String)
    ensures
        r@ == match p {
            Platform::MacOs => join(base_dir_spec(p), "lsiagentd"@),
            Platform::Linux => "/opt/lsiagent/bin/lsiagentd"@,
        },
{
    match p {
        Platform::MacOs => join_str(base_dir(p).as_str(), "lsiagentd"),
        Platform::Linux => String::from_str("/opt/lsiagent/bin/lsiagentd"),
    }
}

/// A log file the agent is known to write.
#[derive(Debug)]
pub struct KnownLog {
    /// Short name used to refer to the log on the command line.
    pub name: String,
    pub path: String,
    pub description: String,
}

/// The contents of a `KnownLog`.
pub struct LogView {
    pub name: Seq<char>,
    pub path: Seq<char>,
    pub description: Seq<char>,
}

impl View for KnownLog {
    type V = LogView;

    open spec fn view(&self) -> LogView {
        LogView { name: self.name@, path: self.path@, description: self.description@ }
    }
}

/// A known log in `base`.
pub open spec fn log_at(base: Seq<char>, name: Seq<char>, file: Seq<char>, desc: Seq<char>) -> LogView {
    LogView { name: name, path: join(base, file), description: desc }
}

/// `agent<i>` → `lsiagent<i>.log` on Linux.
pub open spec fn linux_agent_log(i: nat) -> LogView {
    log_at(
        "/var/opt/lsiagent"@,
        "agent"@ + decimal(i),
        "lsiagent"@ + decimal(i) + ".log"@,
        "main daemon log (5 MB self-rotation)"@,
    )
}

/// The logs every install writes after the main daemon log(s).
pub open spec fn shared_logs(base: Seq<char>) -> Seq<LogView> {
    seq![
        log_at(base, "webcom"@, "lsiwebcom.log"@, "LsiWebCom / uplink to master"@),
        log_at(base, "sensors"@, "LSSensorEngine.log"@, "sensor engine"@),
        log_at(base, "slow-sql"@, "slow_queries.log"@, "slow SQL queries"@),
        log_at(base, "inventory"@, "Inventory.log"@, "inventory collection"@),
    ]
}

/// The fixed part of the log list, in display order.
pub open spec fn fixed_logs(p: Platform) -> Seq<LogView> {
    let base = base_dir_spec(p);
    match p {
        Platform::MacOs => seq![
            log_at(base, "agent"@, "lsiagent.log"@, "main daemon log (rotated by newsyslog)"@),
        ] + shared_logs(base) + seq![
            log_at(base, "statusbar"@, "lsistatusbar.log"@, "LsiStatusBar app + XPC bridge"@),
        ],
        Platform::Linux => seq![
            linux_agent_log(1),
            linux_agent_log(2),
            linux_agent_log(3),
            linux_agent_log(4),
            linux_agent_log(5),
        ] + shared_logs(base),
    }
}

/// Per-user LsiUser helper logs are `Users/SysTrackManagementUser_<UID>.log`.
pub open spec fn user_log_of(fname: Seq<char>) -> Option<LogView> {
    let pre = "SysTrackManagementUser_"@;
    let suf = ".log"@;
    if fname.len() >= pre.len() + suf.len() && fname.take(pre.len() as int) == pre
        && fname.skip(fname.len() - suf.len()) == suf {
        let uid = fname.subrange(pre.len() as int, fname.len() - suf.len());
        Some(
            LogView {
                name: "user-"@ + uid,
                path: join(join(base_dir_spec(Platform::MacOs), "Users"@), fname),
                description: "per-user LsiUser helper"@,
            },
        )
    } else {
        None
    }
}

/// The user logs among the file names of the `Users` directory, in the
/// order given.
pub open spec fn user_logs_of(files: Seq<Seq<char>>) -> Seq<LogView>
    decreases files.len(),
{
    if files.len() == 0 {
        Seq::<LogView>::empty()
    } else {
        let rest = user_logs_of(files.drop_last());
        match user_log_of(files.last()) {
            Some(l) => rest.push(l),
            None => rest,
        }
    }
}

/// No log sorts before an earlier one by name.
pub open spec fn sorted_by_name(ls: Seq<LogView>) -> bool {
    forall|i: int, j: int| 0 <= i < j < ls.len() ==> !text_lt(ls[j].name, ls[i].name)
}

/// The whole log list of `known_logs`: the fixed logs, then (macOS) the
/// user logs in name order.
pub open spec fn known_logs_ok(p: Platform, files: Seq<Seq<char>>, r: Seq<LogView>) -> bool {
    let f = fixed_logs(p);
    &&& r.take(f.len() as int) == f
    &&& f.len() <= r.len()
    &&& match p {
        Platform::MacOs => {
            let u = r.skip(f.len() as int);
            &&& u.to_multiset() == user_logs_of(files).to_multiset()
            &&& sorted_by_name(u)
        },
        Platform::Linux => r.len() == f.len(),
    }
}

fn make_log(base: &str, name: &str, file: &str, desc: &str) -> (r: KnownLog)
    ensures
        r@ == log_at(base@, name@, file@, desc@),
{
    KnownLog {
        name: String::from_str(name),
        path: join_str(base, file),
        description: String::from_str(desc),
    }
}

fn make_linux_agent_log(i: u64) -> (r: KnownLog)
    ensures
        r@ == linux_agent_log(i as nat),
{
    let mut name = String::from_str("agent");
    push_decimal(&mut name, i);
    let mut file = String::from_str("lsiagent");
    push_decimal(&mut file, i);
    push_str(&mut file, ".log");
    KnownLog {
        name,
        path: join_str("/var/opt/lsiagent", file.as_str()),
        description: String::from_str("main daemon log (5 MB self-rotation)"),
    }
}

/// The user log for one directory entry name, if it is one.
fn user_log(fname: &str) -> (r: Option<KnownLog>)
    ensures
        match user_log_of(fname@) {
            Some(l) => r matches Some(k) && k@ == l,
            None => r is None,
        },
{
    let v = chars_of(fname);
    let pre = chars_of("SysTrackManagementUser_");
    let suf = chars_of(".log");
    let n = v.len();
    proof {
        reveal_strlit("SysTrackManagementUser_");
        reveal_strlit(".log");
    }
    if n < pre.len() + suf.len() {
        return None;
    }
    if !crate::text::match_at(&v, 0, &pre) || !crate::text::match_at(&v, n - suf.len(), &suf) {
        assert(v@.take(pre@.len() as int) =~= v@.subrange(0, pre@.len() as int));
        assert(v@.skip(n - suf@.len()) =~= v@.subrange(n - suf@.len(), n as int));
        return None;
    }
    assert(v@.take(pre@.len() as int) =~= v@.subrange(0, pre@.len() as int));
    assert(v@.skip(n - suf@.len()) =~= v@.subrange(n - suf@.len(), n as int));
    let mut name = String::from_str("user-");
    push_range(&mut name, &v, pre.len(), n - suf.len());
    let users = join_str(base_dir(Platform::MacOs).as_str(), "Users");
    Some(
        KnownLog {
            name,
            path: join_str(users.as_str(), fname),
            description: String::from_str("per-user LsiUser helper"),
        },
    )
}

/// Where `x` goes in `out` (sorted by name): after every log it does not
/// sort before.
fn name_insert_position(out: &Vec<KnownLog>, x: &KnownLog) -> (pos: usize)
    ensures
        pos <= out@.len(),
        forall|k: int| 0 <= k < pos ==> !text_lt(x@.name, #[trigger] out@[k]@.name),
        pos < out@.len() ==> text_lt(x@.name, out@[pos as int]@.name),
{
    let xn = chars_of(x.name.as_str());
    let mut k: usize = 0;
    while k < out.len()
        invariant
            xn@ == x@.name,
            k <= out@.len(),
            forall|m: int| 0 <= m < k ==> !text_lt(x@.name, #[trigger] out@[m]@.name),
        decreases out.len() - k,
    {
        if text_less(&xn, &chars_of(out[k].name.as_str())) {
            return k;
        }
        k += 1;
    }
    k
}

proof fn lemma_insert_sorted_by_name(s: Seq<LogView>, pos: int, x: LogView)
    requires
        sorted_by_name(s),
        0 <= pos <= s.len(),
        forall|k: int| 0 <= k < pos ==> !text_lt(x.name, #[trigger] s[k].name),
        pos < s.len() ==> text_lt(x.name, s[pos].name),
    ensures
        sorted_by_name(s.insert(pos, x)),
{
    let t = s.insert(pos, x);
    assert forall|i: int, j: int| 0 <= i < j < t.len() implies !text_lt(t[j].name, t[i].name) by {
        if j == pos {
            assert(t[i] == s[i]);
        } else if i == pos {
            let k = j - 1;
            assert(t[j] == s[k]);
            if text_lt(s[k].name, x.name) {
                if k == pos {
                    lemma_text_lt_trans(x.name, s[pos].name, x.name);
                    lemma_text_lt_irrefl(x.name);
                } else {
                    lemma_text_lt_trans(s[k].name, x.name, s[pos].name);
                }
            }
        } else {
            let si = if i < pos {
                i
            } else {
                i - 1
            };
            let sj = if j < pos {
                j
            } else {
                j - 1
            };
            assert(t[i] == s[si]);
            assert(t[j] == s[sj]);
        }
    }
}

/// The user logs found among `files`, sorted by name.
fn sorted_user_logs(files: &Vec<String>) -> (r: Vec<KnownLog>)
    ensures
        r@.map_values(|k: KnownLog| k@).to_multiset() == user_logs_of(
            files@.map_values(|f: String| f@),
        ).to_multiset(),
        sorted_by_name(r@.map_values(|k: KnownLog| k@)),
{
    broadcast use vstd::seq_lib::group_to_multiset_ensures, vstd::multiset::group_multiset_axioms;

    let ghost fv = files@.map_values(|f: String| f@);
    let mut out: Vec<KnownLog> = Vec::new();
    let mut i: usize = 0;
    proof {
        assert(fv.take(0) =~= Seq::<Seq<char>>::empty());
        assert(out@.map_values(|k: KnownLog| k@) =~= Seq::<LogView>::empty());
    }
    while i < files.len()
        invariant
            fv == files@.map_values(|f: String| f@),
            i <= files@.len(),
            out@.map_values(|k: KnownLog| k@).to_multiset() == user_logs_of(fv.take(i as int)).to_multiset(),
            sorted_by_name(out@.map_values(|k: KnownLog| k@)),
        decreases files.len() - i,
    {
        let ghost ov = out@.map_values(|k: KnownLog| k@);
        proof {
            assert(fv.take(i + 1).drop_last() =~= fv.take(i as int));
            assert(fv.take(i + 1).last() == files@[i as int]@);
        }
        match user_log(files[i].as_str()) {
            Some(l) => {
                let pos = name_insert_position(&out, &l);
                proof {
                    lemma_insert_sorted_by_name(ov, pos as int, l@);
                    vstd::seq_lib::to_multiset_insert(ov, pos as int, l@);
                    vstd::seq_lib::to_multiset_build(user_logs_of(fv.take(i as int)), l@);
                }
                let ghost lv = l@;
                out.insert(pos, l);
                assert(out@.map_values(|k: KnownLog| k@) =~= ov.insert(pos as int, lv));
            },
            None => {},
        }
        i += 1;
    }
    assert(fv.take(files@.len() as int) =~= fv);
    out
}

/// All log files the agent writes, in display order. `user_log_files` are
/// the entry names of `<base>/Users` (macOS only; ignored on Linux). Includes
/// logs that don't exist yet (callers check the path).
pub fn known_logs(p: Platform, user_log_files: &Vec<String>) -> (r: Vec<KnownLog>)
    ensures
        known_logs_ok(p, user_log_files@.map_values(|f: String| f@), r@.map_values(|k: KnownLog| k@)),
{
    let base = base_dir(p);
    let b = base.as_str();
    let mut logs: Vec<KnownLog> = Vec::new();
    match p {
        Platform::MacOs => {
            logs.push(make_log(b, "agent", "lsiagent.log", "main daemon log (rotated by newsyslog)"));
        },
        Platform::Linux => {
            logs.push(make_linux_agent_log(1));
            logs.push(make_linux_agent_log(2));
            logs.push(make_linux_agent_log(3));
            logs.push(make_linux_agent_log(4));
            logs.push(make_linux_agent_log(5));
        },
    }
    logs.push(make_log(b, "webcom", "lsiwebcom.log", "LsiWebCom / uplink to master"));
    logs.push(make_log(b, "sensors", "LSSensorEngine.log", "sensor engine"));
    logs.push(make_log(b, "slow-sql", "slow_queries.log", "slow SQL queries"));
    logs.push(make_log(b, "inventory", "Inventory.log", "inventory collection"));
    let ghost f = fixed_logs(p);
    match p {
        Platform::MacOs => {
            logs.push(make_log(b, "statusbar", "lsistatusbar.log", "LsiStatusBar app + XPC bridge"));
            let ghost lv = logs@.map_values(|k: KnownLog| k@);
            assert(lv =~= f);
            let mut users = sorted_user_logs(user_log_files);
            let ghost uv = users@.map_values(|k: KnownLog| k@);
            logs.append(&mut users);
            proof {
                let r = logs@.map_values(|k: KnownLog| k@);
                assert(r =~= f + uv);
                assert(r.take(f.len() as int) =~= f);
                assert(r.skip(f.len() as int) =~= uv);
            }
        },
        Platform::Linux => {
            proof {
                let r = logs@.map_values(|k: KnownLog| k@);
                assert(r =~= f);
                assert(r.take(f.len() as int) =~= f);
            }
        },
    }
    logs
}

/// Every known log of a platform, the user logs in the order found.
pub open spec fn all_logs(p: Platform, files: Seq<Seq<char>>) -> Seq<LogView> {
    match p {
        Platform::MacOs => fixed_logs(p) + user_logs_of(files),
        Platform::Linux => fixed_logs(p),
    }
}

/// Every user log is the log of one of the file names.
proof fn lemma_user_log_source(files: Seq<Seq<char>>, k: int)
    requires
        0 <= k < user_logs_of(files).len(),
    ensures
        exists|m: int| 0 <= m < files.len() && user_log_of(files[m]) == Some(user_logs_of(files)[k]),
    decreases files.len(),
{
    let rest = user_logs_of(files.drop_last());
    if k < rest.len() {
        lemma_user_log_source(files.drop_last(), k);
        let m = choose|m: int| 0 <= m < files.drop_last().len() && user_log_of(files.drop_last()[m])
            == Some(rest[k]);
        assert(files[m] == files.drop_last()[m]);
    } else {
        assert(user_log_of(files[files.len() - 1]) == Some(user_logs_of(files)[k]));
    }
}

/// Two user logs with one name are the same log: the name gives the UID,
/// the UID the file.
proof fn lemma_user_log_by_name(a: Seq<char>, b: Seq<char>)
    requires
        user_log_of(a) is Some,
        user_log_of(b) is Some,
        user_log_of(a)->0.name == user_log_of(b)->0.name,
    ensures
        user_log_of(a) == user_log_of(b),
{
    let pre = "SysTrackManagementUser_"@;
    let suf = ".log"@;
    let ua = a.subrange(pre.len() as int, a.len() - suf.len());
    let ub = b.subrange(pre.len() as int, b.len() - suf.len());
    assert(("user-"@ + ua).skip(5) =~= ua) by {
        reveal_strlit("user-");
    }
    assert(("user-"@ + ub).skip(5) =~= ub) by {
        reveal_strlit("user-");
    }
    assert(a =~= a.take(pre.len() as int) + ua + a.skip(a.len() - suf.len()));
    assert(b =~= b.take(pre.len() as int) + ub + b.skip(b.len() - suf.len()));
}

/// Names of the fixed logs: distinct, and none starts with `u`.
proof fn lemma_fixed_names(p: Platform)
    ensures
        forall|i: int, j: int|
            0 <= i < j < fixed_logs(p).len() ==> fixed_logs(p)[i].name != fixed_logs(p)[j].name,
        forall|i: int|
            0 <= i < fixed_logs(p).len() ==> (#[trigger] fixed_logs(p)[i]).name.len() > 0
                && fixed_logs(p)[i].name[0] != 'u',
{
    reveal_strlit("agent");
    reveal_strlit("webcom");
    reveal_strlit("sensors");
    reveal_strlit("slow-sql");
    reveal_strlit("inventory");
    reveal_strlit("statusbar");
    let f = fixed_logs(p);
    if p == Platform::Linux {
        assert forall|n: nat| 1 <= n <= 5 implies #[trigger] decimal(n) == seq![crate::num::digit_char(
            n as int,
        )] by {}
        assert forall|n: nat| 1 <= n <= 5 implies ("agent"@ + #[trigger] decimal(n)).len() == 6
            && ("agent"@ + decimal(n))[5] == crate::num::digit_char(n as int) by {}
    }
    assert forall|i: int, j: int| 0 <= i < j < f.len() implies f[i].name != f[j].name by {
        let a = f[i].name;
        let b = f[j].name;
        if a.len() == b.len() {
            if p == Platform::Linux && j < 5 {
                assert(a[5] != b[5]);
            } else if a[0] == b[0] {
                assert(a[1] != b[1]);
            } else {
                assert(a[0] != b[0]);
            }
        }
    }
}

/// Two known logs with one name are the same log.
pub proof fn lemma_same_name_same_log(p: Platform, files: Seq<Seq<char>>, i: int, j: int)
    requires
        0 <= i < all_logs(p, files).len(),
        0 <= j < all_logs(p, files).len(),
        all_logs(p, files)[i].name == all_logs(p, files)[j].name,
    ensures
        all_logs(p, files)[i] == all_logs(p, files)[j],
{
    let all = all_logs(p, files);
    let f = fixed_logs(p);
    lemma_fixed_names(p);
    reveal_strlit("user-");
    if i < f.len() && j < f.len() {
        if i < j {
            assert(f[i].name != f[j].name);
        } else if j < i {
            assert(f[j].name != f[i].name);
        }
    } else if p == Platform::MacOs {
        let u = user_logs_of(files);
        if i >= f.len() {
            lemma_user_log_source(files, i - f.len());
            assert(all[i] == u[i - f.len()]);
        }
        if j >= f.len() {
            lemma_user_log_source(files, j - f.len());
            assert(all[j] == u[j - f.len()]);
        }
        if i >= f.len() && j >= f.len() {
            let mi = choose|m: int| 0 <= m < files.len() && user_log_of(files[m]) == Some(u[i - f.len()]);
            let mj = choose|m: int| 0 <= m < files.len() && user_log_of(files[m]) == Some(u[j - f.len()]);
            lemma_user_log_by_name(files[mi], files[mj]);
        } else if i >= f.len() {
            assert(all[j] == f[j]);
            assert(all[i].name[0] == 'u');
        } else {
            assert(all[i] == f[i]);
            assert(all[j].name[0] == 'u');
        }
    }
}

/// The first index in `s` of a log named `name`, when `k` is one.
proof fn lemma_first_named(s: Seq<LogView>, name: Seq<char>, k: int) -> (r: int)
    requires
        0 <= k < s.len(),
        s[k].name == name,
    ensures
        0 <= r <= k,
        s[r].name == name,
        forall|j: int| 0 <= j < r ==> s[j].name != name,
    decreases k,
{
    if exists|j: int| 0 <= j < k && s[j].name == name {
        let j = choose|j: int| 0 <= j < k && s[j].name == name;
        lemma_first_named(s, name, j)
    } else {
        k
    }
}

/// Look up a known log by its short name.
pub fn find_log(p: Platform, user_log_files: &Vec<String>, name: &str) -> (r: Option<KnownLog>)
    ensures
        ({
            let all = all_logs(p, user_log_files@.map_values(|s: String| s@));
            match r {
                Some(l) => exists|k: int|
                    0 <= k < all.len() && all[k] == l@ && l@.name == name@ && forall|j: int|
                        0 <= j < k ==> all[j].name != name@,
                None => forall|i: int| 0 <= i < all.len() ==> all[i].name != name@,
            }
        }),
{
    broadcast use vstd::seq_lib::group_to_multiset_ensures, vstd::multiset::group_multiset_axioms;

    let mut logs = known_logs(p, user_log_files);
    let ghost lv = logs@.map_values(|k: KnownLog| k@);
    let ghost f = fixed_logs(p);
    let ghost uf = user_logs_of(user_log_files@.map_values(|s: String| s@));
    let ghost all = match p {
        Platform::MacOs => f + uf,
        Platform::Linux => f,
    };
    proof {
        // every listed log is in `all`, and every log of `all` is listed
        assert(lv =~= f + lv.skip(f.len() as int));
        assert forall|x: LogView| lv.contains(x) <==> all.contains(x) by {
            let u = lv.skip(f.len() as int);
            if p == Platform::MacOs {
                vstd::seq_lib::to_multiset_contains(u, x);
                vstd::seq_lib::to_multiset_contains(uf, x);
            }
            if lv.contains(x) {
                let k = choose|k: int| 0 <= k < lv.len() && lv[k] == x;
                if k >= f.len() {
                    assert(u[k - f.len()] == x);
                    if p == Platform::MacOs {
                        assert(uf.contains(x));
                        let j = choose|j: int| 0 <= j < uf.len() && uf[j] == x;
                        assert(all[f.len() + j] == x);
                    }
                } else {
                    assert(all[k] == x);
                }
            }
            if all.contains(x) {
                let k = choose|k: int| 0 <= k < all.len() && all[k] == x;
                if k >= f.len() {
                    assert(uf[k - f.len()] == x);
                    assert(u.contains(x));
                    let j = choose|j: int| 0 <= j < u.len() && u[j] == x;
                    assert(lv[f.len() + j] == x);
                } else {
                    assert(lv[k] == x);
                }
            }
        }
    }
    let target = chars_of(name);
    let mut i: usize = 0;
    while i < logs.len()
        invariant
            lv == logs@.map_values(|k: KnownLog| k@),
            target@ == name@,
            i <= logs@.len(),
            forall|k: int| 0 <= k < i ==> lv[k].name != name@,
            forall|x: LogView| #[trigger] lv.contains(x) <==> all.contains(x),
            all == match p {
                Platform::MacOs => fixed_logs(p) + user_logs_of(
                    user_log_files@.map_values(|s: String| s@),
                ),
                Platform::Linux => fixed_logs(p),
            },
        decreases logs.len() - i,
    {
        if seq_eq(&chars_of(logs[i].name.as_str()), &target) {
            let l = logs.remove(i);
            assert(lv[i as int] == l@);
            assert(lv.contains(l@));
            proof {
                let files = user_log_files@.map_values(|s: String| s@);
                assert(all.contains(l@));
                let k0 = choose|k: int| 0 <= k < all.len() && all[k] == l@;
                let k = lemma_first_named(all, name@, k0);
                lemma_same_name_same_log(p, files, k, k0);
            }
            return Some(l);
        }
        i += 1;
    }
    proof {
        assert forall|k: int| 0 <= k < all.len() implies all[k].name != name@ by {
            assert(all.contains(all[k]));
            assert(lv.contains(all[k]));
        }
    }
    None
}

/// Directories that may contain agent crash reports, most relevant first.
/// `home` is `$HOME`, when set.
pub fn crash_report_dirs(p: Platform, home: Option<&str>) -> (r: Vec<String>)
    ensures
        r@.map_values(|s: String| s@) == match p {
            Platform::MacOs => match home {
                Some(h) => seq![
                    "/Library/Logs/DiagnosticReports"@,
                    join(h@, "Library/Logs/DiagnosticReports"@),
                ],
                None => seq!["/Library/Logs/DiagnosticReports"@],
            },
            Platform::Linux => Seq::<Seq<char>>::empty(),
        },
{
    let mut dirs: Vec<String> = Vec::new();
    if p == Platform::MacOs {
        // Daemon (runs as root) crashes land in the system dir; LsiStatusBar /
        // SysTrackManagementUser in the per-user dir.
        dirs.push(String::from_str("/Library/Logs/DiagnosticReports"));
        if let Some(h) = home {
            dirs.push(join_str(h, "Library/Logs/DiagnosticReports"));
        }
    }
    assert(dirs@.map_values(|s: String| s@) =~= match p {
        Platform::MacOs => match home {
            Some(h) => seq!["/Library/Logs/DiagnosticReports"@, join(h@, "Library/Logs/DiagnosticReports"@)],
            None => seq!["/Library/Logs/DiagnosticReports"@],
        },
        Platform::Linux => Seq::<Seq<char>>::empty(),
    });
    dirs
}

/// File names of agent-related crash reports start with one of
/// `lsiagentd`, `LsiStatusBar`, `SysTrackManagementUser`.
pub open spec fn is_crash_report_name_spec(fname: Seq<char>) -> bool {
    ||| matches_at(fname, 0, "lsiagentd"@)
    ||| matches_at(fname, 0, "LsiStatusBar"@)
    ||| matches_at(fname, 0, "SysTrackManagementUser"@)
}

/// Whether a directory entry name is an agent crash report.
pub fn is_crash_report_name(fname: &str) -> (r: bool)
    ensures
        r == is_crash_report_name_spec(fname@),
{
    let v = chars_of(fname);
    crate::text::match_at(&v, 0, &chars_of("lsiagentd")) || crate::text::match_at(
        &v,
        0,
        &chars_of("LsiStatusBar"),
    ) || crate::text::match_at(&v, 0, &chars_of("SysTrackManagementUser"))
}

} // verus!
