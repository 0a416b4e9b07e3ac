//! The decisions behind the non-interactive subcommands: which logs a scan
//! covers, how a pasted source reference is read, which checkout files
//! match it and how they are shown, and how table cells are clipped.

use vstd::prelude::*;
use crate::num::{decimal, parse_unsigned, parse_unsigned_range, push_decimal};
use crate::paths::{all_logs, fixed_logs, find_log, known_logs, KnownLog, LogView, Platform, user_log_of, user_logs_of};
use crate::text::{
    chars_of, char_is_ws, eq_ignore_case, is_ws, lower, push_char, push_range, push_str,
    range_eq_ignore_case, split_ws, string_of, string_of_range, trim, trim_chars, words,
};
use crate::triage::{split_site_chars, split_site_spec, u32_max};

verus! {

/// The subcommands of `lsman` and their arguments.
#[derive(Debug)]
pub enum CliCommand {
    /// Show daemon status: state, resources, uplink, config, log freshness.
    Status,
    /// List the agent's log files, or print/tail one.
    Logs { name: Option<String>, lines: usize, follow: bool, errors: bool, path: bool },
    /// Group error/crash lines by the source site that logged them.
    Errors { log: Option<String>, lines: usize, since: Option<String>, raw: bool },
    /// Print the agent config file.
    Config { path: bool },
    /// Show or set the agent trace level.
    Trace { level: Option<String>, restart: bool },
    /// Inspect the agent SQLite database read-only.
    Db { sql: Option<String>, table: Option<String>, limit: usize, find: Option<String> },
    /// List recent agent crash reports.
    Crashes { count: usize, show: Option<String> },
    /// Show the daemon's open network connections.
    Net,
    /// One-shot markdown diagnostic report.
    Report { since: Option<String>, output: Option<String> },
    /// Bundle report, config, capped logs and crash reports.
    Collect { output: String, max_log_mb: u64, since: Option<String> },
    /// Serve the web dashboard.
    Serve { port: u16, bind: String },
    /// Resolve a log line's `<file>(<line>)` to the agent source checkout.
    Where { reference: String },
    /// Start the daemon.
    Start,
    /// Stop the daemon.
    Stop,
    /// Restart the daemon.
    Restart,
}

// ---------------------------------------------------------------------------
// which logs an error scan reads

/// Whether `s` starts with `p`.
pub open spec fn starts_with(s: Seq<char>, p: Seq<char>) -> bool {
    p.len() <= s.len() && s.take(p.len() as int) == p
}

/// Whether a log is one of the main daemon logs (`agent*`).
pub open spec fn is_agent_log(l: LogView) -> bool {
    starts_with(l.name, "agent"@)
}

/// The `agent*` logs of a list, in order.
pub open spec fn agent_only(ls: Seq<LogView>) -> Seq<LogView>
    decreases ls.len(),
{
    if ls.len() == 0 {
        ls
    } else if is_agent_log(ls.last()) {
        agent_only(ls.drop_last()).push(ls.last())
    } else {
        agent_only(ls.drop_last())
    }
}

/// The main daemon log(s) of a platform: `agent`, or `agent1`..`agent5`.
pub open spec fn agent_logs(p: Platform) -> Seq<LogView> {
    agent_only(fixed_logs(p))
}

/// The message for a log name that is not known.
pub open spec fn unknown_log_message(name: Seq<char>) -> Seq<char> {
    "unknown log '"@ + name + "' — run `lsman logs` to list names"@
}

proof fn lemma_user_logs_not_agent(files: Seq<Seq<char>>)
    ensures
        forall|i: int|
            0 <= i < user_logs_of(files).len() ==> !is_agent_log(#[trigger] user_logs_of(files)[i]),
    decreases files.len(),
{
    reveal_strlit("user-");
    reveal_strlit("agent");
    if files.len() > 0 {
        lemma_user_logs_not_agent(files.drop_last());
        let rest = user_logs_of(files.drop_last());
        match user_log_of(files.last()) {
            Some(l) => {
                assert(l.name[0] == 'u');
                assert forall|i: int| 0 <= i < rest.push(l).len() implies !is_agent_log(
                    #[trigger] rest.push(l)[i],
                ) by {
                    if i == rest.len() {
                        assert(rest.push(l)[i].name.take(5)[0] == 'u');
                    } else {
                        assert(rest.push(l)[i] == rest[i]);
                    }
                }
            },
            None => {},
        }
    }
}

/// `agent_only` ignores non-agent logs past `k`.
proof fn lemma_agent_only_prefix(s: Seq<LogView>, k: int)
    requires
        0 <= k <= s.len(),
        forall|j: int| k <= j < s.len() ==> !is_agent_log(#[trigger] s[j]),
    ensures
        agent_only(s) == agent_only(s.take(k)),
    decreases s.len() - k,
{
    if k < s.len() {
        lemma_agent_only_prefix(s, k + 1);
        assert(s.take(k + 1).drop_last() =~= s.take(k));
        assert(s.take(k + 1).last() == s[k]);
    } else {
        assert(s.take(k) =~= s);
    }
}

/// The one log named `name`, or the message that names no known log.
fn named_log(p: Platform, user_log_files: &Vec<String>, name: &str) -> (r: Result<
    Vec<KnownLog>,
    String,
>)
    ensures
        ({
            let all = all_logs(p, user_log_files@.map_values(|s: String| s@));
            match r {
                Ok(v) => v@.len() == 1 && v@[0]@.name == name@ && all.contains(v@[0]@),
                Err(m) => m@ == unknown_log_message(name@) && forall|i: int|
                    0 <= i < all.len() ==> all[i].name != name@,
            }
        }),
{
    match find_log(p, user_log_files, name) {
        Some(l) => {
            let mut v: Vec<KnownLog> = Vec::new();
            let ghost lv = l@;
            v.push(l);
            assert(v@[0]@ == lv);
            Ok(v)
        },
        None => {
            let mut m = String::new();
            push_str(&mut m, "unknown log '");
            push_str(&mut m, name);
            push_str(&mut m, "' — run `lsman logs` to list names");
            assert(m@ =~= unknown_log_message(name@));
            Err(m)
        },
    }
}

/// The main daemon log(s), in display order.
fn default_error_logs(p: Platform, user_log_files: &Vec<String>) -> (r: Vec<KnownLog>)
    ensures
        r@.map_values(|k: KnownLog| k@) == agent_logs(p),
{
    let all = known_logs(p, user_log_files);
    let ghost av = all@.map_values(|k: KnownLog| k@);
    let ghost f = fixed_logs(p);
    proof {
        broadcast use vstd::seq_lib::group_to_multiset_ensures;

        let files = user_log_files@.map_values(|s: String| s@);
        lemma_user_logs_not_agent(files);
        assert forall|i: int| f.len() <= i < av.len() implies !is_agent_log(#[trigger] av[i]) by {
            if p == Platform::MacOs {
                let u = av.skip(f.len() as int);
                assert(u[i - f.len()] == av[i]);
                assert(u.contains(av[i]));
                vstd::seq_lib::to_multiset_contains(u, av[i]);
                vstd::seq_lib::to_multiset_contains(user_logs_of(files), av[i]);
                let j = choose|j: int|
                    0 <= j < user_logs_of(files).len() && user_logs_of(files)[j] == av[i];
                assert(!is_agent_log(user_logs_of(files)[j]));
            }
        }
        lemma_agent_only_prefix(av, f.len() as int);
    }
    let agent = chars_of("agent");
    proof {
        reveal_strlit("agent");
    }
    let total = all.len();
    let mut out: Vec<KnownLog> = Vec::new();
    let mut rest = all;
    let mut i: usize = 0;
    while rest.len() > 0
        invariant
            agent@ == "agent"@,
            agent@.len() == 5,
            total == av.len(),
            i + rest@.len() == av.len(),
            rest@.map_values(|k: KnownLog| k@) == av.skip(i as int),
            out@.map_values(|k: KnownLog| k@) == agent_only(av.take(i as int)),
        decreases rest.len(),
    {
        let ghost before = av.take(i as int);
        assert(av.skip(i as int)[0] == rest@[0]@);
        let l = rest.remove(0);
        assert(av.skip(i as int).drop_first() =~= av.skip(i + 1));
        let name = chars_of(l.name.as_str());
        let keep = name.len() >= 5 && range_eq_exact(&name, &agent);
        assert(keep == is_agent_log(l@));
        assert(av.take(i + 1).drop_last() =~= before);
        assert(av.take(i + 1).last() == l@);
        if keep {
            out.push(l);
        }
        i += 1;
        assert(out@.map_values(|k: KnownLog| k@) =~= agent_only(av.take(i as int)));
    }
    proof {
        assert(av.take(i as int) =~= av);
    }
    out
}

/// The logs an error scan covers: the named one, or by default the main
/// daemon log(s). `user_log_files` are the entry names of `<base>/Users`.
pub fn errors_target_logs(p: Platform, user_log_files: &Vec<String>, log_name: Option<&str>) -> (r:
    Result<Vec<KnownLog>, String>)
    ensures
        match log_name {
            Some(name) => {
                let all = all_logs(p, user_log_files@.map_values(|s: String| s@));
                match r {
                    Ok(v) => v@.len() == 1 && v@[0]@.name == name@ && all.contains(v@[0]@),
                    Err(m) => m@ == unknown_log_message(name@) && forall|i: int|
                        0 <= i < all.len() ==> all[i].name != name@,
                }
            },
            None => r matches Ok(v) && v@.map_values(|k: KnownLog| k@) == agent_logs(p),
        },
{
    match log_name {
        Some(name) => named_log(p, user_log_files, name),
        None => Ok(default_error_logs(p, user_log_files)),
    }
}

/// `s[..p.len()] == p` for `s` at least as long as `p`.
fn range_eq_exact(s: &Vec<char>, p: &Vec<char>) -> (r: bool)
    requires
        p@.len() <= s@.len(),
    ensures
        r == (s@.take(p@.len() as int) == p@),
{
    let mut i: usize = 0;
    while i < p.len()
        invariant
            p@.len() <= s@.len(),
            i <= p@.len(),
            forall|j: int| 0 <= j < i ==> s@[j] == p@[j],
        decreases p.len() - i,
    {
        if s[i] != p[i] {
            assert(s@.take(p@.len() as int)[i as int] != p@[i as int]);
            return false;
        }
        i += 1;
    }
    assert(s@.take(p@.len() as int) =~= p@);
    true
}

// ---------------------------------------------------------------------------
// source references: `webSocNix.cpp(120)`, `webSocNix.cpp:120`, a log line

/// Whether `s` holds a whitespace character.
pub open spec fn has_ws(s: Seq<char>) -> bool {
    exists|i: int| 0 <= i < s.len() && is_ws(#[trigger] s[i])
}

/// The first token that is a source site, split.
pub open spec fn first_site(ws: Seq<Seq<char>>) -> Option<(Seq<char>, nat)>
    decreases ws.len(),
{
    if ws.len() == 0 {
        None
    } else {
        match split_site_spec(ws[0]) {
            Some(x) => Some(x),
            None => first_site(ws.drop_first()),
        }
    }
}

/// Index of the last `c` in `s`, or -1.
pub open spec fn last_index_of(s: Seq<char>, c: char) -> int
    decreases s.len(),
{
    if s.len() == 0 {
        -1
    } else if s.last() == c {
        s.len() - 1
    } else {
        last_index_of(s.drop_last(), c)
    }
}

/// `parse_source_ref`: a `<file>` and `<line>` (0 when unknown) out of
/// "f.cpp(120)", "f.cpp:120", a bare file name, or a whole pasted log line;
/// None when a pasted line holds no site.
pub open spec fn source_ref_spec(reference: Seq<char>) -> Option<(Seq<char>, nat)> {
    let t = trim(reference);
    if has_ws(t) {
        first_site(words(t))
    } else {
        match split_site_spec(t) {
            Some(x) => Some(x),
            None => {
                let k = last_index_of(t, ':');
                if k >= 0 && parse_unsigned(t.skip(k + 1), u32_max()) is Some {
                    Some((t.take(k), parse_unsigned(t.skip(k + 1), u32_max())->0))
                } else {
                    Some((t, 0))
                }
            },
        }
    }
}

/// Executable `has_ws`.
fn any_ws(s: &Vec<char>) -> (r: bool)
    ensures
        r == has_ws(s@),
{
    let mut i: usize = 0;
    while i < s.len()
        invariant
            i <= s@.len(),
            forall|j: int| 0 <= j < i ==> !is_ws(#[trigger] s@[j]),
        decreases s.len() - i,
    {
        if char_is_ws(s[i]) {
            return true;
        }
        i += 1;
    }
    false
}

/// Executable `last_index_of`.
fn rfind_char(s: &Vec<char>, c: char) -> (r: Option<usize>)
    ensures
        match r {
            Some(k) => k < s@.len() && last_index_of(s@, c) == k,
            None => last_index_of(s@, c) == -1,
        },
{
    let mut k = s.len();
    assert(s@.take(k as int) =~= s@);
    while k > 0
        invariant
            k <= s@.len(),
            last_index_of(s@, c) == last_index_of(s@.take(k as int), c),
        decreases k,
    {
        assert(s@.take(k as int).last() == s@[k - 1]);
        assert(s@.take(k as int).drop_last() =~= s@.take(k - 1));
        if s[k - 1] == c {
            return Some(k - 1);
        }
        k -= 1;
    }
    None
}

/// Pull a `<file>` + `<line>` out of "f.cpp(120)", "f.cpp:120", a bare file
/// name, or a whole pasted log line.
pub fn parse_source_ref(reference: &str) -> (r: Option<(String, u32)>)
    ensures
        match source_ref_spec(reference@) {
            Some((f, n)) => r matches Some((g, m)) && g@ == f && m == n,
            None => r is None,
        },
{
    let t = trim_chars(&chars_of(reference));
    if any_ws(&t) {
        let ws = split_ws(&t);
        let ghost wv = words(t@);
        let mut i: usize = 0;
        assert(wv.skip(0) =~= wv);
        while i < ws.len()
            invariant
                t@ == trim(reference@),
                has_ws(t@),
                wv == words(t@),
                ws@.len() == wv.len(),
                forall|k: int| 0 <= k < ws@.len() ==> #[trigger] ws@[k]@ == wv[k],
                i <= ws@.len(),
                first_site(wv) == first_site(wv.skip(i as int)),
            decreases ws.len() - i,
        {
            assert(wv.skip(i as int)[0] == ws@[i as int]@);
            assert(wv.skip(i as int).drop_first() =~= wv.skip(i + 1));
            let hit = split_site_chars(&ws[i]);
            if hit.is_some() {
                assert(first_site(wv.skip(i as int)) == split_site_spec(ws@[i as int]@));
                return hit;
            }
            i += 1;
        }
        return None;
    }
    let site = split_site_chars(&t);
    if site.is_some() {
        return site;
    }
    match rfind_char(&t, ':') {
        Some(k) => {
            assert(t@.skip(k + 1) =~= t@.subrange(k + 1, t@.len() as int));
            match parse_unsigned_range(&t, k + 1, t.len(), 0xffff_ffffu64) {
                Some(line) => {
                    let f = string_of_range(&t, 0, k);
                    assert(f@ =~= t@.take(k as int));
                    return Some((f, line as u32));
                },
                None => {},
            }
        },
        None => {},
    }
    Some((string_of(&t), 0))
}

/// Whether a file name's extension is one of a source file's.
pub open spec fn is_source_ext(ext: Seq<char>) -> bool {
    ||| eq_ignore_case(ext, "cpp"@)
    ||| eq_ignore_case(ext, "c"@)
    ||| eq_ignore_case(ext, "cc"@)
    ||| eq_ignore_case(ext, "h"@)
    ||| eq_ignore_case(ext, "hpp"@)
    ||| eq_ignore_case(ext, "m"@)
    ||| eq_ignore_case(ext, "mm"@)
}

/// `source_file_matches`: the file name itself, or for an extensionless
/// query a source file with that stem (ASCII case ignored).
pub open spec fn source_match_spec(fname: Seq<char>, query: Seq<char>) -> bool {
    if eq_ignore_case(fname, query) {
        true
    } else if query.contains('.') {
        false
    } else {
        let k = last_index_of(fname, '.');
        k >= 0 && is_source_ext(fname.skip(k + 1)) && eq_ignore_case(fname.take(k), query)
    }
}

/// `last_index_of` finds the last occurrence.
proof fn lemma_last_index_of_is(s: Seq<char>, c: char, i: int)
    requires
        0 <= i < s.len(),
        s[i] == c,
        forall|j: int| i < j < s.len() ==> s[j] != c,
    ensures
        last_index_of(s, c) == i,
    decreases s.len(),
{
    if i < s.len() - 1 {
        assert forall|j: int| i < j < s.drop_last().len() implies s.drop_last()[j] != c by {
            assert(s.drop_last()[j] == s[j]);
        }
        lemma_last_index_of_is(s.drop_last(), c, i);
    }
}

/// An extensionless site finds the source file of that stem with any of
/// the source extensions cpp, c, cc, h, hpp, m, mm (any ASCII case), and a
/// file of the same name; it finds no file of that stem with another
/// extension such as `txt` or `log`.
pub proof fn lemma_source_extensions(stem: Seq<char>, ext: Seq<char>)
    requires
        !stem.contains('.'),
        !ext.contains('.'),
    ensures
        source_match_spec(stem, stem),
        forall|f: Seq<char>, q: Seq<char>| #[trigger] eq_ignore_case(f, q) ==> source_match_spec(f, q),
        forall|f: Seq<char>, q: Seq<char>|
            q.contains('.') && !eq_ignore_case(f, q) ==> !#[trigger] source_match_spec(f, q),
        (eq_ignore_case(ext, "cpp"@) || eq_ignore_case(ext, "c"@) || eq_ignore_case(ext, "cc"@)
            || eq_ignore_case(ext, "h"@) || eq_ignore_case(ext, "hpp"@) || eq_ignore_case(ext, "m"@)
            || eq_ignore_case(ext, "mm"@)) ==> source_match_spec(stem + seq!['.'] + ext, stem),
        (eq_ignore_case(ext, "txt"@) || eq_ignore_case(ext, "log"@)) ==> !source_match_spec(
            stem + seq!['.'] + ext,
            stem,
        ),
{
    let f = stem + seq!['.'] + ext;
    let k = stem.len() as int;
    assert(f[k] == '.');
    assert forall|j: int| k < j < f.len() implies f[j] != '.' by {
        assert(f[j] == ext[j - k - 1]);
    }
    lemma_last_index_of_is(f, '.', k);
    assert(f.take(k) =~= stem);
    assert(f.skip(k + 1) =~= ext);
    assert(!eq_ignore_case(f, stem));
    assert(eq_ignore_case(stem, stem));
    reveal_strlit("cpp");
    reveal_strlit("c");
    reveal_strlit("cc");
    reveal_strlit("h");
    reveal_strlit("hpp");
    reveal_strlit("m");
    reveal_strlit("mm");
    reveal_strlit("txt");
    reveal_strlit("log");
    if eq_ignore_case(ext, "txt"@) || eq_ignore_case(ext, "log"@) {
        assert(ext.len() == 3);
        if eq_ignore_case(ext, "txt"@) {
            assert(lower(ext[0]) == 't');
        } else {
            assert(lower(ext[0]) == 'l');
        }
        assert(!eq_ignore_case(ext, "cpp"@) && !eq_ignore_case(ext, "hpp"@));
        assert(!is_source_ext(ext));
    }
}

/// The agent logs the source file without its extension (`dbConnNix(1119)`),
/// so an extensionless query matches any source file with that stem.
pub fn source_file_matches(fname: &str, query: &str) -> (r: bool)
    ensures
        r == source_match_spec(fname@, query@),
{
    let f = chars_of(fname);
    let q = chars_of(query);
    assert(f@.subrange(0, f@.len() as int) =~= f@);
    let same = range_eq_ignore_case(&f, 0, f.len(), &q);
    assert(same == eq_ignore_case(fname@, query@));
    if same {
        return true;
    }
    let mut i: usize = 0;
    while i < q.len()
        invariant
            q@ == query@,
            !eq_ignore_case(fname@, query@),
            i <= q@.len(),
            forall|j: int| 0 <= j < i ==> q@[j] != '.',
        decreases q.len() - i,
    {
        if q[i] == '.' {
            assert(q@[i as int] == '.');
            assert(query@.contains('.'));
            return false;
        }
        i += 1;
    }
    assert(!q@.contains('.'));
    match rfind_char(&f, '.') {
        Some(k) => {
            let n = f.len();
            assert(f@.skip(k + 1) =~= f@.subrange(k + 1, n as int));
            assert(f@.take(k as int) =~= f@.subrange(0, k as int));
            let ext_ok = range_eq_ignore_case(&f, k + 1, n, &chars_of("cpp"))
                || range_eq_ignore_case(&f, k + 1, n, &chars_of("c"))
                || range_eq_ignore_case(&f, k + 1, n, &chars_of("cc"))
                || range_eq_ignore_case(&f, k + 1, n, &chars_of("h"))
                || range_eq_ignore_case(&f, k + 1, n, &chars_of("hpp"))
                || range_eq_ignore_case(&f, k + 1, n, &chars_of("m"))
                || range_eq_ignore_case(&f, k + 1, n, &chars_of("mm"));
            ext_ok && range_eq_ignore_case(&f, 0, k, &q)
        },
        None => false,
    }
}

// ---------------------------------------------------------------------------
// showing matches

/// Whether a path names an implementation file (`.cpp`, `.cc`, `.c`, `.m`,
/// `.mm`): these come first, since log sites point at them.
pub open spec fn is_impl_path(path: Seq<char>) -> bool {
    let name = path.skip(last_index_of(path, '/') + 1);
    let k = last_index_of(name, '.');
    k > 0 && ({
        let ext = name.skip(k + 1);
        ||| eq_ignore_case(ext, "cpp"@)
        ||| eq_ignore_case(ext, "cc"@)
        ||| eq_ignore_case(ext, "c"@)
        ||| eq_ignore_case(ext, "m"@)
        ||| eq_ignore_case(ext, "mm"@)
    })
}

/// The paths of `ps` that `keep` holds for, in order.
pub open spec fn paths_where(ps: Seq<Seq<char>>, keep: bool) -> Seq<Seq<char>>
    decreases ps.len(),
{
    if ps.len() == 0 {
        ps
    } else if is_impl_path(ps.last()) == keep {
        paths_where(ps.drop_last(), keep).push(ps.last())
    } else {
        paths_where(ps.drop_last(), keep)
    }
}

/// Executable `is_impl_path`.
fn impl_path(path: &str) -> (r: bool)
    ensures
        r == is_impl_path(path@),
{
    let v = chars_of(path);
    let n = v.len();
    let start = match rfind_char(&v, '/') {
        Some(k) => k + 1,
        None => 0,
    };
    let name = chars_of_range(&v, start, n);
    assert(name@ =~= v@.skip(last_index_of(v@, '/') + 1));
    match rfind_char(&name, '.') {
        Some(k) => {
            if k == 0 {
                return false;
            }
            let m = name.len();
            assert(name@.skip(k + 1) =~= name@.subrange(k + 1, m as int));
            range_eq_ignore_case(&name, k + 1, m, &chars_of("cpp"))
                || range_eq_ignore_case(&name, k + 1, m, &chars_of("cc"))
                || range_eq_ignore_case(&name, k + 1, m, &chars_of("c"))
                || range_eq_ignore_case(&name, k + 1, m, &chars_of("m"))
                || range_eq_ignore_case(&name, k + 1, m, &chars_of("mm"))
        },
        None => false,
    }
}

/// The characters `v[from..to]`.
fn chars_of_range(v: &Vec<char>, from: usize, to: usize) -> (r: Vec<char>)
    requires
        from <= to <= v@.len(),
    ensures
        r@ == v@.subrange(from as int, to as int),
{
    let mut r: Vec<char> = Vec::new();
    let mut i = from;
    while i < to
        invariant
            from <= i <= to <= v@.len(),
            r@ == v@.subrange(from as int, i as int),
        decreases to - i,
    {
        r.push(v[i]);
        i += 1;
    }
    r
}

/// Matching checkout files, implementation files first; each group keeps
/// the order it was found in.
pub fn implementation_first(hits: Vec<String>) -> (r: Vec<String>)
    ensures
        r@.map_values(|s: String| s@) == paths_where(hits@.map_values(|s: String| s@), true)
            + paths_where(hits@.map_values(|s: String| s@), false),
{
    let ghost hv = hits@.map_values(|s: String| s@);
    let mut first: Vec<String> = Vec::new();
    let mut rest: Vec<String> = Vec::new();
    let mut todo = hits;
    let mut i: usize = 0;
    let total = todo.len();
    while todo.len() > 0
        invariant
            total == hv.len(),
            i + todo@.len() == hv.len(),
            todo@.map_values(|s: String| s@) == hv.skip(i as int),
            first@.map_values(|s: String| s@) == paths_where(hv.take(i as int), true),
            rest@.map_values(|s: String| s@) == paths_where(hv.take(i as int), false),
        decreases todo.len(),
    {
        assert(hv.skip(i as int)[0] == todo@[0]@);
        let h = todo.remove(0);
        assert(hv.skip(i as int).drop_first() =~= hv.skip(i + 1));
        assert(hv.take(i + 1).drop_last() =~= hv.take(i as int));
        assert(hv.take(i + 1).last() == h@);
        if impl_path(h.as_str()) {
            first.push(h);
        } else {
            rest.push(h);
        }
        i += 1;
        assert(first@.map_values(|s: String| s@) =~= paths_where(hv.take(i as int), true));
        assert(rest@.map_values(|s: String| s@) =~= paths_where(hv.take(i as int), false));
    }
    assert(hv.take(i as int) =~= hv);
    let ghost fv = first@.map_values(|s: String| s@);
    let ghost rv = rest@.map_values(|s: String| s@);
    first.append(&mut rest);
    assert(first@.map_values(|s: String| s@) =~= fv + rv);
    first
}

/// The source excerpt around `line` (1-based) of a file with `n` lines:
/// `(index of the line, first index shown, end of the shown range)`, up to
/// three lines before and after; None when the file is shorter.
pub open spec fn excerpt_spec(line: nat, n: nat) -> Option<(nat, nat, nat)> {
    if line == 0 || line - 1 >= n {
        None
    } else {
        let idx = (line - 1) as nat;
        let from = if idx >= 3 { (idx - 3) as nat } else { 0 };
        let to = if idx + 4 <= n { idx + 4 } else { n };
        Some((idx, from, to))
    }
}

/// Where the emitting code sits in a checkout file of `n_lines` lines.
pub fn excerpt_bounds(line: u32, n_lines: usize) -> (r: Option<(usize, usize, usize)>)
    ensures
        match excerpt_spec(line as nat, n_lines as nat) {
            Some((i, f, t)) => r == Some((i as usize, f as usize, t as usize)),
            None => r is None,
        },
{
    if line == 0 {
        return None;
    }
    let idx = (line - 1) as usize;
    if idx >= n_lines {
        return None;
    }
    let from = if idx >= 3 {
        idx - 3
    } else {
        0
    };
    let to = if n_lines - idx >= 4 {
        idx + 4
    } else {
        n_lines
    };
    Some((idx, from, to))
}

/// `n` right-aligned in a field of `w` characters.
pub open spec fn pad_left(t: Seq<char>, w: nat) -> Seq<char> {
    if t.len() >= w {
        t
    } else {
        Seq::new((w - t.len()) as nat, |_i: int| ' ') + t
    }
}

/// One excerpt line: "> " on the emitting line, then the 1-based number
/// right-aligned in five columns, then the text.
pub open spec fn excerpt_line_spec(marked: bool, number: nat, text: Seq<char>) -> Seq<char> {
    (if marked {
        ">"@
    } else {
        " "@
    }) + " "@ + pad_left(decimal(number), 5) + " | "@ + text
}

/// The printed excerpt line for the `i`-th line (0-based) of a file.
pub fn excerpt_line(marked: bool, i: usize, text: &str) -> (r: String)
    requires
        i < usize::MAX,
    ensures
        r@ == excerpt_line_spec(marked, (i + 1) as nat, text@),
{
    let mut s = String::new();
    if marked {
        push_str(&mut s, ">");
    } else {
        push_str(&mut s, " ");
    }
    push_str(&mut s, " ");
    let mut num = String::new();
    push_decimal(&mut num, (i + 1) as u64);
    let ghost before_pad = s@;
    let width = num.as_str().unicode_len();
    let mut k = width;
    while k < 5
        invariant
            width == num@.len(),
            width <= k <= 5 || (width > 5 && k == width),
            s@ == before_pad + Seq::new((k - width) as nat, |_i: int| ' '),
        decreases 5 - k,
    {
        push_char(&mut s, ' ');
        k += 1;
        assert(s@ =~= before_pad + Seq::new((k - width) as nat, |_i: int| ' '));
    }
    push_str(&mut s, num.as_str());
    push_str(&mut s, " | ");
    push_str(&mut s, text);
    assert(s@ =~= excerpt_line_spec(marked, (i + 1) as nat, text@));
    s
}

// ---------------------------------------------------------------------------
// table cells

/// `clip_cell`: at most 48 characters; longer text keeps its first 47 and
/// ends in an ellipsis.
pub open spec fn clip_spec(s: Seq<char>) -> Seq<char> {
    if s.len() <= 48 {
        s
    } else {
        s.take(47).push('…')
    }
}

/// Keep table cells terminal-friendly; resolved paths/cmdlines can be long.
pub fn clip_cell(s: &str) -> (r: String)
    ensures
        r@ == clip_spec(s@),
{
    let v = chars_of(s);
    if v.len() <= 48 {
        return string_of(&v);
    }
    let mut t = string_of_range(&v, 0, 47);
    push_char(&mut t, '…');
    assert(t@ =~= clip_spec(s@));
    t
}

} // verus!
