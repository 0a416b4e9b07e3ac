//! The log viewer and SQL console of the desktop pane: which lines a reader
//! hands out, how new lines join the shown ones, the search filter, the
//! load-status messages, and the console's checks before a query runs.

use vstd::prelude::*;
use crate::errors::{log_manager_message, LogManagerError};
use crate::text::{chars_of, contains, contains_chars, push_str, string_of, trim, trim_chars};
use crate::ui::{FileLoadStatus, StatusLevel};

verus! {

// ---------------------------------------------------------------------------
// reading a log

/// The lines a reader hands out when it has read `last` lines of `lines`
/// (`None` for a line that could not be read): every readable line from
/// index `last` on, and the new count, one past the last of them.
pub open spec fn fresh_lines(lines: Seq<Option<Seq<char>>>, last: nat) -> (Seq<Seq<char>>, nat)
    decreases lines.len(),
{
    if lines.len() == 0 {
        (Seq::empty(), last)
    } else {
        let (out, count) = fresh_lines(lines.drop_last(), last);
        let i = (lines.len() - 1) as nat;
        if i >= last {
            match lines.last() {
                Some(l) => (out.push(l), i + 1),
                None => (out, count),
            }
        } else {
            (out, count)
        }
    }
}

/// The readable lines from index `last` on, and the count of lines read.
pub fn new_entries(lines: &Vec<Option<String>>, last_line_read: usize) -> (r: (Vec<String>, usize))
    ensures
        ({
            let (out, count) = fresh_lines(
                lines@.map_values(|o: Option<String>| match o {
                    Some(s) => Some(s@),
                    None => None,
                }),
                last_line_read as nat,
            );
            r.0@.map_values(|s: String| s@) == out && r.1 == count
        }),
{
    let ghost lv = lines@.map_values(|o: Option<String>| match o {
        Some(s) => Some(s@),
        None => None,
    });
    let mut out: Vec<String> = Vec::new();
    let mut count = last_line_read;
    let mut i: usize = 0;
    while i < lines.len()
        invariant
            lv == lines@.map_values(|o: Option<String>| match o {
                Some(s) => Some(s@),
                None => None,
            }),
            i <= lines@.len(),
            (out@.map_values(|s: String| s@), count as nat) == fresh_lines(lv.take(i as int), last_line_read as nat),
        decreases lines.len() - i,
    {
        assert(lv.take(i + 1).drop_last() =~= lv.take(i as int));
        assert(lv.take(i + 1).last() == lv[i as int]);
        if i >= last_line_read {
            match &lines[i] {
                Some(l) => {
                    let ghost before = out@.map_values(|s: String| s@);
                    out.push(l.clone());
                    assert(out@.map_values(|s: String| s@) =~= before.push(l@));
                    count = i + 1;
                },
                None => {},
            }
        }
        i += 1;
    }
    assert(lv.take(i as int) =~= lv);
    (out, count)
}

/// Every line of `lines`, each readable.
pub open spec fn readable(lines: Seq<Seq<char>>) -> Seq<Option<Seq<char>>> {
    lines.map_values(|l: Seq<char>| Some(l))
}

proof fn lemma_fresh_readable(lines: Seq<Seq<char>>, k: nat)
    ensures
        fresh_lines(readable(lines), k) == (
            if k <= lines.len() {
                lines.skip(k as int)
            } else {
                Seq::<Seq<char>>::empty()
            },
            if lines.len() > k {
                lines.len()
            } else {
                k
            },
        ),
    decreases lines.len(),
{
    if lines.len() == 0 {
        assert(lines.skip(0) =~= Seq::<Seq<char>>::empty());
    } else {
        let p = lines.drop_last();
        assert(readable(lines).drop_last() =~= readable(p));
        lemma_fresh_readable(p, k);
        if lines.len() - 1 >= k {
            assert(p.skip(k as int).push(lines.last()) =~= lines.skip(k as int));
        } else if k == lines.len() {
            assert(lines.skip(k as int) =~= Seq::<Seq<char>>::empty());
        }
    }
}

/// At most `count` lines: the first ones in file order, or the last ones
/// newest first.
pub open spec fn latest_spec(lines: Seq<Seq<char>>, count: nat, earliest_first: bool) -> Seq<Seq<char>> {
    let k = if count < lines.len() {
        count
    } else {
        lines.len()
    };
    if earliest_first {
        lines.take(k as int)
    } else {
        Seq::new(k, |j: int| lines[lines.len() - 1 - j])
    }
}

/// The lines a full reload shows (see `latest_spec`).
pub fn latest_entries(lines: &Vec<String>, count: usize, earliest_first: bool) -> (r: Vec<String>)
    ensures
        r@.map_values(|s: String| s@) == latest_spec(lines@.map_values(|s: String| s@), count as nat, earliest_first),
{
    let ghost lv = lines@.map_values(|s: String| s@);
    let n = lines.len();
    let k = if count < n {
        count
    } else {
        n
    };
    let mut out: Vec<String> = Vec::new();
    let mut j: usize = 0;
    while j < k
        invariant
            lv == lines@.map_values(|s: String| s@),
            n == lines@.len(),
            k <= n,
            j <= k,
            out@.len() == j,
            forall|a: int|
                0 <= a < j ==> (#[trigger] out@[a])@ == if earliest_first {
                    lv[a]
                } else {
                    lv[n - 1 - a]
                },
        decreases k - j,
    {
        if earliest_first {
            out.push(lines[j].clone());
        } else {
            out.push(lines[n - 1 - j].clone());
        }
        j += 1;
    }
    assert(out@.map_values(|s: String| s@) =~= latest_spec(lv, count as nat, earliest_first));
    out
}

/// New lines joined to the shown ones: after them when the oldest come
/// first, newest first before them otherwise.
pub open spec fn merged(existing: Seq<Seq<char>>, new: Seq<Seq<char>>, earliest_first: bool) -> Seq<Seq<char>> {
    if earliest_first {
        existing + new
    } else {
        Seq::new(new.len(), |j: int| new[new.len() - 1 - j]) + existing
    }
}

/// Join freshly read lines to the shown ones (see `merged`).
pub fn merge_entries(existing: &mut Vec<String>, new: Vec<String>, earliest_first: bool)
    ensures
        final(existing)@.map_values(|s: String| s@) == merged(
            old(existing)@.map_values(|s: String| s@),
            new@.map_values(|s: String| s@),
            earliest_first,
        ),
{
    let ghost ev = existing@.map_values(|s: String| s@);
    let ghost nv = new@.map_values(|s: String| s@);
    if earliest_first {
        let mut i: usize = 0;
        while i < new.len()
            invariant
                nv == new@.map_values(|s: String| s@),
                i <= new@.len(),
                existing@.map_values(|s: String| s@) == ev + nv.take(i as int),
            decreases new.len() - i,
        {
            let ghost before = existing@.map_values(|s: String| s@);
            existing.push(new[i].clone());
            assert(existing@.map_values(|s: String| s@) =~= before.push(nv[i as int]));
            assert(nv.take(i + 1) =~= nv.take(i as int).push(nv[i as int]));
            i += 1;
        }
        assert(nv.take(i as int) =~= nv);
    } else {
        let mut out: Vec<String> = Vec::new();
        let n = new.len();
        let mut j: usize = 0;
        while j < n
            invariant
                nv == new@.map_values(|s: String| s@),
                n == new@.len(),
                j <= n,
                out@.len() == j,
                forall|a: int| 0 <= a < j ==> (#[trigger] out@[a])@ == nv[n - 1 - a],
            decreases n - j,
        {
            out.push(new[n - 1 - j].clone());
            j += 1;
        }
        let ghost rev = out@.map_values(|s: String| s@);
        assert(rev =~= Seq::new(nv.len(), |k: int| nv[nv.len() - 1 - k]));
        let mut i: usize = 0;
        while i < existing.len()
            invariant
                ev == existing@.map_values(|s: String| s@),
                i <= existing@.len(),
                out@.map_values(|s: String| s@) == rev + ev.take(i as int),
            decreases existing.len() - i,
        {
            let ghost before = out@.map_values(|s: String| s@);
            out.push(existing[i].clone());
            assert(out@.map_values(|s: String| s@) =~= before.push(ev[i as int]));
            assert(ev.take(i + 1) =~= ev.take(i as int).push(ev[i as int]));
            i += 1;
        }
        assert(ev.take(i as int) =~= ev);
        *existing = out;
    }
}

/// Reading a log in two goes shows what one full read shows: when every
/// line is readable, the lines of a first read of `k` lines joined by the
/// lines a later read hands out are those of one read of the whole log, in
/// either order.
pub proof fn lemma_incremental_read(lines: Seq<Seq<char>>, k: nat, earliest_first: bool)
    requires
        k <= lines.len(),
    ensures
        merged(
            latest_spec(lines.take(k as int), k, earliest_first),
            fresh_lines(readable(lines), k).0,
            earliest_first,
        ) == latest_spec(lines, lines.len(), earliest_first),
        fresh_lines(readable(lines), k).1 == lines.len(),
{
    lemma_fresh_readable(lines, k);
    let first = lines.take(k as int);
    let later = lines.skip(k as int);
    assert(first.take(k as int) =~= first);
    assert(lines.take(lines.len() as int) =~= lines);
    if earliest_first {
        assert(first + later =~= lines);
    } else {
        let n = lines.len();
        let rev_first = Seq::new(k, |j: int| first[first.len() - 1 - j]);
        let rev_later = Seq::new(later.len(), |j: int| later[later.len() - 1 - j]);
        assert(rev_later + rev_first =~= Seq::new(n, |j: int| lines[n - 1 - j]));
    }
}

/// The shown lines that contain the search text (all of them when it is
/// empty), in order.
pub open spec fn search_spec(entries: Seq<Seq<char>>, query: Seq<char>) -> Seq<Seq<char>>
    decreases entries.len(),
{
    if entries.len() == 0 {
        Seq::empty()
    } else {
        let rest = search_spec(entries.drop_last(), query);
        if contains(entries.last(), query) {
            rest.push(entries.last())
        } else {
            rest
        }
    }
}

/// Every text contains the empty text, so an empty search keeps all lines.
pub proof fn lemma_empty_search_keeps_all(entries: Seq<Seq<char>>)
    ensures
        search_spec(entries, Seq::empty()) == entries,
    decreases entries.len(),
{
    if entries.len() > 0 {
        lemma_empty_search_keeps_all(entries.drop_last());
        assert(crate::text::matches_at(entries.last(), 0, Seq::empty())) by {
            assert(entries.last().subrange(0, 0) =~= Seq::<char>::empty());
        }
        assert(entries.drop_last().push(entries.last()) =~= entries);
    }
}

/// The lines the search box lets through (see `search_spec`).
pub fn search_entries(entries: &Vec<String>, query: &str) -> (r: Vec<String>)
    ensures
        r@.map_values(|s: String| s@) == search_spec(entries@.map_values(|s: String| s@), query@),
{
    let ghost ev = entries@.map_values(|s: String| s@);
    let q = chars_of(query);
    let mut out: Vec<String> = Vec::new();
    let mut i: usize = 0;
    while i < entries.len()
        invariant
            ev == entries@.map_values(|s: String| s@),
            q@ == query@,
            i <= entries@.len(),
            out@.map_values(|s: String| s@) == search_spec(ev.take(i as int), query@),
        decreases entries.len() - i,
    {
        assert(ev.take(i + 1).drop_last() =~= ev.take(i as int));
        assert(ev.take(i + 1).last() == ev[i as int]);
        if contains_chars(&chars_of(entries[i].as_str()), &q) {
            let ghost before = out@.map_values(|s: String| s@);
            out.push(entries[i].clone());
            assert(out@.map_values(|s: String| s@) =~= before.push(ev[i as int]));
        }
        i += 1;
    }
    assert(ev.take(i as int) =~= ev);
    out
}

// ---------------------------------------------------------------------------
// load status

/// The status after a path failed validation.
pub fn path_rejected(e: &LogManagerError, now_ms: u64) -> (r: FileLoadStatus)
    ensures
        r.message@ == "Failed to update log file path: "@ + log_manager_message(*e),
        r.level == StatusLevel::Error,
        r.timestamp_ms == Some(now_ms),
{
    let mut m = String::from_str("Failed to update log file path: ");
    let t = e.message();
    push_str(&mut m, t.as_str());
    FileLoadStatus { message: m, level: StatusLevel::Error, timestamp_ms: Some(now_ms) }
}

/// The status after a log file was loaded.
pub fn path_loaded(path: &str, now_ms: u64) -> (r: FileLoadStatus)
    ensures
        r.message@ == "Successfully loaded log file: "@ + path@,
        r.level == StatusLevel::Success,
        r.timestamp_ms == Some(now_ms),
{
    let mut m = String::from_str("Successfully loaded log file: ");
    push_str(&mut m, path);
    FileLoadStatus { message: m, level: StatusLevel::Success, timestamp_ms: Some(now_ms) }
}

/// The message and level for a failed load: a missing file, a denied one
/// and an invalid path get their own words (the last only a warning);
/// anything else is shown with `text`, the failure's own message.
pub open spec fn load_failure_spec(known: Option<LogManagerError>, text: Seq<char>) -> (Seq<char>, StatusLevel) {
    match known {
        Some(LogManagerError::FileNotFound(p)) => ("Log file not found: "@ + p@, StatusLevel::Error),
        Some(LogManagerError::PermissionDenied(p)) => ("Permission denied for file: "@ + p@, StatusLevel::Error),
        Some(LogManagerError::InvalidPath(p)) => ("Invalid file path: "@ + p@, StatusLevel::Warning),
        _ => ("Failed to load log file: "@ + text, StatusLevel::Error),
    }
}

/// The status after switching to a path failed (see `load_failure_spec`).
pub fn load_failed(known: Option<&LogManagerError>, text: &str, now_ms: u64) -> (r: FileLoadStatus)
    ensures
        ({
            let (m, l) = load_failure_spec(
                match known {
                    Some(e) => Some(*e),
                    None => None,
                },
                text@,
            );
            r.message@ == m && r.level == l
        }),
        r.timestamp_ms == Some(now_ms),
{
    let (prefix, subject, level) = match known {
        Some(LogManagerError::FileNotFound(p)) => ("Log file not found: ", p.as_str(), StatusLevel::Error),
        Some(LogManagerError::PermissionDenied(p)) => ("Permission denied for file: ", p.as_str(), StatusLevel::Error),
        Some(LogManagerError::InvalidPath(p)) => ("Invalid file path: ", p.as_str(), StatusLevel::Warning),
        _ => ("Failed to load log file: ", text, StatusLevel::Error),
    };
    let mut m = String::from_str(prefix);
    push_str(&mut m, subject);
    FileLoadStatus { message: m, level, timestamp_ms: Some(now_ms) }
}

/// Whether a status set at `set_ms` is still shown at `now_ms`.
pub open spec fn status_live(set_ms: u64, now_ms: u64, timeout_ms: u64) -> bool {
    (if now_ms >= set_ms {
        now_ms - set_ms
    } else {
        0
    }) < timeout_ms
}

/// Show or expire the load status at `now_ms`: a live status stays and is
/// shown; an expired one is cleared.
pub fn tick_status(status: &mut FileLoadStatus, now_ms: u64, timeout_ms: u64) -> (shown: bool)
    ensures
        match old(status).timestamp_ms {
            None => !shown && *final(status) == *old(status),
            Some(t) => if status_live(t, now_ms, timeout_ms) {
                shown && *final(status) == *old(status)
            } else {
                !shown && final(status).message@.len() == 0 && final(status).level == StatusLevel::Unset
                    && final(status).timestamp_ms is None
            },
        },
{
    match status.timestamp_ms {
        None => false,
        Some(t) => {
            let elapsed = if now_ms >= t {
                now_ms - t
            } else {
                0
            };
            if elapsed < timeout_ms {
                true
            } else {
                *status = FileLoadStatus { message: String::new(), level: StatusLevel::Unset, timestamp_ms: None };
                false
            }
        },
    }
}

// ---------------------------------------------------------------------------
// the SQL console

/// The database path to connect to: the input trimmed, refused when empty.
pub fn database_path_input(input: &str) -> (r: Result<String, String>)
    ensures
        match r {
            Ok(p) => trim(input@).len() > 0 && p@ == trim(input@),
            Err(e) => trim(input@).len() == 0 && e@ == "Database path cannot be empty"@,
        },
{
    let t = trim_chars(&chars_of(input));
    if t.len() == 0 {
        Err(String::from_str("Database path cannot be empty"))
    } else {
        Ok(string_of(&t))
    }
}

/// The query the console runs: refused without a connection, then when it
/// is blank; trimmed otherwise.
pub fn console_query(connected: bool, sql: &str) -> (r: Result<String, String>)
    ensures
        match r {
            Ok(q) => connected && trim(sql@).len() > 0 && q@ == trim(sql@),
            Err(e) => if !connected {
                e@ == "Not connected to a database"@
            } else {
                trim(sql@).len() == 0 && e@ == "SQL query cannot be empty"@
            },
        },
{
    if !connected {
        return Err(String::from_str("Not connected to a database"));
    }
    let t = trim_chars(&chars_of(sql));
    if t.len() == 0 {
        Err(String::from_str("SQL query cannot be empty"))
    } else {
        Ok(string_of(&t))
    }
}

/// The query a table button fills in: its columns (`schema`) or its first
/// hundred rows; refused when no table is selected.
pub fn table_query(table: Option<&str>, schema: bool) -> (r: Result<String, String>)
    ensures
        match table {
            None => r matches Err(e) && e@ == "No table selected"@,
            Some(t) => r matches Ok(q) && q@ == if schema {
                "PRAGMA table_info("@ + t@ + ")"@
            } else {
                "SELECT * FROM "@ + t@ + " LIMIT 100"@
            },
        },
{
    match table {
        None => Err(String::from_str("No table selected")),
        Some(t) => if schema {
            Ok(crate::db::table_schema_sql(t))
        } else {
            let mut q = String::from_str("SELECT * FROM ");
            push_str(&mut q, t);
            push_str(&mut q, " LIMIT 100");
            Ok(q)
        },
    }
}

} // verus!
