//! What the dashboard's Logs and Config tabs show: the text of a log file
//! (its last lines, or why there is none), which log file is selected, how
//! the view follows a growing log, and the status bar.

use vstd::prelude::*;
use crate::num::{decimal, push_decimal};
use crate::tabs::{KeyAction, Tab};
use crate::text::{chars_of, join_strings, joined, lines, push_str, split_lines, string_of, views};

verus! {

/// Most lines a log view shows.
pub const MAX_LOG_LINES: usize = 1000;

/// The view of a log file that could not be read.
pub open spec fn unreadable_view(path: Seq<char>, err: Seq<char>) -> Seq<char> {
    "UNABLE TO READ LOG FILE\n\nPATH: "@ + path + "\n\nERROR: "@ + err
        + "\n\nPossible causes:\n• File does not exist\n• Insufficient permissions\n• Daemon not installed\n\nTry running with elevated privileges or check installation."@
}

/// The view of an empty log file.
pub open spec fn empty_view(path: Seq<char>) -> Seq<char> {
    "LOG FILE IS EMPTY\n\nPATH: "@ + path + "\n\nThe log file exists but contains no content."@
}

/// The view of a log's contents: its lines, or its last `MAX_LOG_LINES`
/// lines under a note saying so.
pub open spec fn tail_view(content: Seq<char>) -> Seq<char> {
    let ls = lines(content);
    if ls.len() > MAX_LOG_LINES {
        "... (showing last 1000 of "@ + decimal(ls.len()) + " lines)\n\n"@ + joined(
            ls.skip(ls.len() - MAX_LOG_LINES),
            "\n"@,
        )
    } else {
        joined(ls, "\n"@)
    }
}

/// The view of a log file from what reading it gave.
pub open spec fn log_view_spec(path: Seq<char>, content: Result<Seq<char>, Seq<char>>) -> Seq<char> {
    match content {
        Err(e) => unreadable_view(path, e),
        Ok(c) => if c.len() == 0 {
            empty_view(path)
        } else {
            tail_view(c)
        },
    }
}

/// The lines of `s[from..]`, joined by newlines.
fn joined_lines_from(ls: &Vec<Vec<char>>, from: usize) -> (r: String)
    requires
        from <= ls@.len(),
    ensures
        r@ == joined(ls@.map_values(|v: Vec<char>| v@).skip(from as int), "\n"@),
{
    let ghost lv = ls@.map_values(|v: Vec<char>| v@);
    let mut parts: Vec<String> = Vec::new();
    let mut i = from;
    while i < ls.len()
        invariant
            lv == ls@.map_values(|v: Vec<char>| v@),
            from <= i <= ls@.len(),
            views(parts@) == lv.subrange(from as int, i as int),
        decreases ls.len() - i,
    {
        let ghost before = views(parts@);
        parts.push(string_of(&ls[i]));
        assert(views(parts@) =~= before.push(lv[i as int]));
        assert(lv.subrange(from as int, i + 1) =~= lv.subrange(from as int, i as int).push(lv[i as int]));
        i += 1;
    }
    assert(lv.subrange(from as int, i as int) =~= lv.skip(from as int));
    join_strings(&parts, "\n")
}

/// The text a log tab shows for a file (see `log_view_spec`), and, when the
/// file could be read, the number of lines of that text.
pub fn log_view(path: &str, content: Result<&str, &str>) -> (r: (String, Option<usize>))
    ensures
        r.0@ == log_view_spec(
            path@,
            match content {
                Ok(c) => Ok(c@),
                Err(e) => Err(e@),
            },
        ),
        content is Err <==> r.1 is None,
        r.1 matches Some(n) ==> n == lines(r.0@).len(),
{
    let c = match content {
        Err(e) => {
            let mut s = String::from_str("UNABLE TO READ LOG FILE\n\nPATH: ");
            push_str(&mut s, path);
            push_str(&mut s, "\n\nERROR: ");
            push_str(&mut s, e);
            push_str(
                &mut s,
                "\n\nPossible causes:\n• File does not exist\n• Insufficient permissions\n• Daemon not installed\n\nTry running with elevated privileges or check installation.",
            );
            return (s, None);
        },
        Ok(c) => c,
    };
    let cv = chars_of(c);
    let text = if cv.len() == 0 {
        let mut s = String::from_str("LOG FILE IS EMPTY\n\nPATH: ");
        push_str(&mut s, path);
        push_str(&mut s, "\n\nThe log file exists but contains no content.");
        s
    } else {
        let ls = split_lines(&cv);
        let ghost lv = ls@.map_values(|v: Vec<char>| v@);
        assert(lv =~= lines(c@));
        if ls.len() > MAX_LOG_LINES {
            let body = joined_lines_from(&ls, ls.len() - MAX_LOG_LINES);
            let mut s = String::from_str("... (showing last 1000 of ");
            push_decimal(&mut s, ls.len() as u64);
            push_str(&mut s, " lines)\n\n");
            push_str(&mut s, body.as_str());
            s
        } else {
            let body = joined_lines_from(&ls, 0);
            assert(lv.skip(0) =~= lv);
            body
        }
    };
    let n = split_lines(&chars_of(text.as_str())).len();
    (text, Some(n))
}

/// The scroll position of a log view after drawing: a grown log on the
/// Logs tab scrolls to its end; the position then stays within the text
/// (positions counted as the terminal's 16-bit scroll offsets).
pub open spec fn followed_scroll(
    scroll: u16,
    changed: bool,
    grew: bool,
    on_logs: bool,
    content_lines: nat,
    visible: nat,
) -> u16 {
    let below: nat = if content_lines > visible {
        (content_lines - visible) as nat
    } else {
        0
    };
    let max = (below % 65536) as u16;
    let s = if changed && grew && on_logs {
        max
    } else {
        scroll
    };
    if s > max {
        max
    } else {
        s
    }
}

/// The scroll position of a log view after drawing (see `followed_scroll`).
pub fn follow_scroll(scroll: u16, changed: bool, grew: bool, on_logs: bool, content_lines: usize, visible: usize) -> (r: u16)
    ensures
        r == followed_scroll(scroll, changed, grew, on_logs, content_lines as nat, visible as nat),
{
    let below: usize = if content_lines > visible {
        content_lines - visible
    } else {
        0
    };
    let max = (below % 65536) as u16;
    let s = if changed && grew && on_logs {
        max
    } else {
        scroll
    };
    if s > max {
        max
    } else {
        s
    }
}

/// The log file to show: the current one while it is available, else the
/// first available one (and then the view starts over).
pub fn selected_log(available: &Vec<usize>, current: usize) -> (r: (usize, bool))
    ensures
        available@.len() > 0 && !available@.contains(current) ==> r == (available@[0], true),
        !(available@.len() > 0 && !available@.contains(current)) ==> r == (current, false),
{
    if available.len() == 0 {
        return (current, false);
    }
    let mut i: usize = 0;
    while i < available.len()
        invariant
            i <= available@.len(),
            forall|j: int| 0 <= j < i ==> available@[j] != current,
        decreases available.len() - i,
    {
        if available[i] == current {
            return (current, false);
        }
        i += 1;
    }
    (available[0], true)
}

/// The first position of `current` among the available logs, if any.
pub open spec fn log_position(available: Seq<usize>, current: usize) -> Option<int> {
    if available.contains(current) {
        Some(choose|p: int| 0 <= p < available.len() && available[p] == current && forall|q: int|
            0 <= q < p ==> available[q] != current)
    } else {
        None
    }
}

proof fn lemma_log_position_is(available: Seq<usize>, current: usize, i: int)
    requires
        0 <= i < available.len(),
        available[i] == current,
        forall|j: int| 0 <= j < i ==> available[j] != current,
    ensures
        log_position(available, current) == Some(i),
{
    assert(available.contains(current));
    let p = choose|p: int| 0 <= p < available.len() && available[p] == current && forall|q: int|
        0 <= q < p ==> available[q] != current;
    assert(0 <= p < available.len() && available[p] == current && forall|q: int|
        0 <= q < p ==> available[q] != current);
    if p < i {
        assert(available[p] != current);
    }
    if i < p {
        assert(available[i] != current);
    }
}

/// The log a key action picks: left and right step through the available
/// logs (wrapping around; from a log that is not available to the first),
/// a digit picks the Nth available log; otherwise the current one stays.
pub open spec fn picked_log(available: Seq<usize>, current: usize, action: KeyAction) -> usize {
    let n = available.len();
    match action {
        KeyAction::PrevLog => if n == 0 {
            current
        } else {
            match log_position(available, current) {
                Some(p) => available[(p + n - 1) % (n as int)],
                None => available[0],
            }
        },
        KeyAction::NextLog => if n == 0 {
            current
        } else {
            match log_position(available, current) {
                Some(p) => available[(p + 1) % (n as int)],
                None => available[0],
            }
        },
        KeyAction::SelectLog(k) => if (k as nat) < n {
            available[k as int]
        } else {
            current
        },
        _ => current,
    }
}

/// The log a key action picks (see `picked_log`).
pub fn pick_log(available: &Vec<usize>, current: usize, action: KeyAction) -> (r: usize)
    ensures
        r == picked_log(available@, current, action),
{
    let n = available.len();
    match action {
        KeyAction::SelectLog(k) => {
            if (k as usize) < n {
                available[k as usize]
            } else {
                current
            }
        },
        KeyAction::PrevLog | KeyAction::NextLog => {
            if n == 0 {
                return current;
            }
            let mut i: usize = 0;
            while i < n
                invariant
                    n == available@.len(),
                    0 < n,
                    i <= n,
                    action == KeyAction::PrevLog || action == KeyAction::NextLog,
                    forall|j: int| 0 <= j < i ==> available@[j] != current,
                decreases n - i,
            {
                if available[i] == current {
                    proof {
                        lemma_log_position_is(available@, current, i as int);
                    }
                    let to = if action == KeyAction::NextLog {
                        if i + 1 == n {
                            0
                        } else {
                            i + 1
                        }
                    } else if i == 0 {
                        n - 1
                    } else {
                        i - 1
                    };
                    proof {
                        if action == KeyAction::NextLog {
                            if i + 1 < n {
                                vstd::arithmetic::div_mod::lemma_small_mod((i + 1) as nat, n as nat);
                            } else {
                                vstd::arithmetic::div_mod::lemma_mod_self_0(n as int);
                            }
                            assert(to == (i + 1) % (n as int));
                        } else {
                            if i == 0 {
                                vstd::arithmetic::div_mod::lemma_small_mod((n - 1) as nat, n as nat);
                            } else {
                                vstd::arithmetic::div_mod::lemma_mod_add_multiples_vanish(i - 1, n as int);
                                vstd::arithmetic::div_mod::lemma_small_mod((i - 1) as nat, n as nat);
                            }
                            assert(to == (i + n - 1) % (n as int));
                        }
                    }
                    return available[to];
                }
                i += 1;
            }
            assert(!available@.contains(current));
            available[0]
        },
        _ => current,
    }
}

/// The label of a log file's tab: `[N]`, or `[N*]` for the shown one.
pub fn log_tab_label(index: usize, selected: bool) -> (r: String)
    ensures
        r@ == "["@ + decimal(index as nat) + (if selected {
            "*]"@
        } else {
            "]"@
        }),
{
    let mut s = String::from_str("[");
    push_decimal(&mut s, index as u64);
    if selected {
        push_str(&mut s, "*]");
    } else {
        push_str(&mut s, "]");
    }
    s
}

/// The title of the log view: ` LOG FILE <N>: <file name> `.
pub fn log_title(index: usize, file_name: &str) -> (r: String)
    ensures
        r@ == " LOG FILE "@ + decimal(index as nat) + ": "@ + file_name@ + " "@,
{
    let mut s = String::from_str(" LOG FILE ");
    push_decimal(&mut s, index as u64);
    push_str(&mut s, ": ");
    push_str(&mut s, file_name);
    push_str(&mut s, " ");
    s
}

/// What the Config tab shows: the config file, or why it is missing.
pub fn config_view(content: Option<&str>) -> (r: String)
    ensures
        r@ == match content {
            Some(c) => c@,
            None => "CONFIG FILE NOT FOUND OR ACCESS DENIED\n\nPATH: /var/opt/lsiagent/lsiagent.cfg\n\nThis file contains LSI Agent configuration settings.\nEnsure the daemon is properly installed and you have read permissions.\n\nYou can also check the example config file at: ./example/lsiagent.cfg"@,
        },
{
    match content {
        Some(c) => String::from_str(c),
        None => String::from_str(
            "CONFIG FILE NOT FOUND OR ACCESS DENIED\n\nPATH: /var/opt/lsiagent/lsiagent.cfg\n\nThis file contains LSI Agent configuration settings.\nEnsure the daemon is properly installed and you have read permissions.\n\nYou can also check the example config file at: ./example/lsiagent.cfg",
        ),
    }
}

/// The status bar: the keys, how the daemon is managed, the refresh
/// interval, and the scrolling keys of the Config and Logs tabs.
pub open spec fn status_bar_spec(systemctl: bool, interval_ms: u64, tab: Tab) -> Seq<char> {
    let base = " [F1-F6] NAV | [H/L/J/K] MOVE | [S] START | [X] STOP | [R] REFRESH | [Q] QUIT | [MOUSE] CLICK TABS | MODE: "@
        + (if systemctl {
        "SYSTEMCTL"@
    } else {
        "DIRECT"@
    }) + " | INTERVAL: "@ + decimal(interval_ms as nat) + "ms "@;
    match tab {
        Tab::Config => base + " | [↑/↓] SCROLL | [PgUp/PgDn] PAGE | [MOUSE] WHEEL "@,
        Tab::Logs => base
            + " | [↑/↓] SCROLL | [PgUp/PgDn] PAGE | [MOUSE] WHEEL+TABS | [←/→] LOG FILE | [0-9] SELECT FILE "@,
        _ => base,
    }
}

/// Executable `status_bar_spec`.
pub fn status_bar(systemctl: bool, interval_ms: u64, tab: Tab) -> (r: String)
    ensures
        r@ == status_bar_spec(systemctl, interval_ms, tab),
{
    let mut s = String::from_str(
        " [F1-F6] NAV | [H/L/J/K] MOVE | [S] START | [X] STOP | [R] REFRESH | [Q] QUIT | [MOUSE] CLICK TABS | MODE: ",
    );
    if systemctl {
        push_str(&mut s, "SYSTEMCTL");
    } else {
        push_str(&mut s, "DIRECT");
    }
    push_str(&mut s, " | INTERVAL: ");
    push_decimal(&mut s, interval_ms);
    push_str(&mut s, "ms ");
    match tab {
        Tab::Config => push_str(&mut s, " | [↑/↓] SCROLL | [PgUp/PgDn] PAGE | [MOUSE] WHEEL "),
        Tab::Logs => push_str(
            &mut s,
            " | [↑/↓] SCROLL | [PgUp/PgDn] PAGE | [MOUSE] WHEEL+TABS | [←/→] LOG FILE | [0-9] SELECT FILE ",
        ),
        _ => {},
    }
    s
}

} // verus!
