//! Display-side facts of the interactive front ends: where the numbered
//! agent logs live, which of them exist, log levels, and load statuses.

use vstd::prelude::*;
use crate::num::{decimal, push_decimal};
use crate::text::push_str;

verus! {

/// The operating system the front end runs on.
#[derive(Debug, Clone, Copy, PartialEq, Eq, Structural)]
pub enum HostOs {
    Linux,
    MacOs,
    Windows,
    Other,
}

/// Where the `index`-th agent log lives.
pub open spec fn log_file_path_spec(os: HostOs, index: nat) -> Seq<char> {
    match os {
        HostOs::Linux => "/var/opt/lsiagent/lsiagent"@ + decimal(index) + ".log"@,
        HostOs::MacOs => "/Library/Application Support/Lakeside Software/lsiagent.log"@,
        HostOs::Windows => "C:\\Program Files\\Lakeside Software\\LsiAgent"@ + decimal(index)
            + ".log"@,
        HostOs::Other => "/var/log/lsiagent"@ + decimal(index) + ".log"@,
    }
}

/// The log file path for a platform and log file index.
pub fn get_log_file_path(os: HostOs, log_index: usize) -> (r: String)
    ensures
        r@ == log_file_path_spec(os, log_index as nat),
{
    let mut s = String::new();
    match os {
        HostOs::Linux => {
            push_str(&mut s, "/var/opt/lsiagent/lsiagent");
            push_decimal(&mut s, log_index as u64);
            push_str(&mut s, ".log");
        },
        HostOs::MacOs => {
            push_str(&mut s, "/Library/Application Support/Lakeside Software/lsiagent.log");
        },
        HostOs::Windows => {
            push_str(&mut s, "C:\\Program Files\\Lakeside Software\\LsiAgent");
            push_decimal(&mut s, log_index as u64);
            push_str(&mut s, ".log");
        },
        HostOs::Other => {
            push_str(&mut s, "/var/log/lsiagent");
            push_decimal(&mut s, log_index as u64);
            push_str(&mut s, ".log");
        },
    }
    assert(s@ =~= log_file_path_spec(os, log_index as nat));
    s
}

/// How many numbered log slots are probed.
pub const LOG_SLOTS: usize = 10;

/// The indices below `n` whose slot exists, in order.
pub open spec fn existing_indices(exists: Seq<bool>, n: nat) -> Seq<usize>
    decreases n,
{
    if n == 0 {
        Seq::empty()
    } else {
        let rest = existing_indices(exists, (n - 1) as nat);
        if exists[n - 1] {
            rest.push((n - 1) as usize)
        } else {
            rest
        }
    }
}

/// Which of the numbered log files exist: `exists[i]` says whether
/// `get_log_file_path(os, i)` exists, for `i` in `0..LOG_SLOTS`.
pub fn get_available_log_files(exists: &Vec<bool>) -> (r: Vec<usize>)
    requires
        exists@.len() == LOG_SLOTS,
    ensures
        r@ == existing_indices(exists@, LOG_SLOTS as nat),
{
    let mut available: Vec<usize> = Vec::new();
    let mut i: usize = 0;
    while i < LOG_SLOTS
        invariant
            exists@.len() == LOG_SLOTS,
            i <= LOG_SLOTS,
            available@ == existing_indices(exists@, i as nat),
        decreases LOG_SLOTS - i,
    {
        if exists[i] {
            available.push(i);
        }
        i += 1;
    }
    available
}

/// The level of an agent log line (`-I`, `-W`, `-E`, `-1`..`-5`).
#[derive(Debug, Clone, Copy, PartialEq, Eq, Structural)]
pub enum LogLevel {
    Info,
    Warning,
    Error,
    One,
    Two,
    Three,
    Four,
    Five,
}

/// How a level is shown.
pub open spec fn level_label(l: LogLevel) -> Seq<char> {
    match l {
        LogLevel::Info => "Info"@,
        LogLevel::Warning => "Warning"@,
        LogLevel::Error => "Error"@,
        LogLevel::One => "-1"@,
        LogLevel::Two => "-2"@,
        LogLevel::Three => "-3"@,
        LogLevel::Four => "-4"@,
        LogLevel::Five => "-5"@,
    }
}

/// The level a line's level token names.
pub open spec fn level_of_token(t: Seq<char>) -> Option<LogLevel> {
    if t == "-I"@ {
        Some(LogLevel::Info)
    } else if t == "-W"@ {
        Some(LogLevel::Warning)
    } else if t == "-E"@ {
        Some(LogLevel::Error)
    } else if t == "-1"@ {
        Some(LogLevel::One)
    } else if t == "-2"@ {
        Some(LogLevel::Two)
    } else if t == "-3"@ {
        Some(LogLevel::Three)
    } else if t == "-4"@ {
        Some(LogLevel::Four)
    } else if t == "-5"@ {
        Some(LogLevel::Five)
    } else {
        None
    }
}

impl LogLevel {
    /// How the level is shown.
    pub fn label(&self) -> (r: &'static str)
        ensures
            r@ == level_label(*self),
    {
        match self {
            LogLevel::Info => "Info",
            LogLevel::Warning => "Warning",
            LogLevel::Error => "Error",
            LogLevel::One => "-1",
            LogLevel::Two => "-2",
            LogLevel::Three => "-3",
            LogLevel::Four => "-4",
            LogLevel::Five => "-5",
        }
    }

    /// The level a level token names (`-I`, `-W`, `-E`, `-1`..`-5`).
    pub fn from_token(token: &str) -> (r: Option<LogLevel>)
        ensures
            r == level_of_token(token@),
    {
        proof {
            reveal_strlit("-I");
            reveal_strlit("-W");
            reveal_strlit("-E");
            reveal_strlit("-1");
            reveal_strlit("-2");
            reveal_strlit("-3");
            reveal_strlit("-4");
            reveal_strlit("-5");
            assert("-I"@ =~= seq!['-', 'I']);
            assert("-W"@ =~= seq!['-', 'W']);
            assert("-E"@ =~= seq!['-', 'E']);
            assert("-1"@ =~= seq!['-', '1']);
            assert("-2"@ =~= seq!['-', '2']);
            assert("-3"@ =~= seq!['-', '3']);
            assert("-4"@ =~= seq!['-', '4']);
            assert("-5"@ =~= seq!['-', '5']);
        }
        let v = crate::text::chars_of(token);
        if v.len() != 2 || v[0] != '-' {
            assert(v@.len() != 2 || v@[0] != '-');
            return None;
        }
        assert(v@ =~= seq!['-', v@[1]]);
        match v[1] {
            'I' => Some(LogLevel::Info),
            'W' => Some(LogLevel::Warning),
            'E' => Some(LogLevel::Error),
            '1' => Some(LogLevel::One),
            '2' => Some(LogLevel::Two),
            '3' => Some(LogLevel::Three),
            '4' => Some(LogLevel::Four),
            '5' => Some(LogLevel::Five),
            _ => None,
        }
    }
}

/// How a load status is shown.
#[derive(Debug, Clone, Copy, PartialEq, Eq, Structural)]
pub enum StatusLevel {
    Unset,
    Success,
    Warning,
    Error,
}

impl Default for StatusLevel {
    fn default() -> (r: Self)
        ensures
            r == StatusLevel::Unset,
    {
        StatusLevel::Unset
    }
}

/// The outcome of loading a file, shown until it times out.
#[derive(Debug)]
pub struct FileLoadStatus {
    pub message: String,
    pub level: StatusLevel,
    /// When the status was set, in milliseconds of a monotonic clock.
    pub timestamp_ms: Option<u64>,
}

impl Default for FileLoadStatus {
    fn default() -> (r: Self)
        ensures
            r.message@.len() == 0,
            r.level == StatusLevel::Unset,
            r.timestamp_ms is None,
    {
        FileLoadStatus { message: String::new(), level: StatusLevel::Unset, timestamp_ms: None }
    }
}

} // verus!
