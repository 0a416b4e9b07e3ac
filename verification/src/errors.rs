//! Error kinds of the telemetry tooling and the log manager, with the
//! messages they are shown with.

use vstd::prelude::*;
use crate::num::{decimal, push_decimal};
use crate::text::push_str;

verus! {

/// Telemetry failures. Wrapped outside errors are held by their message.
#[derive(Debug)]
pub enum TelemetryError {
    Io(String),
    SystemInfo(String),
    Process(String),
    Network(String),
    WebSocket(String),
    Config(String),
    DaemonNotRunning,
    DaemonAlreadyRunning,
    Unknown(String),
}

/// `prefix` followed by `detail`.
fn prefixed(prefix: &str, detail: &str) -> (r: String)
    ensures
        r@ == prefix@ + detail@,
{
    let mut s = String::from_str(prefix);
    push_str(&mut s, detail);
    s
}

/// The message of a `TelemetryError`.
pub open spec fn telemetry_message(e: TelemetryError) -> Seq<char> {
    match e {
        TelemetryError::Io(s) => "IO error: "@ + s@,
        TelemetryError::SystemInfo(s) => "System info error: "@ + s@,
        TelemetryError::Process(s) => "Process error: "@ + s@,
        TelemetryError::Network(s) => "Network error: "@ + s@,
        TelemetryError::WebSocket(s) => "WebSocket error: "@ + s@,
        TelemetryError::Config(s) => "Configuration error: "@ + s@,
        TelemetryError::DaemonNotRunning => "Daemon not running"@,
        TelemetryError::DaemonAlreadyRunning => "Daemon already running"@,
        TelemetryError::Unknown(s) => "Unknown error: "@ + s@,
    }
}

impl TelemetryError {
    /// The message shown for the error.
    pub fn message(&self) -> (r: String)
        ensures
            r@ == telemetry_message(*self),
    {
        match self {
            TelemetryError::Io(s) => prefixed("IO error: ", s.as_str()),
            TelemetryError::SystemInfo(s) => prefixed("System info error: ", s.as_str()),
            TelemetryError::Process(s) => prefixed("Process error: ", s.as_str()),
            TelemetryError::Network(s) => prefixed("Network error: ", s.as_str()),
            TelemetryError::WebSocket(s) => prefixed("WebSocket error: ", s.as_str()),
            TelemetryError::Config(s) => prefixed("Configuration error: ", s.as_str()),
            TelemetryError::DaemonNotRunning => String::from_str("Daemon not running"),
            TelemetryError::DaemonAlreadyRunning => String::from_str("Daemon already running"),
            TelemetryError::Unknown(s) => prefixed("Unknown error: ", s.as_str()),
        }
    }
}

/// Log manager failures. An outside I/O error is held by its message.
#[derive(Debug)]
pub enum LogManagerError {
    FileOpenError { path: String, source: String },
    InvalidPath(String),
    ReadError(String),
    PermissionDenied(String),
    FileNotFound(String),
    ParseError { line: usize, details: String },
}

/// The message of a `LogManagerError`.
pub open spec fn log_manager_message(e: LogManagerError) -> Seq<char> {
    match e {
        LogManagerError::FileOpenError { path, source } => "Failed to open log file at "@ + path@
            + ": "@ + source@,
        LogManagerError::InvalidPath(s) => "Invalid log file path: "@ + s@,
        LogManagerError::ReadError(s) => "Failed to read log file: "@ + s@,
        LogManagerError::PermissionDenied(s) => "Permission denied for file: "@ + s@,
        LogManagerError::FileNotFound(s) => "Log file not found: "@ + s@,
        LogManagerError::ParseError { line, details } => "Invalid log entry format at line "@
            + decimal(line as nat) + ": "@ + details@,
    }
}

impl LogManagerError {
    /// The message shown for the error.
    pub fn message(&self) -> (r: String)
        ensures
            r@ == log_manager_message(*self),
    {
        match self {
            LogManagerError::FileOpenError { path, source } => {
                let mut s = prefixed("Failed to open log file at ", path.as_str());
                push_str(&mut s, ": ");
                push_str(&mut s, source.as_str());
                s
            },
            LogManagerError::InvalidPath(s) => prefixed("Invalid log file path: ", s.as_str()),
            LogManagerError::ReadError(s) => prefixed("Failed to read log file: ", s.as_str()),
            LogManagerError::PermissionDenied(s) => prefixed(
                "Permission denied for file: ",
                s.as_str(),
            ),
            LogManagerError::FileNotFound(s) => prefixed("Log file not found: ", s.as_str()),
            LogManagerError::ParseError { line, details } => {
                let mut s = String::from_str("Invalid log entry format at line ");
                push_decimal(&mut s, *line as u64);
                push_str(&mut s, ": ");
                push_str(&mut s, details.as_str());
                s
            },
        }
    }
}

/// What the file system says about a candidate log path.
pub enum PathFacts {
    /// Nothing exists there.
    Missing,
    /// Something other than a regular file exists there.
    NotAFile,
    /// A regular file whose metadata could not be read; the error message.
    Unreadable(String),
    /// A regular file with these Unix permission bits.
    File(u32),
}

/// Check that a log path names a readable regular file: missing paths,
/// non-files, unreadable metadata and files with no read bit are refused.
pub fn validate_log_path(path: &str, facts: PathFacts) -> (r: Result<(), LogManagerError>)
    ensures
        match facts {
            PathFacts::Missing => r matches Err(LogManagerError::FileNotFound(p)) && p@ == path@,
            PathFacts::NotAFile => r matches Err(LogManagerError::InvalidPath(m))
                && m@ == "Path does not point to a file"@,
            PathFacts::Unreadable(e) => r matches Err(LogManagerError::FileOpenError { path: p, source: s })
                && p@ == path@ && s@ == e@,
            PathFacts::File(mode) => if mode & 0o444 == 0 {
                r matches Err(LogManagerError::PermissionDenied(p)) && p@ == path@
            } else {
                r is Ok
            },
        },
{
    match facts {
        PathFacts::Missing => Err(LogManagerError::FileNotFound(String::from_str(path))),
        PathFacts::NotAFile => Err(
            LogManagerError::InvalidPath(String::from_str("Path does not point to a file")),
        ),
        PathFacts::Unreadable(e) => Err(
            LogManagerError::FileOpenError { path: String::from_str(path), source: e },
        ),
        PathFacts::File(mode) => {
            if mode & 0o444 == 0 {
                Err(LogManagerError::PermissionDenied(String::from_str(path)))
            } else {
                Ok(())
            }
        },
    }
}

} // verus!
