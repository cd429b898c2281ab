//! Command-line values: the scan method, path arguments, and log labels.
use crate::paths::{expand_path, expanded, is_abs};
use vstd::prelude::*;
use vstd::string::*;

verus! {

/// Enumeration specifying filesystem scan method for modified files.
#[derive(Debug, Clone, Copy, PartialEq, Eq, Structural)]
pub enum FSScan {
    /// Recursive walking of the filesystem.
    Stat,
    /// Query the list of modified files from a change-notification service.
    Watchman,
    /// Try the change-notification service, and fall back on a walk should it fail.
    Auto,
}

/// Returns true if both strings hold the same characters.
pub fn str_eq(a: &str, b: &str) -> (r: bool)
    ensures
        r == (a@ == b@),
{
    let x = String::from_str(a);
    let y = String::from_str(b);
    x == y
}

impl FSScan {
    /// Reads a scan method from its name: `stat`, `watchman` or `auto`.
    pub fn parse(s: &str) -> (r: Result<FSScan, String>)
        ensures
            s@ == "stat"@ <==> r == Ok::<FSScan, String>(FSScan::Stat),
            s@ == "watchman"@ <==> r == Ok::<FSScan, String>(FSScan::Watchman),
            s@ == "auto"@ <==> r == Ok::<FSScan, String>(FSScan::Auto),
            r matches Err(e) ==> e@ == "Unknown file-system scan method: "@ + s@,
    {
        proof {
            reveal_strlit("stat");
            reveal_strlit("watchman");
            reveal_strlit("auto");
            assert("stat"@.len() != "watchman"@.len());
            assert("auto"@.len() != "watchman"@.len());
            assert("auto"@[0] != "stat"@[0]);
        }
        if str_eq(s, "stat") {
            Ok(FSScan::Stat)
        } else if str_eq(s, "watchman") {
            Ok(FSScan::Watchman)
        } else if str_eq(s, "auto") {
            Ok(FSScan::Auto)
        } else {
            let mut e = String::from_str("Unknown file-system scan method: ");
            e.append(s);
            Err(e)
        }
    }
}

impl std::str::FromStr for FSScan {
    type Err = String;

    fn from_str(s: &str) -> Result<FSScan, String> {
        FSScan::parse(s)
    }
}

/// Makes a path argument absolute against the current directory `cwd`, without
/// resolving symlinks.
pub fn parse_path(s: &str, cwd: &str) -> (r: String)
    requires
        is_abs(cwd@),
    ensures
        r@ == expanded(s@, cwd@),
{
    expand_path(s, cwd)
}

/// The severity of a log record.
#[derive(Debug, Clone, Copy, PartialEq, Eq, Structural)]
pub enum LogLevel {
    /// Very detailed
    Trace,
    /// Detailed
    Debug,
    /// Informational
    Info,
    /// Warning
    Warn,
    /// Error
    Error,
}

/// Log output that labels each record with its level.
#[derive(Debug, Clone, Copy, PartialEq, Eq, Structural)]
pub struct CustomLog {}

/// The label printed before a record of the given level.
pub open spec fn label_of(level: LogLevel) -> Seq<char> {
    match level {
        LogLevel::Trace => "[DEBUG]"@,
        LogLevel::Debug => "[DEBUG]"@,
        LogLevel::Info => "[INFO]"@,
        LogLevel::Warn => "[WARN]"@,
        LogLevel::Error => "[ERR]"@,
    }
}

impl CustomLog {
    /// Every record is shown: the level filter is set elsewhere.
    pub fn enabled(&self, level: LogLevel) -> (r: bool)
        ensures
            r,
    {
        true
    }

    /// The label printed before a record of the given level; trace records are shown
    /// as debug ones.
    pub fn label(&self, level: LogLevel) -> (r: &'static str)
        ensures
            r@ == label_of(level),
    {
        match level {
            LogLevel::Trace => "[DEBUG]",
            LogLevel::Debug => "[DEBUG]",
            LogLevel::Info => "[INFO]",
            LogLevel::Warn => "[WARN]",
            LogLevel::Error => "[ERR]",
        }
    }
}

} // verus!
