//! Converts percent-delimited scripts into cell-based notebook sources and
//! models the edit-session machinery around that conversion: the mapping from
//! a source path to its cached copy, the normalization of the arguments handed
//! to the external notebook editor, and the watch loop that keeps the cached
//! copy in step with live edits.

use vstd::prelude::*;

pub mod convert;
pub mod paths;
pub mod supervise;
pub mod watch;

pub use convert::run_convert_command;
pub use paths::resolve_cache_path;
pub use supervise::find_file_arg;
pub use supervise::normalize_marimo_args;
pub use watch::event_matches;
pub use watch::watch_step;

verus! {

/// The views of a sequence of owned strings.
pub open spec fn str_views(ls: Seq<String>) -> Seq<Seq<char>> {
    ls.map_values(|l: String| l@)
}

/// The failures the library and the surrounding workflow can report.
///
/// Every variant that concerns a file carries the offending path.
#[derive(Debug)]
pub enum ErrorKind {
    /// The configuration file exists but does not parse as configuration.
    BadConfig(String),
    /// The configuration file path exists but is not a regular file.
    ConfigFileNotFile(String),
    /// The argument list for an edit session names no file.
    FileArgMissing,
    /// The source path does not exist.
    FileNotFound(String),
    /// The source path exists but is not a regular file.
    NotAFile(String),
    /// Reading or writing the named path failed.
    Io(String),
    /// The filesystem watch subsystem reported a failure.
    Watch(String),
    /// The filesystem watch subsystem went away: its event channel
    /// disconnected, so edits would no longer propagate.
    WatchDisconnected,
    /// The supervised editor process exited with a failure status.
    MarimoExited(ProcStatus),
    /// The supervised editor process could not be launched.
    MarimoFailedToStart,
}

/// The exit status of the supervised editor process, reduced to what the
/// watch loop reads from it: whether it succeeded, and the numeric code
/// where the operating system reported one.
#[derive(Debug, Clone, Copy)]
pub struct ProcStatus {
    pub success: bool,
    pub code: Option<i32>,
}

} // verus!
