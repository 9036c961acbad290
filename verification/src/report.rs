//! What the log is told.
use vstd::prelude::*;
use vstd::string::*;

verus! {

/// How urgent a log line is.
#[derive(Debug, Clone, Copy, PartialEq, Eq, Structural)]
pub enum LogLevel {
    Info,
    Error,
}

/// How the task that serves the interface ended.
#[derive(Debug, Clone, Copy, PartialEq, Eq, Structural)]
pub enum ApiExit {
    Finished,
    Failed,
    Panicked,
}

/// What the log is told when the task that serves the interface ends; `when` follows the
/// text.
pub fn log_api_exit(exit: ApiExit, when: &str) -> (r: (LogLevel, String))
    ensures
        r.0 == (if exit == ApiExit::Finished {
            LogLevel::Info
        } else {
            LogLevel::Error
        }),
        r.1@ == (match exit {
            ApiExit::Finished => "API server exited"@,
            ApiExit::Failed => "API server exited with error"@,
            ApiExit::Panicked => "API server task panicked"@,
        }) + when@,
{
    let (level, text) = match exit {
        ApiExit::Finished => (LogLevel::Info, "API server exited"),
        ApiExit::Failed => (LogLevel::Error, "API server exited with error"),
        ApiExit::Panicked => (LogLevel::Error, "API server task panicked"),
    };
    let mut line: String = text.to_owned();
    line.append(when);
    (level, line)
}

/// What was read, or the error and what the log is told of it.
pub fn read_or_skip<T, E>(result: Result<T, E>, what: &str) -> (r: Result<T, (E, String)>)
    ensures
        match (result, r) {
            (Ok(v), Ok(w)) => v == w,
            (Err(e), Err((f, line))) => e == f && line@ == "failed to read "@ + what@
                + "; skipping tick"@,
            _ => false,
        },
{
    match result {
        Ok(v) => Ok(v),
        Err(e) => {
            let mut line: String = "failed to read ".to_owned();
            line.append(what);
            line.append("; skipping tick");
            Err((e, line))
        },
    }
}

} // verus!
