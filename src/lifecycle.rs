//! How the process reports the end of one of its long-running tasks.
use vstd::prelude::*;

verus! {

/// The application's public base URL, handed to request handlers.
#[derive(Debug, Clone)]
pub struct ApplicationBaseUrl(pub String);

/// How a long-running task ended.
#[derive(Debug, Clone, PartialEq, Eq)]
pub enum TaskExit {
    /// It returned without error.
    Completed,
    /// It returned an error, described here.
    Failed(String),
    /// It could not run to completion (it panicked or was cancelled).
    Aborted(String),
}

/// The severity of a log record.
#[derive(Debug, Clone, Copy, PartialEq, Eq, Structural)]
pub enum LogLevel {
    Info,
    Error,
}

/// A log record: its level, its message, and the error behind it, if any.
#[derive(Debug, Clone, PartialEq, Eq)]
pub struct ExitReport {
    pub level: LogLevel,
    pub message: String,
    pub cause: Option<String>,
}

/// Which component stopped first, and why.
pub fn report_exit(task_name: &str, outcome: TaskExit) -> (r: ExitReport)
    ensures
        match outcome {
            TaskExit::Completed => r.level == LogLevel::Info && r.message@ == task_name@
                + " has exited"@ && r.cause is None,
            TaskExit::Failed(e) => r.level == LogLevel::Error && r.message@ == task_name@ + " failed"@
                && r.cause == Some(e),
            TaskExit::Aborted(e) => r.level == LogLevel::Error && r.message@ == task_name@
                + "' task failed to complete"@ && r.cause == Some(e),
        },
{
    let mut message = String::from_str(task_name);
    match outcome {
        TaskExit::Completed => {
            message.append(" has exited");
            ExitReport { level: LogLevel::Info, message, cause: None }
        },
        TaskExit::Failed(e) => {
            message.append(" failed");
            ExitReport { level: LogLevel::Error, message, cause: Some(e) }
        },
        TaskExit::Aborted(e) => {
            message.append("' task failed to complete");
            ExitReport { level: LogLevel::Error, message, cause: Some(e) }
        },
    }
}

} // verus!
