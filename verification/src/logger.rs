//! The lines of the log.

use vstd::prelude::*;
use vstd::string::*;

verus! {

/// How much a message matters.
#[derive(Clone, Copy, PartialEq, Eq, Structural, Debug)]
pub enum Level {
    Error,
    Warn,
    Info,
    Debug,
    Trace,
}

/// The levels in order: the higher the rank, the less a message matters.
pub open spec fn rank(level: Level) -> int {
    match level {
        Level::Error => 1,
        Level::Warn => 2,
        Level::Info => 3,
        Level::Debug => 4,
        Level::Trace => 5,
    }
}

/// What the lines of a level begin with.
pub open spec fn level_name(level: Level) -> Seq<char> {
    match level {
        Level::Error => "error"@,
        Level::Warn => "warn"@,
        Level::Info => "info"@,
        Level::Debug => "debug"@,
        Level::Trace => "trace"@,
    }
}

/// The last level that is logged: a release build leaves out what serves debugging.
pub open spec fn last_level(debug_build: bool) -> Level {
    if debug_build {
        Level::Trace
    } else {
        Level::Info
    }
}

/// Whether messages of a level are logged.
pub open spec fn is_logged(level: Level, debug_build: bool) -> bool {
    rank(level) <= rank(last_level(debug_build))
}

/// The line of a message, without its newline.
pub open spec fn log_line(level: Level, message: Seq<char>) -> Seq<char> {
    level_name(level) + ": "@ + message
}

/// Where the lines of the log go.
#[derive(Clone, Copy, PartialEq, Eq, Structural, Debug)]
pub enum Destination {
    /// The file of the log.
    File,
    /// The standard error stream.
    Stderr,
}

/// What is said when the file of the log cannot be opened.
pub open spec fn no_file_text(file_path: Seq<char>, reason: Seq<char>) -> Seq<char> {
    "warn: failed to open log file '"@ + file_path + "': "@ + reason
        + ", falling back to stderr logger"@
}

/// Makes the lines of the log.
#[derive(Debug)]
pub struct Logger;

impl Logger {
    /// Starts the log: the last level to log, or why there is no log, by what came of putting it in
    /// place.
    pub fn init(placed: Result<(), String>, debug_build: bool) -> (out: Result<Level, String>)
        ensures
            match (placed, out) {
                (Ok(_), Ok(level)) => {
                    &&& level == last_level(debug_build)
                    &&& debug_build ==> level == Level::Trace
                    &&& !debug_build ==> level == Level::Info
                },
                (Err(reason), Err(message)) => message@ == "Failed to initialize logger backend: "@
                    + reason@,
                _ => false,
            },
    {
        match placed {
            Ok(_) => Ok(Logger::max_level(debug_build)),
            Err(reason) => {
                let mut message: String = "Failed to initialize logger backend: ".to_owned();
                message.append(reason.as_str());
                Err(message)
            },
        }
    }

    /// What is said when the file of the log cannot be opened.
    pub fn no_file(file_path: &str, reason: &str) -> (warning: String)
        ensures
            warning@ == no_file_text(file_path@, reason@),
            warning@ == "warn: failed to open log file '"@ + file_path@ + "': "@ + reason@
                + ", falling back to stderr logger"@,
    {
        let mut warning: String = "warn: failed to open log file '".to_owned();
        warning.append(file_path);
        warning.append("': ");
        warning.append(reason);
        warning.append(", falling back to stderr logger");
        warning
    }

    /// Where the log goes, by what came of opening its file. A file that cannot be opened is no
    /// error: the log then goes to the standard error stream, and a warning is given.
    pub fn opened(file_path: &str, file: Result<(), String>) -> (out: (Destination, Option<String>))
        ensures
            match file {
                Ok(_) => out.0 == Destination::File && out.1 is None,
                Err(reason) => {
                    &&& out.0 == Destination::Stderr
                    &&& out.1 matches Some(warning) && warning@ == no_file_text(file_path@, reason@)
                        && warning@ == "warn: failed to open log file '"@ + file_path@ + "': "@
                        + reason@ + ", falling back to stderr logger"@
                },
            },
    {
        match file {
            Ok(_) => (Destination::File, None),
            Err(reason) => (Destination::Stderr, Some(Logger::no_file(file_path, reason.as_str()))),
        }
    }

    /// Where a line goes: to the file where one is open, or else to the standard error stream.
    pub fn destination(file_is_open: bool) -> (out: Destination)
        ensures
            out == (if file_is_open {
                Destination::File
            } else {
                Destination::Stderr
            }),
    {
        if file_is_open {
            Destination::File
        } else {
            Destination::Stderr
        }
    }

    /// The last level that is logged.
    pub fn max_level(debug_build: bool) -> (level: Level)
        ensures
            level == last_level(debug_build),
            debug_build ==> level == Level::Trace,
            !debug_build ==> level == Level::Info,
    {
        if debug_build {
            Level::Trace
        } else {
            Level::Info
        }
    }

    /// Whether messages of a level are logged.
    pub fn enabled(level: Level, debug_build: bool) -> (logged: bool)
        ensures
            logged == is_logged(level, debug_build),
    {
        match level {
            Level::Error => true,
            Level::Warn => true,
            Level::Info => true,
            Level::Debug => debug_build,
            Level::Trace => debug_build,
        }
    }

    /// The line of a message of the given level, where it is logged.
    pub fn log(level: Level, message: &str, debug_build: bool) -> (line: Option<String>)
        ensures
            match line {
                Some(l) => is_logged(level, debug_build) && l@ == log_line(level, message@),
                None => !is_logged(level, debug_build),
            },
    {
        match level {
            Level::Error => Some(Logger::error(message)),
            Level::Warn => Some(Logger::warn(message)),
            Level::Info => Some(Logger::info(message)),
            Level::Debug => Logger::debug(message, debug_build),
            Level::Trace => Logger::trace(message, debug_build),
        }
    }

    /// The line of a message.
    fn line(name: &str, message: &str) -> (line: String)
        ensures
            line@ == name@ + ": "@ + message@,
    {
        let mut line: String = name.to_owned();
        line.append(": ");
        line.append(message);
        line
    }

    /// The line of a message that follows what the program does; there is none in a release build.
    pub fn trace(message: &str, debug_build: bool) -> (line: Option<String>)
        ensures
            match line {
                Some(l) => debug_build && l@ == log_line(Level::Trace, message@),
                None => !debug_build,
            },
    {
        if debug_build {
            Some(Logger::line("trace", message))
        } else {
            None
        }
    }

    /// The line of a message that serves debugging; there is none in a release build.
    pub fn debug(message: &str, debug_build: bool) -> (line: Option<String>)
        ensures
            match line {
                Some(l) => debug_build && l@ == log_line(Level::Debug, message@),
                None => !debug_build,
            },
    {
        if debug_build {
            Some(Logger::line("debug", message))
        } else {
            None
        }
    }

    /// The line of a message that informs.
    pub fn info(message: &str) -> (line: String)
        ensures
            line@ == log_line(Level::Info, message@),
    {
        Logger::line("info", message)
    }

    /// The line of a message that warns.
    pub fn warn(message: &str) -> (line: String)
        ensures
            line@ == log_line(Level::Warn, message@),
    {
        Logger::line("warn", message)
    }

    /// The line of a message about a failure.
    pub fn error(message: &str) -> (line: String)
        ensures
            line@ == log_line(Level::Error, message@),
    {
        Logger::line("error", message)
    }
}

/// What matters more than a logged message is logged too, and a debug build logs all that a release
/// build logs.
pub proof fn law_what_matters_more_is_logged(level: Level, other: Level, debug_build: bool)
    requires
        is_logged(level, debug_build),
    ensures
        rank(other) <= rank(level) ==> is_logged(other, debug_build),
        is_logged(level, true),
{
}

/// Failures, warnings and information are logged in every build; what serves debugging is logged in
/// a debug build alone.
pub proof fn law_what_each_build_logs(debug_build: bool)
    ensures
        is_logged(Level::Error, debug_build),
        is_logged(Level::Warn, debug_build),
        is_logged(Level::Info, debug_build),
        is_logged(Level::Debug, debug_build) <==> debug_build,
        is_logged(Level::Trace, debug_build) <==> debug_build,
{
}

/// A line of the log is the whole message behind the name of its level, a colon and a space.
pub proof fn law_line_holds_the_whole_message(message: Seq<char>)
    ensures
        log_line(Level::Error, message) == "error: "@ + message,
        log_line(Level::Warn, message) == "warn: "@ + message,
        log_line(Level::Info, message) == "info: "@ + message,
        log_line(Level::Debug, message) == "debug: "@ + message,
        log_line(Level::Trace, message) == "trace: "@ + message,
{
    reveal_strlit(": ");
    reveal_strlit("error");
    reveal_strlit("warn");
    reveal_strlit("info");
    reveal_strlit("debug");
    reveal_strlit("trace");
    reveal_strlit("error: ");
    reveal_strlit("warn: ");
    reveal_strlit("info: ");
    reveal_strlit("debug: ");
    reveal_strlit("trace: ");
    assert("error"@ + ": "@ =~= "error: "@);
    assert("warn"@ + ": "@ =~= "warn: "@);
    assert("info"@ + ": "@ =~= "info: "@);
    assert("debug"@ + ": "@ =~= "debug: "@);
    assert("trace"@ + ": "@ =~= "trace: "@);
}

} // verus!
