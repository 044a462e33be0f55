//! What is logged, where to, and in which form.

use vstd::prelude::*;
use vstd::string::StringExecFns;
use crate::text::{chars_of, same, starts, starts_with};

verus! {

/// How much is logged, from the least to the most.
#[derive(Debug, PartialEq, Eq, Clone, Copy, Structural)]
pub enum LogLevel {
    Warn,
    Info,
    Debug,
    Trace,
}

/// The levels of a run: the level of everything, and the level of the
/// sources that are known to say too much, where they get one of their own.
#[derive(Debug, PartialEq, Eq, Clone, Copy, Structural)]
pub struct LogSetup {
    pub level: LogLevel,
    pub verbose_sources: Option<LogLevel>,
}

/// The levels for the verbosity `verbosity`: `Info` without any, `Debug` at
/// 1 and 2, `Trace` from 3 on. Up to 1 the sources that say too much are
/// kept one level below.
pub open spec fn levels(verbosity: u64) -> LogSetup {
    if verbosity == 0 {
        LogSetup { level: LogLevel::Info, verbose_sources: Some(LogLevel::Warn) }
    } else if verbosity == 1 {
        LogSetup { level: LogLevel::Debug, verbose_sources: Some(LogLevel::Info) }
    } else if verbosity == 2 {
        LogSetup { level: LogLevel::Debug, verbose_sources: None }
    } else {
        LogSetup { level: LogLevel::Trace, verbose_sources: None }
    }
}

/// The levels for the verbosity `verbosity`.
pub fn setup_logging(verbosity: u64) -> (r: LogSetup)
    ensures
        r == levels(verbosity),
{
    if verbosity == 0 {
        LogSetup { level: LogLevel::Info, verbose_sources: Some(LogLevel::Warn) }
    } else if verbosity == 1 {
        LogSetup { level: LogLevel::Debug, verbose_sources: Some(LogLevel::Info) }
    } else if verbosity == 2 {
        LogSetup { level: LogLevel::Debug, verbose_sources: None }
    } else {
        LogSetup { level: LogLevel::Trace, verbose_sources: None }
    }
}

/// The log file takes what the library says: the source is the library or
/// one of its modules.
pub fn logs_to_file(target: &str) -> (r: bool)
    ensures
        r == (target@ == "adbackup"@ || starts_with(target@, "adbackup::"@)),
{
    let source = chars_of(target);
    let library = chars_of("adbackup");
    let module = chars_of("adbackup::");
    same(&source, &library) || starts(&source, &module)
}

/// The console takes what the command line tool says.
pub fn logs_to_console(target: &str) -> (r: bool)
    ensures
        r == starts_with(target@, "adbackup_cli"@),
{
    let source = chars_of(target);
    let tool = chars_of("adbackup_cli");
    starts(&source, &tool)
}

/// A line of the log file: the time, the source and the level, each in
/// brackets of its own, then the message.
pub fn file_line(time: &str, target: &str, level: &str, message: &str) -> (r: String)
    ensures
        r@ == time@ + "["@ + target@ + "]["@ + level@ + "] "@ + message@,
{
    String::from_str(time).concat("[").concat(target).concat("][").concat(level).concat(
        "] ",
    ).concat(message)
}

/// A line on the console: the time in brackets, then the message.
pub fn console_line(time: &str, message: &str) -> (r: String)
    ensures
        r@ == "["@ + time@ + "] "@ + message@,
{
    String::from_str("[").concat(time).concat("] ").concat(message)
}

} // verus!
