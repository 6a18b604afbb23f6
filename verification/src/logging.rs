//! The log: which records pass the level chosen on the command line, and
//! the line each record is written as, in the layout of Python's `logging`
//! (`%(asctime)s [%(levelname)s] %(filename)s:%(lineno)d - %(message)s`).
use vstd::prelude::*;
use crate::text::{decimal, decimal_string};

verus! {

/// The severity of a log record, most severe first.
#[derive(Clone, Copy, Debug, PartialEq, Eq, Structural)]
pub enum Level {
    Error,
    Warn,
    Info,
    Debug,
    Trace,
}

/// The most verbose level a logger lets through, or none.
#[derive(Clone, Copy, Debug, PartialEq, Eq, Structural)]
pub enum LevelFilter {
    Off,
    Error,
    Warn,
    Info,
    Debug,
    Trace,
}

/// The rank of a level: 1 for errors up to 5 for traces.
pub open spec fn level_rank(level: Level) -> nat {
    match level {
        Level::Error => 1,
        Level::Warn => 2,
        Level::Info => 3,
        Level::Debug => 4,
        Level::Trace => 5,
    }
}

/// The rank of a filter: 0 when everything is off, up to 5 for traces.
pub open spec fn filter_rank(filter: LevelFilter) -> nat {
    match filter {
        LevelFilter::Off => 0,
        LevelFilter::Error => 1,
        LevelFilter::Warn => 2,
        LevelFilter::Info => 3,
        LevelFilter::Debug => 4,
        LevelFilter::Trace => 5,
    }
}

/// Whether a filter lets a level through: the level is at most as verbose
/// as the filter.
pub open spec fn passes(level: Level, filter: LevelFilter) -> bool {
    level_rank(level) <= filter_rank(filter)
}

/// Whether a logger with the given filter writes records of a level.
pub fn enabled(level: Level, filter: LevelFilter) -> (b: bool)
    ensures
        b == passes(level, filter),
{
    let l: u8 = match level {
        Level::Error => 1,
        Level::Warn => 2,
        Level::Info => 3,
        Level::Debug => 4,
        Level::Trace => 5,
    };
    let f: u8 = match filter {
        LevelFilter::Off => 0,
        LevelFilter::Error => 1,
        LevelFilter::Warn => 2,
        LevelFilter::Info => 3,
        LevelFilter::Debug => 4,
        LevelFilter::Trace => 5,
    };
    l <= f
}

/// The level chosen by the command line: warnings by default, information
/// with `-v`, debugging with `-vv` or `--extra-verbose`.
pub open spec fn chosen_level(verbose: bool, extra_verbose: bool) -> LevelFilter {
    if extra_verbose {
        LevelFilter::Debug
    } else if verbose {
        LevelFilter::Info
    } else {
        LevelFilter::Warn
    }
}

/// Chooses the logging level from the command line: `--extra-verbose` (or
/// `-vv`) wins over `-v`.
pub fn configure(verbose: bool, extra_verbose: bool) -> (level: LevelFilter)
    ensures
        level == chosen_level(verbose, extra_verbose),
{
    let mut level = LevelFilter::Warn;
    if verbose {
        level = LevelFilter::Info;
    }
    if extra_verbose {
        level = LevelFilter::Debug;
    }
    level
}

/// The name Python's `logging` gives a level; traces are shown as debug.
pub open spec fn level_text(level: Level) -> Seq<char> {
    match level {
        Level::Error => "ERROR"@,
        Level::Warn => "WARNING"@,
        Level::Info => "INFO"@,
        Level::Debug => "DEBUG"@,
        Level::Trace => "DEBUG"@,
    }
}

/// The name of a level in the log.
pub fn level_name(level: Level) -> (name: &'static str)
    ensures
        name@ == level_text(level),
{
    match level {
        Level::Error => "ERROR",
        Level::Warn => "WARNING",
        Level::Info => "INFO",
        Level::Debug | Level::Trace => "DEBUG",
    }
}

/// A log line: `<time> [<LEVEL>] <file>:<line> - <message>`.
pub open spec fn log_line_text(
    timestamp: Seq<char>,
    level: Level,
    file_name: Seq<char>,
    line: u32,
    message: Seq<char>,
) -> Seq<char> {
    timestamp + " ["@ + level_text(level) + "] "@ + file_name + ":"@ + decimal(line as nat) + " - "@
        + message
}

/// Formats a log record as a line of the log.
pub fn log_line(timestamp: &str, level: Level, file_name: &str, line: u32, message: &str) -> (s:
    String)
    ensures
        s@ == log_line_text(timestamp@, level, file_name@, line, message@),
{
    let mut s = String::from_str(timestamp);
    s.append(" [");
    s.append(level_name(level));
    s.append("] ");
    s.append(file_name);
    s.append(":");
    let n = decimal_string(line as u64);
    s.append(n.as_str());
    s.append(" - ");
    s.append(message);
    s
}

/// A filter that lets a level through lets every more severe level through.
pub proof fn lemma_more_severe_passes(level: Level, more_severe: Level, filter: LevelFilter)
    requires
        passes(level, filter),
        level_rank(more_severe) <= level_rank(level),
    ensures
        passes(more_severe, filter),
{
}

/// More verbosity never hides a record: whatever passes the level chosen
/// without a flag passes the level chosen with it.
pub proof fn lemma_verbosity_only_adds(level: Level, verbose: bool, extra_verbose: bool)
    requires
        passes(level, chosen_level(false, false)),
    ensures
        passes(level, chosen_level(verbose, extra_verbose)),
        passes(level, chosen_level(verbose, false)) ==> passes(level, chosen_level(verbose, true)),
{
}

/// Without flags only errors and warnings are shown; `-v` adds
/// information, and `-vv` or `--extra-verbose` adds debugging, whatever
/// `-v` says; traces are never shown.
pub proof fn lemma_levels_shown(verbose: bool, extra_verbose: bool)
    ensures
        passes(Level::Error, chosen_level(verbose, extra_verbose)),
        passes(Level::Warn, chosen_level(verbose, extra_verbose)),
        passes(Level::Info, chosen_level(verbose, extra_verbose)) <==> verbose || extra_verbose,
        passes(Level::Debug, chosen_level(verbose, extra_verbose)) <==> extra_verbose,
        !passes(Level::Trace, chosen_level(verbose, extra_verbose)),
{
}

} // verus!
