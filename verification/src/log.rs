//! A small log file in the config directory (ronnie.log): enough to understand a
//! problem after the fact.

use crate::text::decimal;
use vstd::prelude::*;

verus! {

/// Past this size the log starts over (the previous one is kept as ronnie.log.old).
pub const MAX_LOG: u64 = 1024 * 1024;

/// How serious a line is.
#[derive(Clone, Copy, PartialEq, Eq, Structural, Debug)]
pub enum Level {
    Info,
    Error,
}

/// The word that stands for a level.
pub open spec fn level_text(level: Level) -> Seq<char> {
    match level {
        Level::Info => "INFO"@,
        Level::Error => "ERROR"@,
    }
}

/// A line of the log: the time, the level and the message.
pub open spec fn line_text(now: nat, level: Level, message: Seq<char>) -> Seq<char> {
    decimal(now) + seq![' '] + level_text(level) + seq![' '] + message + seq!['\n']
}

/// What to write, and whether the log starts over first.
pub struct Write {
    pub start_over: bool,
    pub line: String,
}

impl View for Write {
    type V = (bool, Seq<char>);

    open spec fn view(&self) -> (bool, Seq<char>) {
        (self.start_over, self.line@)
    }
}

/// What a message leads to, given the size of the log file where there is one.
pub open spec fn written(now: nat, size: Option<u64>, level: Level, message: Seq<char>) -> (
    bool,
    Seq<char>,
) {
    (size is Some && size->0 > MAX_LOG, line_text(now, level, message))
}

fn write(now: u64, size: Option<u64>, level: Level, message: &str) -> (r: Write)
    ensures
        r@ == written(now as nat, size, level, message@),
{
    let mut line = String::new();
    crate::text::push_numeral(&mut line, now, 10);
    line.push(' ');
    match level {
        Level::Info => line.push_str("INFO"),
        Level::Error => line.push_str("ERROR"),
    }
    line.push(' ');
    line.push_str(message);
    line.push('\n');
    assert(line@ =~= line_text(now as nat, level, message@));
    let start_over = match size {
        Some(n) => n > MAX_LOG,
        None => false,
    };
    Write { start_over, line }
}

/// A message that tells what happened.
pub fn info(now: u64, size: Option<u64>, message: &str) -> (r: Write)
    ensures
        r@ == written(now as nat, size, Level::Info, message@),
{
    write(now, size, Level::Info, message)
}

/// A message that tells what went wrong.
pub fn error(now: u64, size: Option<u64>, message: &str) -> (r: Write)
    ensures
        r@ == written(now as nat, size, Level::Error, message@),
{
    write(now, size, Level::Error, message)
}

/// The name of a crash report: the time it happened.
pub open spec fn crash_name(now: nat) -> Seq<char> {
    "crash-"@ + decimal(now) + ".log"@
}

/// The name of the file that a crash at `now` is reported in.
pub fn crash_file(now: u64) -> (r: String)
    ensures
        r@ == crash_name(now as nat),
{
    let mut r = String::new();
    r.push_str("crash-");
    crate::text::push_numeral(&mut r, now, 10);
    r.push_str(".log");
    assert(r@ =~= crash_name(now as nat));
    r
}

/// Whether the error shown is to be logged: each one once, as it appears.
pub fn should_log(shown: &Option<String>, logged: &Option<String>) -> (r: bool)
    ensures
        r == (shown is Some && crate::text::opt_view(*shown) != crate::text::opt_view(*logged)),
        r == to_log(crate::text::opt_view(*shown), crate::text::opt_view(*logged)),
{
    match shown {
        Some(_) => !crate::text::same_opt(shown, logged),
        None => false,
    }
}

/// Whether an error is to be logged: it is shown and was not logged yet.
pub open spec fn to_log(shown: Option<Seq<char>>, logged: Option<Seq<char>>) -> bool {
    shown is Some && shown != logged
}

} // verus!
