//! How messages are logged.
use vstd::prelude::*;

verus! {

/// Represents the flags that choose how much is logged.
#[derive(Clone, Copy, Debug, PartialEq, Eq, Structural)]
pub struct Flags {
    pub verbose: bool,
    pub vverbose: bool,
}

/// Represents the level of a message, from the most to the least serious one.
#[derive(Clone, Copy, Debug, PartialEq, Eq, Structural)]
pub enum Level {
    Error,
    Warn,
    Info,
    Debug,
    Trace,
}

/// Represents the color of the mark in front of a message.
#[derive(Clone, Copy, Debug, PartialEq, Eq, Structural)]
pub enum Color {
    Red,
    Yellow,
    Green,
    Rgb(u8, u8, u8),
}

/// Represents the mark in front of a message.
#[derive(Clone, Copy, Debug, PartialEq, Eq)]
pub struct Mark {
    pub is_bold: bool,
    pub color: Color,
    pub text: &'static str,
}

impl Level {
    /// The place of the level, counted from the most serious one.
    pub open spec fn rank(self) -> int {
        match self {
            Level::Error => 1,
            Level::Warn => 2,
            Level::Info => 3,
            Level::Debug => 4,
            Level::Trace => 5,
        }
    }
}

/// The least serious level that is logged.
pub open spec fn least_level(flags: Flags) -> Level {
    if flags.vverbose {
        Level::Trace
    } else if flags.verbose {
        Level::Debug
    } else {
        Level::Info
    }
}

/// Returns the least serious level that is logged.
pub fn filter_level(flags: &Flags) -> (result: Level)
    ensures
        result == least_level(*flags),
{
    match flags.vverbose {
        true => Level::Trace,
        false => match flags.verbose {
            true => Level::Debug,
            false => Level::Info,
        },
    }
}

/// Returns the mark in front of a message.
pub fn mark(level: Level) -> (result: Mark)
    ensures
        result.is_bold == (level.rank() <= 3),
        result.color == (match level {
            Level::Error => Color::Red,
            Level::Warn => Color::Yellow,
            Level::Info => Color::Green,
            _ => Color::Rgb(165, 165, 165),
        }),
        result.text@ == (match level {
            Level::Error => "error: "@,
            Level::Warn => "warning: "@,
            _ => ""@,
        }),
{
    match level {
        Level::Error => Mark { is_bold: true, color: Color::Red, text: "error: " },
        Level::Warn => Mark { is_bold: true, color: Color::Yellow, text: "warning: " },
        Level::Info => Mark { is_bold: true, color: Color::Green, text: "" },
        _ => Mark { is_bold: false, color: Color::Rgb(165, 165, 165), text: "" },
    }
}

/// More flags never hide a message, and errors, warnings and information are always logged.
pub proof fn law_flags_add_messages(flags: Flags, level: Level)
    ensures
        level.rank() <= 3 ==> level.rank() <= least_level(flags).rank(),
        least_level(flags).rank() <= least_level(Flags { verbose: true, ..flags }).rank(),
        least_level(flags).rank() <= least_level(Flags { vverbose: true, ..flags }).rank(),
{
}

/// Without flags information is the least that is logged, and each flag logs one level more than
/// the one before.
pub proof fn law_flags_choose_level(flags: Flags)
    ensures
        !flags.verbose && !flags.vverbose ==> least_level(flags) == Level::Info,
        flags.verbose && !flags.vverbose ==> least_level(flags) == Level::Debug,
        flags.vverbose ==> least_level(flags) == Level::Trace,
{
}

/// The level is chosen by the flags, and the mark tells the level: errors, warnings and information
/// are bold in red, yellow and green, the rest is gray, and only errors and warnings are named.
pub proof fn law_messages_are_marked(flags: &Flags, least: Level, level: Level, result: Mark)
    requires
        call_ensures(filter_level, (flags,), least),
        call_ensures(mark, (level,), result),
    ensures
        least == if flags.vverbose {
            Level::Trace
        } else if flags.verbose {
            Level::Debug
        } else {
            Level::Info
        },
        level == Level::Error ==> result.is_bold && result.color == Color::Red && result.text@
            == "error: "@,
        level == Level::Warn ==> result.is_bold && result.color == Color::Yellow && result.text@
            == "warning: "@,
        level == Level::Info ==> result.is_bold && result.color == Color::Green && result.text@
            == ""@,
        level == Level::Debug || level == Level::Trace ==> !result.is_bold && result.color
            == Color::Rgb(165, 165, 165) && result.text@ == ""@,
{
}

} // verus!
