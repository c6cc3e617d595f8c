//! What the logger decides: the tag of a message and where it goes.

use vstd::prelude::*;

verus! {

/// How grave a message is.
#[derive(Debug, Clone, Copy, PartialEq, Eq, Structural)]
pub enum Level {
    /// An error.
    Error,
    /// A warning.
    Warn,
    /// A piece of information.
    Info,
    /// A message for debugging.
    Debug,
    /// A trace of what runs.
    Trace,
}

/// The second digit of the escape sequence that colors the tag of a message:
/// red for an error, yellow for a warning, green for information, blue for
/// debugging and white for a trace.
pub open spec fn tag_color(level: Level) -> char {
    match level {
        Level::Error => '1',
        Level::Warn => '3',
        Level::Info => '2',
        Level::Debug => '4',
        Level::Trace => '7',
    }
}

/// The logger of the kernel.
#[derive(Debug, Clone, Copy, PartialEq, Eq, Structural)]
pub struct MoleculeLogger {
    /// Messages go to the console too.
    pub console_debug: bool,
}

impl MoleculeLogger {
    /// A logger that writes to the serial port only.
    pub fn init() -> (r: Self)
        ensures
            !r.console_debug,
    {
        Self { console_debug: false }
    }

    /// Whether messages of the level are logged: all are.
    pub fn enabled(&self, level: Level) -> (r: bool)
        ensures
            r,
    {
        true
    }

    /// Sets whether messages go to the console too.
    pub fn set_console_debug(&mut self, yes: bool)
        ensures
            final(self).console_debug == yes,
    {
        self.console_debug = yes;
    }

    /// The second digit of the escape sequence that colors the tag of a
    /// message of the level.
    pub fn color_digit(level: Level) -> (r: char)
        ensures
            r == tag_color(level),
    {
        match level {
            Level::Error => '1',
            Level::Warn => '3',
            Level::Info => '2',
            Level::Debug => '4',
            Level::Trace => '7',
        }
    }
}

} // verus!
