//! The switches of the prettifier and how they are settled.

use vstd::prelude::*;

verus! {

/// The switches as they are given: each one on, off or left open.
#[derive(Debug, Clone, Copy)]
pub struct Choices {
    pub wrap_long_lines: Option<bool>,
    pub use_bold: Option<bool>,
    pub parse_go_test_output: Option<bool>,
}

/// The switches as they are used.
#[derive(Debug, Clone, Copy)]
pub struct Options {
    pub wrap_long_lines: bool,
    pub use_bold: bool,
    pub parse_go_test_output: bool,
}

/// A switch as it is used: as it was given, or `fallback` where it was left
/// open.
pub open spec fn settled_switch(choice: Option<bool>, fallback: bool) -> bool {
    match choice {
        Some(on) => on,
        None => fallback,
    }
}

/// Settles one switch.
pub fn settle(choice: Option<bool>, fallback: bool) -> (r: bool)
    ensures
        r == settled_switch(choice, fallback),
{
    match choice {
        Some(on) => on,
        None => fallback,
    }
}

impl Options {
    /// Settles the switches. Lines are wrapped and keys set in bold, unless
    /// chosen otherwise, where the output goes to an interactive terminal;
    /// records of tests are gathered unless chosen otherwise.
    pub fn resolve(choices: Choices, interactive: bool) -> (r: Options)
        ensures
            r.wrap_long_lines == settled_switch(choices.wrap_long_lines, interactive),
            r.use_bold == settled_switch(choices.use_bold, interactive),
            r.parse_go_test_output == settled_switch(choices.parse_go_test_output, true),
    {
        Options {
            wrap_long_lines: settle(choices.wrap_long_lines, interactive),
            use_bold: settle(choices.use_bold, interactive),
            parse_go_test_output: settle(choices.parse_go_test_output, true),
        }
    }

    /// The width to wrap to: that of the terminal where lines are wrapped and
    /// the terminal tells its width, none otherwise.
    pub fn width(&self, terminal: Option<u16>) -> (r: Option<u16>)
        ensures
            r == if self.wrap_long_lines {
                terminal
            } else {
                None
            },
    {
        if self.wrap_long_lines {
            terminal
        } else {
            None
        }
    }
}

} // verus!
