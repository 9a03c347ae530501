//! The choices a user makes on the command line, as plain values.

use vstd::prelude::*;

verus! {

/// The style in which found project paths are shown.
#[derive(Debug, Clone, Copy, PartialEq, Eq, Structural)]
pub enum PathStyle {
    /// Relative to the base directory.
    BaseDir,
    /// Full, canonical path.
    Canonical,
    /// Only the name of the directory.
    Dirname,
    /// Every directory on the way cut short: `g/h/E/pu/project-below`.
    Short,
    /// Relative to the current working directory.
    WorkingDir,
}

/// What happens with the output of a command.
#[derive(Debug, Clone, Copy, PartialEq, Eq, Structural)]
pub enum CommandOutput {
    /// Output goes straight to the terminal.
    Inherit,
    /// Every line is prefixed with the directory of the command.
    LinePrefix,
    /// The output is collected and printed when the command is done.
    Collect,
    /// The output is thrown away.
    Null,
}

/// When the result of a finished command is shown.
#[derive(Debug, Clone, Copy, PartialEq, Eq, Structural)]
pub enum CommandResult {
    Always,
    Never,
    NonZero,
}

impl CommandResult {
    /// Whether the result of a command is shown, given whether it succeeded.
    pub open spec fn shows(self, success: bool) -> bool {
        match self {
            CommandResult::Always => true,
            CommandResult::Never => false,
            CommandResult::NonZero => !success,
        }
    }

    /// Whether the result of a command is shown, given whether it succeeded.
    pub fn print(self, success: bool) -> (r: bool)
        ensures
            r == self.shows(success),
    {
        match self {
            CommandResult::Always => true,
            CommandResult::Never => false,
            CommandResult::NonZero => !success,
        }
    }
}

/// The number of commands run at once: one without `--threads`, the number
/// given with it, and the available parallelism (or one, where that is
/// unknown) when it is given without a number.
pub fn threads(requested: Option<Option<usize>>, available: Option<usize>) -> (r: usize)
    requires
        requested matches Some(Some(n)) ==> n >= 1,
        available matches Some(n) ==> n >= 1,
    ensures
        r >= 1,
        r == match requested {
            None => 1,
            Some(Some(n)) => n,
            Some(None) => match available {
                Some(n) => n,
                None => 1,
            },
        },
{
    match requested {
        None => 1,
        Some(Some(n)) => n,
        Some(None) => match available {
            Some(n) => n,
            None => 1,
        },
    }
}

} // verus!
