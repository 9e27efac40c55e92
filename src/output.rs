use vstd::prelude::*;

verus! {

/// How the stack is shown after each line of input.
#[derive(Clone, Copy, Debug, PartialEq, Eq, Structural)]
pub enum OutputMode {
    /// Colored, one cell per value, for a person at a terminal.
    Human,
    /// For other programs.
    Machine,
    /// Plain text.
    Simple,
    /// Nothing beyond what the program prints itself.
    Quiet,
}

impl OutputMode {
    /// The mode for standard output: for a person where it is a terminal, plain
    /// text where it is not.
    pub fn auto(stdout_is_tty: bool) -> (r: OutputMode)
        ensures
            r == if stdout_is_tty {
                OutputMode::Human
            } else {
                OutputMode::Simple
            },
    {
        if stdout_is_tty {
            OutputMode::Human
        } else {
            OutputMode::Simple
        }
    }
}

} // verus!
