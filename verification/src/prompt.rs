//! The input prompt abstraction: how the shell asks for and receives a
//! line of input. Implementations live with the driver; the shell's core
//! only depends on this interface.
use vstd::prelude::*;

verus! {

/// Errors when reading commands.
#[derive(Debug)]
pub enum Error {
    /// An I/O failure while reading from the terminal, with its message.
    Io(String),
    /// The end-of-file marker was input.
    Eof(),
    /// The read was interrupted.
    Interrupted(),
    /// Some other, unknown or uncategorized error.
    Other(),
}

/// Abstraction for an input prompt.
pub trait Prompt {
    /// Sets the text displayed for the input prompt.
    fn set_prompt(&mut self, prompt: String);

    /// Gets the next command line from the input.
    fn get(&mut self) -> Result<String, Error>;
}

} // verus!
