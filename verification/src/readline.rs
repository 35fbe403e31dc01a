//! The line-reading abstraction: a plain reader without prompt control.
//! Implementations live with the driver.
use vstd::prelude::*;

verus! {

/// Errors when reading a line.
#[derive(Debug)]
pub enum Error {
    /// An I/O failure while reading from the terminal, with its message.
    Io(String),
    /// The end-of-file marker was input.
    Eof(),
    /// The read was interrupted.
    Interrupted(),
    /// Some other, unknown or uncategorized error.
    Other(),
}

/// Abstraction for readline input.
pub trait Reader {
    /// Gets the next command line from the input.
    fn get(&mut self) -> Result<String, Error>;
}

} // verus!
