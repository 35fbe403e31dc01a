//! A small shell's core: a line parser for a simple shell grammar, a
//! composite string model with deferred variable and glob pieces, and the
//! expansion engine that turns parsed strings into concrete arguments.
pub mod builtins;
pub mod environment;
pub mod expand;
pub mod grammar;
pub mod laws;
pub mod parser;
pub mod prompt;
pub mod readline;
pub mod shell;
pub mod strings;

pub use builtins::ExitStatus;
pub use environment::Environment;
pub use grammar::RedirectType;
pub use parser::Command;
pub use parser::ParsedLine;
pub use parser::Parser;
pub use parser::Redirect;
pub use parser::RedirectNode;
pub use parser::Error;
pub use parser::SetVariable;
pub use shell::Shell;
pub use strings::Piece;
pub use strings::PieceModel;
pub use strings::ShellString;
