//! The core of a small stack-based language: a reader that turns source text
//! into tokens, with nested blocks, and an interpreter that runs tokens against
//! an operand stack and a registry of named functions and operators.

pub mod scan;
pub mod number;
pub mod magnitude;
pub mod token;
pub mod error;
pub mod engine;
pub mod reader;
pub mod output;
pub mod laws;

pub use engine::{Pesc, PescFunc};
pub use error::{PescError, PescErrorType};
pub use number::Number;
pub use output::OutputMode;
pub use token::PescToken;
