//! Command-line flag handling for a script runtime: classifies the invocation
//! arguments, assembles the runtime flags and rebuilds the argument list that
//! is handed on to the script engine.

pub mod catalog;
pub mod engine;
pub mod flags;
pub mod laws;
pub mod parser;
pub mod text;

pub use flags::{set_flags, DenoFlags};
