//! Parsing of single lines of the Go Text Protocol.
//!
//! A line is an optional decimal count, a command name and any number of
//! arguments, separated by whitespace. [`parse`] turns a line into a
//! [`RawCommand`] or into any type that can be built from one, and a
//! [`CommandSet`] maps a raw command onto a closed list of command names.

pub mod classes;
pub mod command;
pub mod decimal;
pub mod encoding;
pub mod error;
pub mod grammar;
pub mod parser;
pub mod theorems;

pub use classes::CharClass;
pub use command::{Command, CommandSet, MyCommand};
pub use error::ErrorKind;
pub use parser::{parse, Parser, RawCommand};
