//! Reads a small function-definition dialect and turns it into a shell
//! script whose line numbers match the source, together with the command-line
//! surface that exposes each public function.
//!
//! - [`lexis`] and [`grammar`] define the dialect: what a source text means,
//!   or where and why it stops making sense.
//! - [`scanner`] and [`parser`] compute what those definitions say;
//!   [`Script::parse`] adds that no function is declared twice.
//! - [`render`] gives the shell text of a script, and [`alignment`] shows
//!   that every body stands there on the line on which it stands in the source.
//! - [`cli`] says what the command line of a script offers and decides what a
//!   matched call comes to.
//!
//! Believed and not proved are the contracts of four outside functions:
//! `String::push` and `char::is_whitespace` of the standard library (in
//! [`text`]), `bytecount::count` (in [`text`]) and
//! `nom_greedyerror::convert_error` (in [`diagnostic`]).

pub mod alignment;
pub mod cli;
pub mod description;
pub mod diagnostic;
pub mod grammar;
pub mod item;
pub mod lexis;
pub mod parser;
pub mod render;
pub mod scanner;
pub mod script;
pub mod text;

pub use cli::{
    Action, Command, Flag, ItemArgNames, Matched, Parameter, Surface, DEBUG_FLAG, ENTRY_NAME,
    FORWARDED_ARGS_NAME, SHELL_COMPLETIONS, SHOW_SCRIPT_FLAG,
};
pub use description::Description;
pub use diagnostic::{Cause, ParseError};
pub use grammar::Expected;
pub use item::Item;
pub use script::Script;
