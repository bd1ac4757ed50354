//! A small command-line argument registry: typed positional, key-value and
//! flag arguments, matched against a sequence of tokens.

pub mod args;
pub mod laws;
pub mod parser;
pub mod value;

pub use args::{FlagArg, FlagArgBase, KVArg, KVArgBase, PosArg, PosArgBase};
pub use parser::{ArgError, Parser};
pub use value::{ArgValue, ValueKind};
