//! Path-addressed reading, writing and type checking in a configuration document.
//!
//! A path such as `a.b.[0].c` names a node: identifiers name table keys, bracketed integers name
//! array positions.

pub mod error;
pub mod insert;
pub mod query;
pub mod read;
pub mod resolver;
pub mod tokenizer;
pub mod util;
pub mod value;

pub use error::{Error, ErrorKind};
pub use value::{Type, Value};
