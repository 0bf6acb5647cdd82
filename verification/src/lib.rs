//! A local credential store: key/password entries kept in a flat text file,
//! looked up by searching the keys with a regular expression.

pub mod command;
pub mod format;
pub mod pattern;
pub mod search;
pub mod store;
pub mod text;
