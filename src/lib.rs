//! Turns typed, possibly-null columns into SQL literals and row blocks into
//! batched `INSERT` statements.
//!
//! `convert` encodes one cell; `insert` assembles the statements of a block.

pub mod convert;
pub mod insert;
