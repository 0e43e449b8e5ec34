//! A reading journal: a library of books, each with a page cursor and notes on
//! page ranges that chain one after the other, and the commands that record,
//! look up, walk over and list them.

pub mod commands;
pub mod model;
pub mod repl;
pub mod text;
