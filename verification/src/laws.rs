//! What the library does, said of its inputs and results.

pub mod commands;
pub mod conflicts;
pub mod counts;
pub mod editing;
pub mod files;
pub mod keys;
pub mod lines;
pub mod table;
pub mod texts;
pub mod words;
