//! A verified core for a directory-listing command.
//!
//! The library turns a description of what is on disk into the text that the
//! command prints: it classifies the arguments, orders entries, lays names out
//! in a grid or in long format, and walks subdirectories.

pub mod accounts;
pub mod arguments;
pub mod attributes;
pub mod clock;
pub mod command;
pub mod disk;
pub mod grid;
pub mod listing;
pub mod long_format;
pub mod names;
pub mod paint;
pub mod parameters;
pub mod ranking;
pub mod records;
pub mod terminal;
pub mod text;
pub mod traversal;
