//! A path-search-and-execute library: walk a directory tree, filter the
//! discovered entries by kind and by a substring or regular-expression
//! pattern, then print the surviving paths or run a command on each one.
//!
//! The traversal over a tree given as a value, the filter and the executor
//! are specified and verified; the calls into the regex, rayon and
//! subprocess crates stand behind small trusted contracts, and the walk over
//! a live directory tree is driven one directory listing at a time through
//! the verified `walker::Walker`.

pub mod config;
pub mod entry;
pub mod error;
pub mod executor;
pub mod filter;
pub mod pipeline;
pub mod walker;
