//! Core of a viewer for large, line-oriented text logs.
//!
//! The library turns an arbitrarily large file — local or on a remote host —
//! into line-indexed random access, caches fixed-size groups of decoded lines
//! for the remote case, and runs regex searches over bounded windows as well
//! as unbounded "find next match" scans.

pub mod cache;
pub mod commands;
pub mod error;
pub mod file_loader;
pub mod file_source;
pub mod markings;
pub mod remote_loader;
pub mod search;
pub mod text;
pub mod worker;
