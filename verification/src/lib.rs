//! A time tracker that keeps its activities as lines of a plain text log.
//!
//! The `data` modules hold the log itself: the timestamps, the line format
//! with its escaping, the lines of a file and the rules by which a file is
//! written back. The `controller` modules hold what the commands do to the
//! lines of a file and what they pick from them, the `view` modules what the
//! listings compute before anything is printed.
pub mod controller;
pub mod data;
pub mod view;
