//! Line-oriented text search: the lines of a text that contain a query,
//! with or without regard to letter case.

pub mod config;
pub mod encoding;
pub mod infix;
pub mod lines;
pub mod lowercase;
pub mod search;
pub mod theorems;

pub use config::{run, Config};
pub use search::{search_case_insensitive, search_case_sensitive};
