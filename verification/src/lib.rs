//! A minimal line-search library: given a query string and the full text of a
//! file, it returns every line that contains the query, either exactly or
//! after ASCII lowercasing of both sides.
//!
//! The matching engine (`search`, `search_case_insensitive`) and the
//! configuration resolution (`Config::new`) are verified; reading the file
//! and printing the matches are left to the caller.

pub mod config;
pub mod matcher;
pub mod text;

pub use config::Config;
pub use config::ConfigError;
pub use matcher::search;
pub use matcher::search_case_insensitive;
