//! Application discovery index: the records a launcher shows, the cache that
//! persists them, and the rules that decide when that cache can be trusted.
pub mod app;
pub mod error;
pub mod dir_times;
pub mod cache;
pub mod text;
pub mod scanner;
pub mod extensions;
pub mod soulver;
