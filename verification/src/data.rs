pub mod activity;
pub mod bartib_file;
pub mod escaping;
pub mod filter;
pub mod getter;
pub mod processor;
pub mod text;
pub mod timestamp;
