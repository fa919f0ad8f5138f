pub mod list;
pub mod manipulation;
pub mod report;
pub mod status;
