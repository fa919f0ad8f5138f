pub mod format_util;
pub mod grouping;
pub mod list;
pub mod render;
pub mod report;
pub mod status;
pub mod table;
