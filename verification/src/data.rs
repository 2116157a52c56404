pub mod date;
pub mod datetime;
pub mod entry;
pub mod timestamp;
