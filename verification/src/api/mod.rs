pub mod entry;
pub mod write;
