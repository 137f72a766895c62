pub mod rule;
pub mod tag;
