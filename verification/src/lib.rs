//! A small language of rules over tags. A tag is a name with a set of
//! declared values; a rule is a boolean expression over comparisons of a tag
//! with a value, such as `-colour = red & size ! large`. Rules are validated
//! against a registry of tags, compiled into disjunctive normal form, and
//! evaluated against objects that carry tags.

pub mod api;
pub mod dnf;
pub mod err;
pub mod laws;
pub mod message;
pub mod parser;
pub mod rules;
pub mod text;
pub mod types;
pub mod utils;

pub use api::entry::{compile, evaluate, validate};
pub use err::RulesError;
pub use rules::Rules;
