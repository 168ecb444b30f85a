//! Query and edit HCL documents with a small filter language.
//!
//! A filter such as `.module{"cool-module"}.version` is parsed into segments
//! (`parser`); `query` finds every part of an `hcl` body that the segments
//! reach, `lookup` follows only the first match; `write` and `delete` change
//! an `hcl_edit` body in place, so that the document keeps its layout where
//! nothing was changed. `laws` states properties of the engines over the same
//! views as their contracts.

pub mod delete;
pub mod edit_tree;
pub mod laws;
pub mod lookup;
pub mod matching;
pub mod parser;
pub mod query;
pub mod read_tree;
pub mod write;

pub use delete::delete;
pub use parser::parse_filter;
pub use query::query;
