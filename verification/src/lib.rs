//! Incremental parse-tree maintenance for an editable text buffer.
//!
//! The crate keeps a forest of nested syntax trees (one per injected
//! language) consistent with a mutating buffer, derives highlight tags
//! from structural query captures, and computes indentation levels by
//! walking the ancestor chain of a query-annotated node.

use vstd::prelude::*;

pub mod bytes;
pub mod capnames;
pub mod change;
pub mod engine;
pub mod forest;
pub mod highlight;
pub mod indent;
pub mod injection;
pub mod lang;
pub mod point;
pub mod priority;
pub mod query;
pub mod syntax;
pub mod text;
pub mod ts;

pub use change::Change;
pub use change::EditRec;
pub use change::Moment;
pub use change::Shift;
pub use engine::LanguageRegistry;
pub use engine::TsError;
pub use forest::TsParser;
pub use indent::IndentResult;
pub use point::BufPoint;
pub use point::RowCol;
pub use text::TextBuf;

verus! {

} // verus!
