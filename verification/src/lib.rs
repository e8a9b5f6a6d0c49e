//! Merge resolution for a log-structured key-value store.
//!
//! A key may carry a base value and, written after it, a chain of operands:
//! partial updates that were stored without reading the value they apply to.
//! A [`MergeOperator`] says how such a chain collapses into one value. The
//! [`resolver`] module drives an operator on behalf of the read path and of
//! compaction, and keeps every byte of a chain that could not be merged.
//!
//! All values are opaque byte strings; in contracts a value stands for the
//! sequence of its bytes.
use vstd::prelude::*;

pub mod append;
pub mod counter;
pub mod decimal;
pub mod merge_operator;
pub mod resolver;

pub use append::AppendMerge;
pub use counter::CounterMerge;
pub use merge_operator::{MergeOperator, MergeResult};
pub use resolver::{Compaction, MergeChain};

verus! {

/// The bytes that name a record. The resolver only hands a key on to the
/// operator.
pub type UserKey = Vec<u8>;

/// The bytes of a base value or of an operand.
pub type UserValue = Vec<u8>;

} // verus!
