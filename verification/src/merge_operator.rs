//! The contract between the store and a merge operator.
//!
//! An operator is described by two mathematical functions, [`MergeOperator::merged`]
//! and [`MergeOperator::folded`]. The executable methods are held to them, so
//! that what a merge returns depends on the bytes it was given and on nothing
//! else.
use crate::{UserKey, UserValue};
use vstd::prelude::*;

verus! {

/// Result of a merge operation.
#[must_use]
#[derive(Debug)]
pub enum MergeResult {
    /// The merge operation succeeded with the given value.
    Success(UserValue),
    /// The merge operation failed.
    ///
    /// Nothing is carried: whoever asked for the merge still holds the base
    /// value and the operands, and keeps them.
    Failure,
}

impl View for MergeResult {
    type V = Option<Seq<u8>>;

    /// The bytes of the merged value, or `None` for a failure.
    open spec fn view(&self) -> Option<Seq<u8>> {
        match self {
            MergeResult::Success(value) => Some(value@),
            MergeResult::Failure => None,
        }
    }
}

impl Clone for MergeResult {
    fn clone(&self) -> (copy: Self)
        ensures
            copy@ == self@,
    {
        match self {
            MergeResult::Success(value) => MergeResult::Success(copy_of(value)),
            MergeResult::Failure => MergeResult::Failure,
        }
    }
}

/// A copy of a value, with the same bytes.
pub(crate) fn copy_of(value: &UserValue) -> (copy: UserValue)
    ensures
        copy@ == value@,
{
    let copy = value.clone();
    assert(copy@ =~= value@);
    copy
}

/// The bytes of an optional base value.
pub open spec fn base_of(base: Option<&UserValue>) -> Option<Seq<u8>> {
    match base {
        Some(value) => Some(value@),
        None => None,
    }
}

/// The bytes of each value of a list, in the list's order.
pub open spec fn contents(values: Seq<UserValue>) -> Seq<Seq<u8>> {
    values.map_values(|value: UserValue| value@)
}

/// `operands` with the two neighbours at `at` and `at + 1` replaced by the
/// single operand `value`, which takes their place in the order.
pub open spec fn replace_pair(operands: Seq<Seq<u8>>, at: int, value: Seq<u8>) -> Seq<Seq<u8>>
    recommends
        0 <= at,
        at + 1 < operands.len(),
{
    operands.subrange(0, at).push(value) + operands.subrange(at + 2, operands.len() as int)
}

/// Trait for implementing custom merge operators.
///
/// A merge operator allows atomic read-modify-write operations without
/// requiring a full read of the existing value. This is useful for:
/// - Incrementing counters
/// - Appending to lists
/// - Updating individual fields in a structured value
///
/// One operator serves every key of a store and is called from many workers
/// at once, hence `Send + Sync`.
pub trait MergeOperator: Send + Sync {
    /// The operator's name, the same at every call.
    spec fn identifier(&self) -> Seq<char>;

    /// What a base value and the operands written after it, oldest first,
    /// merge to: the bytes of the merged value, or `None` where the operator
    /// fails. The base value, if any, precedes every operand.
    spec fn merged(&self, key: Seq<u8>, base: Option<Seq<u8>>, operands: Seq<Seq<u8>>) -> Option<
        Seq<u8>,
    >;

    /// The single operand that may stand for `left` followed by `right`, for
    /// the pairs of which the operator knows one. An operator that does not
    /// override this has none.
    open spec fn folded(&self, key: Seq<u8>, left: Seq<u8>, right: Seq<u8>) -> Option<Seq<u8>> {
        None
    }

    /// The associativity that folding owes to merging: replacing two
    /// neighbouring operands by what they fold to changes no merge, whatever
    /// the base value and whatever stands before and after the pair.
    proof fn folding_preserves_merge(
        &self,
        key: Seq<u8>,
        base: Option<Seq<u8>>,
        operands: Seq<Seq<u8>>,
        at: int,
    )
        requires
            0 <= at,
            at + 1 < operands.len(),
        ensures
            self.folded(key, operands[at], operands[at + 1]) matches Some(value) ==> self.merged(
                key,
                base,
                operands,
            ) == self.merged(key, base, replace_pair(operands, at, value)),
    ;

    /// Returns the name of the merge operator.
    ///
    /// This is used for debugging and logging purposes, never to decide a
    /// merge.
    fn name(&self) -> (name: &'static str)
        ensures
            name@ == self.identifier(),
    ;

    /// Performs a full merge operation.
    ///
    /// This is called when:
    /// - A `get()` operation encounters merge operands
    /// - During compaction when merge operands need to be collapsed
    ///
    /// # Arguments
    ///
    /// * `key` - The key being merged
    /// * `existing_value` - The base value if one exists (from a Put operation),
    ///   or `None` if only merge operands exist
    /// * `operands` - The merge operands in order from oldest to newest
    ///
    /// To hand over neither a base value nor an operand is the caller's error.
    ///
    /// # Returns
    ///
    /// * `MergeResult::Success(value)` - The merged value
    /// * `MergeResult::Failure` - The merge failed; operands will be preserved
    fn full_merge(
        &self,
        key: &UserKey,
        existing_value: Option<&UserValue>,
        operands: &[UserValue],
    ) -> (result: MergeResult)
        requires
            existing_value is Some || operands@.len() > 0,
        ensures
            result@ == self.merged(key@, base_of(existing_value), contents(operands@)),
    ;

    /// Performs a partial merge of two operands.
    ///
    /// This is an optional optimization that can combine multiple merge operands
    /// into a single operand during compaction, even when no base value exists.
    ///
    /// For example, if you have three `+1` increment operands, partial merge
    /// could combine them into a single `+3` operand.
    ///
    /// # Arguments
    ///
    /// * `key` - The key being merged
    /// * `left` - The older operand
    /// * `right` - The newer operand
    ///
    /// # Returns
    ///
    /// * `Some(value)` - The combined operand
    /// * `None` - Partial merge is not possible; keep operands separate
    ///
    /// # Default Implementation
    ///
    /// Returns `None`, meaning no partial merging is performed.
    fn partial_merge(&self, key: &UserKey, left: &UserValue, right: &UserValue) -> (result: Option<
        UserValue,
    >)
        ensures
            result matches Some(value) ==> self.folded(key@, left@, right@) == Some(value@),
        default_ensures
            result is None,
    {
        None
    }
}

/// A full merge is a function of the bytes it is given: two results that
/// `full_merge` may return for one key, one base value and one list of
/// operands are both failures, or both successes with the same bytes.
pub proof fn full_merge_is_deterministic<Op: MergeOperator>(
    op: &Op,
    key: &UserKey,
    base: Option<&UserValue>,
    operands: &[UserValue],
    first: MergeResult,
    second: MergeResult,
)
    requires
        base is Some || operands@.len() > 0,
        call_ensures(Op::full_merge, (op, key, base, operands), first),
        call_ensures(Op::full_merge, (op, key, base, operands), second),
    ensures
        first@ == second@,
        first is Failure <==> second is Failure,
{
}

/// Where `partial_merge` answers with an operand for two neighbours of a list,
/// the list merges to the same result with the pair as with that operand in
/// its place, for every base value.
pub proof fn partial_merge_is_associative<Op: MergeOperator>(
    op: &Op,
    key: &UserKey,
    left: &UserValue,
    right: &UserValue,
    answer: Option<UserValue>,
    base: Option<Seq<u8>>,
    operands: Seq<Seq<u8>>,
    at: int,
)
    requires
        call_ensures(Op::partial_merge, (op, key, left, right), answer),
        answer is Some,
        0 <= at,
        at + 1 < operands.len(),
        operands[at] == left@,
        operands[at + 1] == right@,
    ensures
        op.merged(key@, base, operands) == op.merged(
            key@,
            base,
            replace_pair(operands, at, answer->0@),
        ),
{
    op.folding_preserves_merge(key@, base, operands, at);
}

} // verus!
