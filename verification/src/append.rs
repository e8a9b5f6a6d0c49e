//! An operator for append-only values: every operand is a piece that is laid
//! behind what is already there.
use crate::merge_operator::{base_of, contents, MergeOperator, MergeResult};
use crate::{UserKey, UserValue};
use vstd::prelude::*;

verus! {

/// The pieces of a list laid end to end, the oldest first.
pub open spec fn joined(pieces: Seq<Seq<u8>>) -> Seq<u8>
    decreases pieces.len(),
{
    if pieces.len() == 0 {
        Seq::empty()
    } else {
        joined(pieces.drop_last()) + pieces.last()
    }
}

/// Two lists laid end to end join to what each of them joins to, end to
/// end.
pub proof fn lemma_joined_of_both(older: Seq<Seq<u8>>, newer: Seq<Seq<u8>>)
    ensures
        joined(older + newer) == joined(older) + joined(newer),
    decreases newer.len(),
{
    if newer.len() == 0 {
        assert(older + newer =~= older);
        assert(joined(older) + joined(newer) =~= joined(older));
    } else {
        assert((older + newer).drop_last() =~= older + newer.drop_last());
        lemma_joined_of_both(older, newer.drop_last());
        assert(joined(older + newer) =~= joined(older) + joined(newer));
    }
}

/// The order of the operands bears on the merged value: where two
/// neighbours give different bytes in their two orders, the list merges to
/// a different value with the two swapped, whatever the base value and
/// whatever stands before and after them.
pub proof fn swapped_neighbours_change_append(
    key: Seq<u8>,
    base: Option<Seq<u8>>,
    older: Seq<Seq<u8>>,
    left: Seq<u8>,
    right: Seq<u8>,
    newer: Seq<Seq<u8>>,
)
    requires
        left + right != right + left,
    ensures
        AppendMerge.merged(key, base, older + seq![left, right] + newer) != AppendMerge.merged(
            key,
            base,
            older + seq![right, left] + newer,
        ),
{
    let front = match base {
        Some(value) => value,
        None => Seq::empty(),
    } + joined(older);
    let back = joined(newer);
    let written = AppendMerge.merged(key, base, older + seq![left, right] + newer)->0;
    let swapped = AppendMerge.merged(key, base, older + seq![right, left] + newer)->0;
    lemma_pair_joined(left, right);
    lemma_pair_joined(right, left);
    lemma_joined_of_both(older, seq![left, right]);
    lemma_joined_of_both(older + seq![left, right], newer);
    lemma_joined_of_both(older, seq![right, left]);
    lemma_joined_of_both(older + seq![right, left], newer);
    assert(written =~= front + (left + right) + back);
    assert(swapped =~= front + (right + left) + back);
    let from = front.len() as int;
    let to = from + left.len() + right.len();
    assert(written.subrange(from, to) =~= left + right);
    assert(swapped.subrange(from, to) =~= right + left);
}

/// Two pieces join to the first followed by the second.
proof fn lemma_pair_joined(first: Seq<u8>, second: Seq<u8>)
    ensures
        joined(seq![first, second]) == first + second,
{
    let pair = seq![first, second];
    assert(pair.drop_last() =~= seq![first]);
    assert(pair.drop_last().drop_last() =~= Seq::<Seq<u8>>::empty());
    assert(joined(pair.drop_last().drop_last()) =~= Seq::<u8>::empty());
    assert(joined(pair.drop_last()) =~= first);
    assert(joined(pair) =~= first + second);
}

/// Appends each operand to the value, in the order of writing.
///
/// A key without a base value starts from the empty value. The merge never
/// fails. The operator does not fold operands: they stay apart until a full
/// merge lays them end to end.
#[derive(Debug, Clone, Copy)]
pub struct AppendMerge;

impl MergeOperator for AppendMerge {
    open spec fn identifier(&self) -> Seq<char> {
        "AppendMerge"@
    }

    open spec fn merged(&self, key: Seq<u8>, base: Option<Seq<u8>>, operands: Seq<Seq<u8>>) -> Option<
        Seq<u8>,
    > {
        Some(
            match base {
                Some(value) => value,
                None => Seq::empty(),
            } + joined(operands),
        )
    }

    proof fn folding_preserves_merge(
        &self,
        key: Seq<u8>,
        base: Option<Seq<u8>>,
        operands: Seq<Seq<u8>>,
        at: int,
    ) {
    }

    fn name(&self) -> (name: &'static str) {
        "AppendMerge"
    }

    fn full_merge(
        &self,
        key: &UserKey,
        existing_value: Option<&UserValue>,
        operands: &[UserValue],
    ) -> (result: MergeResult) {
        let mut value: Vec<u8> = Vec::new();
        if let Some(base) = existing_value {
            value.extend_from_slice(base.as_slice());
        }
        assert(value@ =~= match base_of(existing_value) {
            Some(bytes) => bytes,
            None => Seq::empty(),
        });
        let ghost start = value@;
        let mut next: usize = 0;
        while next < operands.len()
            invariant
                next <= operands@.len(),
                value@ == start + joined(contents(operands@).take(next as int)),
            decreases operands@.len() - next,
        {
            let ghost taken = contents(operands@).take(next as int);
            let ghost before = value@;
            value.extend_from_slice(operands[next].as_slice());
            proof {
                let now = contents(operands@).take(next + 1);
                assert(now.drop_last() =~= taken);
                assert(value@ =~= before + now.last());
            }
            next = next + 1;
        }
        assert(contents(operands@).take(next as int) =~= contents(operands@));
        MergeResult::Success(value)
    }
}

} // verus!
