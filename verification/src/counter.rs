//! An operator for counters: the value is a whole number, and every operand
//! is a step that is added to it.
use crate::decimal::{lemma_rendered_is_parsed, parse_integer, parsed, render_integer, rendered};
use crate::merge_operator::{base_of, contents, replace_pair, MergeOperator, MergeResult};
use crate::{UserKey, UserValue};
use vstd::prelude::*;

verus! {

/// Whether a number is one that a counter can hold.
pub open spec fn in_range(value: int) -> bool {
    i64::MIN <= value <= i64::MAX
}

/// The sum of two numbers, where both are there.
pub open spec fn sum_of(first: Option<int>, second: Option<int>) -> Option<int> {
    match (first, second) {
        (Some(a), Some(b)) => Some(a + b),
        _ => None,
    }
}

/// The sum of the steps that a list of operands stands for, or `None`
/// where one of them is no number.
pub open spec fn total(operands: Seq<Seq<u8>>) -> Option<int>
    decreases operands.len(),
{
    if operands.len() == 0 {
        Some(0)
    } else {
        sum_of(total(operands.drop_last()), parsed(operands.last()))
    }
}

/// Where a counter stands after the operands: its base value, or zero for a
/// key without one, and all the steps added to it. `None` where the base
/// value or an operand is no number.
pub open spec fn counted(base: Option<Seq<u8>>, operands: Seq<Seq<u8>>) -> Option<int> {
    sum_of(
        match base {
            Some(text) => parsed(text),
            None => Some(0),
        },
        total(operands),
    )
}

/// The steps of two lists laid end to end add up to the sum of both.
pub proof fn lemma_total_of_both(older: Seq<Seq<u8>>, newer: Seq<Seq<u8>>)
    ensures
        total(older + newer) == sum_of(total(older), total(newer)),
    decreases newer.len(),
{
    if newer.len() == 0 {
        assert(older + newer =~= older);
    } else {
        assert((older + newer).drop_last() =~= older + newer.drop_last());
        assert((older + newer).last() == newer.last());
        lemma_total_of_both(older, newer.drop_last());
    }
}

/// Adds up signed steps, written as decimal text.
///
/// A base value and each operand is a number as `parse_integer` reads it
/// (`42`, `+3`, `-1`); a key without a base value counts from zero. The
/// merged value is the sum as a plain number. The sum is taken over all the
/// whole numbers, so that the order of the steps and the way they were folded
/// do not bear on it, and a merge fails where the base value or an operand is
/// no number or where the sum is none that an `i64` holds.
///
/// Two steps fold into one, written with its sign (`+7`), where both are
/// numbers and their sum is one that an `i64` holds.
#[derive(Debug, Clone, Copy)]
pub struct CounterMerge;

impl MergeOperator for CounterMerge {
    open spec fn identifier(&self) -> Seq<char> {
        "CounterMerge"@
    }

    open spec fn merged(&self, key: Seq<u8>, base: Option<Seq<u8>>, operands: Seq<Seq<u8>>) -> Option<
        Seq<u8>,
    > {
        match counted(base, operands) {
            Some(value) => if in_range(value) {
                Some(rendered(value, false))
            } else {
                None
            },
            None => None,
        }
    }

    open spec fn folded(&self, key: Seq<u8>, left: Seq<u8>, right: Seq<u8>) -> Option<Seq<u8>> {
        match sum_of(parsed(left), parsed(right)) {
            Some(step) => if in_range(step) {
                Some(rendered(step, true))
            } else {
                None
            },
            None => None,
        }
    }

    proof fn folding_preserves_merge(
        &self,
        key: Seq<u8>,
        base: Option<Seq<u8>>,
        operands: Seq<Seq<u8>>,
        at: int,
    ) {
        if self.folded(key, operands[at], operands[at + 1]) is Some {
            let step = sum_of(parsed(operands[at]), parsed(operands[at + 1]))->0;
            let older = operands.subrange(0, at);
            let pair = operands.subrange(at, at + 2);
            let newer = operands.subrange(at + 2, operands.len() as int);
            let single = seq![rendered(step, true)];
            lemma_rendered_is_parsed(step, true);
            assert(total(pair.drop_last()) == parsed(operands[at])) by {
                assert(pair.drop_last().last() == operands[at]);
                assert(total(pair.drop_last().drop_last()) == Some(0int));
            }
            assert(total(pair) == Some(step)) by {
                assert(pair.last() == operands[at + 1]);
            }
            assert(total(single) == Some(step)) by {
                assert(total(single.drop_last()) == Some(0int));
            }
            assert(operands =~= older + pair + newer);
            assert(replace_pair(operands, at, rendered(step, true)) =~= older + single + newer);
            lemma_total_of_both(older, pair);
            lemma_total_of_both(older + pair, newer);
            lemma_total_of_both(older, single);
            lemma_total_of_both(older + single, newer);
        }
    }

    fn name(&self) -> (name: &'static str) {
        "CounterMerge"
    }

    fn full_merge(
        &self,
        key: &UserKey,
        existing_value: Option<&UserValue>,
        operands: &[UserValue],
    ) -> (result: MergeResult) {
        let mut sum: i128 = 0;
        if let Some(base) = existing_value {
            match parse_integer(base.as_slice()) {
                Some(number) => {
                    sum = number as i128;
                },
                None => {
                    return MergeResult::Failure;
                },
            }
        }
        let ghost steps = contents(operands@);
        let mut next: usize = 0;
        while next < operands.len()
            invariant
                next <= operands@.len(),
                steps == contents(operands@),
                counted(base_of(existing_value), steps.take(next as int)) == Some(sum as int),
                -(next + 1) * 0x8000_0000_0000_0000 <= sum <= (next + 1) * 0x7fff_ffff_ffff_ffff,
            decreases operands@.len() - next,
        {
            let ghost taken = steps.take(next as int);
            let ghost more = steps.take(next + 1);
            assert(more.drop_last() =~= taken);
            assert(more.last() == operands@[next as int]@);
            match parse_integer(operands[next].as_slice()) {
                Some(step) => {
                    sum = sum + step as i128;
                },
                None => {
                    proof {
                        assert(steps =~= more + steps.skip(next + 1));
                        lemma_total_of_both(more, steps.skip(next + 1));
                    }
                    return MergeResult::Failure;
                },
            }
            next = next + 1;
        }
        assert(steps.take(next as int) =~= steps);
        if sum < i64::MIN as i128 || sum > i64::MAX as i128 {
            MergeResult::Failure
        } else {
            MergeResult::Success(render_integer(sum as i64, false))
        }
    }

    fn partial_merge(&self, key: &UserKey, left: &UserValue, right: &UserValue) -> (result: Option<
        UserValue,
    >)
        ensures
            result is None ==> self.folded(key@, left@, right@) is None,
    {
        let older: i64 = match parse_integer(left.as_slice()) {
            Some(number) => number,
            None => {
                return None;
            },
        };
        let newer: i64 = match parse_integer(right.as_slice()) {
            Some(number) => number,
            None => {
                return None;
            },
        };
        let step: i128 = older as i128 + newer as i128;
        if step < i64::MIN as i128 || step > i64::MAX as i128 {
            None
        } else {
            Some(render_integer(step as i64, true))
        }
    }
}

} // verus!
