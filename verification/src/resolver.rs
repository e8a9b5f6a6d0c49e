//! Driving a merge operator for the read path and for compaction.
//!
//! Every function here hands the operands to the operator in the order in
//! which they were written, oldest first, leaves out none, and gives up none
//! where a merge fails.
use crate::merge_operator::{
    base_of, contents, copy_of, replace_pair, MergeOperator, MergeResult,
};
use crate::{UserKey, UserValue};
use vstd::prelude::*;

verus! {

/// What the store holds for one key: the base value, if one was written, and
/// the operands written after it, oldest first.
#[derive(Debug, PartialEq, Eq)]
pub struct MergeChain {
    /// The last full value written for the key.
    pub base: Option<UserValue>,
    /// The operands written since, in the order of writing.
    pub operands: Vec<UserValue>,
}

/// A chain as bytes.
pub struct ChainView {
    pub base: Option<Seq<u8>>,
    pub operands: Seq<Seq<u8>>,
}

impl View for MergeChain {
    type V = ChainView;

    open spec fn view(&self) -> ChainView {
        ChainView {
            base: match self.base {
                Some(value) => Some(value@),
                None => None,
            },
            operands: contents(self.operands@),
        }
    }
}

impl Clone for MergeChain {
    fn clone(&self) -> (copy: Self)
        ensures
            copy@ == self@,
    {
        let base = match &self.base {
            Some(value) => Some(copy_of(value)),
            None => None,
        };
        let operands = self.operands.clone();
        assert(contents(operands@) =~= contents(self.operands@));
        MergeChain { base, operands }
    }
}

impl MergeChain {
    /// A chain holds something: a base value, an operand, or both.
    pub open spec fn wf(&self) -> bool {
        self.base is Some || self.operands@.len() > 0
    }
}

/// How a compaction pass left a chain.
#[must_use]
#[derive(Debug, Clone, Copy, PartialEq, Eq, Structural)]
pub enum Compaction {
    /// A full merge succeeded: the chain is now its result, as a base value
    /// without operands.
    Collapsed,
    /// No full merge was due: the operands were folded where the operator
    /// allowed it, and still wait for a base value.
    Folded,
    /// The full merge failed: the chain is as it was, byte for byte.
    Preserved,
}

/// What a reader of the key is owed: a base value without operands is
/// returned as it stands, and anything else is what the operator merges it
/// to. `None` is a failed merge.
pub open spec fn resolved<Op: MergeOperator>(
    op: &Op,
    key: Seq<u8>,
    base: Option<Seq<u8>>,
    operands: Seq<Seq<u8>>,
) -> Option<Seq<u8>> {
    if operands.len() == 0 {
        base
    } else {
        op.merged(key, base, operands)
    }
}

/// The run kept so far after the next operand was offered to the operator
/// together with the newest operand of the run: the operator's answer takes
/// the place of that newest operand, and without an answer the next operand
/// is added behind it.
pub open spec fn absorbed(
    run: Seq<UserValue>,
    operand: UserValue,
    answer: Option<UserValue>,
) -> Seq<UserValue> {
    match answer {
        Some(value) => run.drop_last().push(value),
        None => run.push(operand),
    }
}

/// Whether `run` is what one scan over `operands`, oldest first, can leave.
///
/// The scan starts with nothing. It takes the operands in their order and
/// does one of two things with each: it adds the operand behind the run, or,
/// where the operator folds the newest operand of the run with this one, it
/// puts what they fold to in the place of that newest operand. Which of the
/// two it does is up to the operator, which may decline to fold. So the run
/// is the operands, in their order and none left out, with some runs of
/// neighbours folded from the oldest on.
pub open spec fn scanned<Op: MergeOperator>(
    op: &Op,
    key: Seq<u8>,
    operands: Seq<Seq<u8>>,
    run: Seq<Seq<u8>>,
) -> bool
    decreases operands.len(),
{
    if operands.len() == 0 {
        run.len() == 0
    } else {
        let next = operands.last();
        let earlier = operands.drop_last();
        run.len() > 0 && ({
            ||| run.last() == next && scanned(op, key, earlier, run.drop_last())
            ||| exists|newest: Seq<u8>|
                #[trigger] op.folded(key, newest, next) == Some(run.last()) && scanned(
                    op,
                    key,
                    earlier,
                    run.drop_last().push(newest),
                )
        })
    }
}

/// Two runs of operands that no merge can tell apart: whatever the base
/// value, and whatever operands stand before and after, the whole merges to
/// the same result with either run in the middle.
pub open spec fn interchangeable<Op: MergeOperator>(
    op: &Op,
    key: Seq<u8>,
    first: Seq<Seq<u8>>,
    second: Seq<Seq<u8>>,
) -> bool {
    forall|base: Option<Seq<u8>>, older: Seq<Seq<u8>>, newer: Seq<Seq<u8>>|
        #[trigger] op.merged(key, base, older + first + newer) == op.merged(
            key,
            base,
            older + second + newer,
        )
}

/// What a compaction pass does with a chain: a full merge where the base
/// value is at hand or the pass is final, which collapses the chain or, on
/// failure, preserves it; a fold of the operands otherwise.
pub open spec fn compaction_due<Op: MergeOperator>(
    op: &Op,
    key: Seq<u8>,
    chain: ChainView,
    finalize: bool,
) -> Compaction {
    if chain.base is Some || finalize {
        if resolved(op, key, chain.base, chain.operands) is Some {
            Compaction::Collapsed
        } else {
            Compaction::Preserved
        }
    } else {
        Compaction::Folded
    }
}

/// A scan does not change what the operands merge to: the run that it
/// leaves stands for the operands under every base value and between any
/// older and newer operands. It is no longer than the operands, and empty
/// only if there were none.
pub proof fn lemma_scan_preserves_merge<Op: MergeOperator>(
    op: &Op,
    key: Seq<u8>,
    operands: Seq<Seq<u8>>,
    run: Seq<Seq<u8>>,
)
    requires
        scanned(op, key, operands, run),
    ensures
        interchangeable(op, key, operands, run),
        run.len() <= operands.len(),
        operands.len() > 0 ==> run.len() > 0,
        operands.len() <= 1 ==> run == operands,
    decreases operands.len(),
{
    if operands.len() == 0 {
        assert(run =~= operands);
    } else {
        let next = operands.last();
        let earlier = operands.drop_last();
        if run.last() == next && scanned(op, key, earlier, run.drop_last()) {
            let kept = run.drop_last();
            lemma_scan_preserves_merge(op, key, earlier, kept);
            assert(operands.len() <= 1 ==> run =~= operands);
            assert forall|base: Option<Seq<u8>>, older: Seq<Seq<u8>>, newer: Seq<Seq<u8>>|
                #[trigger] op.merged(key, base, older + operands + newer) == op.merged(
                    key,
                    base,
                    older + run + newer,
                ) by {
                let behind = seq![next] + newer;
                assert(older + operands + newer =~= older + earlier + behind);
                assert(older + run + newer =~= older + kept + behind);
                assert(op.merged(key, base, older + earlier + behind) == op.merged(
                    key,
                    base,
                    older + kept + behind,
                ));
            }
        } else {
            let newest = choose|newest: Seq<u8>|
                #[trigger] op.folded(key, newest, next) == Some(run.last()) && scanned(
                    op,
                    key,
                    earlier,
                    run.drop_last().push(newest),
                );
            let kept = run.drop_last().push(newest);
            lemma_scan_preserves_merge(op, key, earlier, kept);
            assert forall|base: Option<Seq<u8>>, older: Seq<Seq<u8>>, newer: Seq<Seq<u8>>|
                #[trigger] op.merged(key, base, older + operands + newer) == op.merged(
                    key,
                    base,
                    older + run + newer,
                ) by {
                let behind = seq![next] + newer;
                let unfolded = older + kept + behind;
                let at = older.len() + kept.len() - 1;
                assert(older + operands + newer =~= older + earlier + behind);
                assert(op.merged(key, base, older + earlier + behind) == op.merged(
                    key,
                    base,
                    unfolded,
                ));
                assert(unfolded[at] == newest);
                assert(unfolded[at + 1] == next);
                op.folding_preserves_merge(key, base, unfolded, at);
                assert(replace_pair(unfolded, at, run.last()) =~= older + run + newer);
            }
        }
    }
}

/// Resolves a key for a reader.
///
/// A base value without operands is no merge: it is returned as it is, and
/// the operator is not asked. Otherwise the operator merges the base value,
/// if there is one, with all the operands, in one call. A `Failure` is the
/// reader's error; it does not mean that the key is absent.
///
/// A key with neither a base value nor an operand has nothing to resolve.
pub fn resolve<Op: MergeOperator>(
    op: &Op,
    key: &UserKey,
    base: Option<&UserValue>,
    operands: &[UserValue],
) -> (result: MergeResult)
    requires
        base is Some || operands@.len() > 0,
    ensures
        result@ == resolved(op, key@, base_of(base), contents(operands@)),
{
    match base {
        Some(value) if operands.len() == 0 => MergeResult::Success(copy_of(value)),
        _ => op.full_merge(key, base, operands),
    }
}

/// Takes the operator's answer for the newest operand of `run` and `operand`
/// into the run: an answer replaces the newest operand, so that it stands
/// where the pair stood, and without one `operand` is kept as it is.
pub fn absorb(run: &mut Vec<UserValue>, operand: UserValue, answer: Option<UserValue>)
    requires
        old(run)@.len() > 0,
    ensures
        final(run)@ == absorbed(old(run)@, operand, answer),
{
    match answer {
        Some(value) => {
            run.pop();
            run.push(value);
        },
        None => {
            run.push(operand);
        },
    }
}

/// Shrinks a run of operands for compaction, before a base value is known.
///
/// The operands are scanned once, oldest first. Each is offered to the
/// operator together with the newest operand kept so far, which is its
/// neighbour in the order; where the operator answers with one operand for
/// the two, that operand takes their place, and where it does not, both stay.
/// No operand is skipped and none changes place.
///
/// Which pairs are folded is the operator's choice. Whatever it chose, the
/// run that comes back merges as the operands that went in.
pub fn fold_operands<Op: MergeOperator>(op: &Op, key: &UserKey, operands: &[UserValue]) -> (run:
    Vec<UserValue>)
    ensures
        scanned(op, key@, contents(operands@), contents(run@)),
        interchangeable(op, key@, contents(operands@), contents(run@)),
        run@.len() <= operands@.len(),
        operands@.len() > 0 ==> run@.len() > 0,
        operands@.len() <= 1 ==> contents(run@) == contents(operands@),
{
    let mut run: Vec<UserValue> = Vec::new();
    let mut next: usize = 0;
    while next < operands.len()
        invariant
            next <= operands@.len(),
            scanned(op, key@, contents(operands@).take(next as int), contents(run@)),
            next > 0 ==> run@.len() > 0,
        decreases operands@.len() - next,
    {
        let operand = copy_of(&operands[next]);
        let ghost earlier = contents(operands@).take(next as int);
        let ghost taken = contents(operands@).take(next + 1);
        let ghost before = contents(run@);
        assert(taken.drop_last() =~= earlier);
        assert(taken.last() == operand@);
        if run.len() == 0 {
            run.push(operand);
            assert(contents(run@).drop_last() =~= before);
        } else {
            let answer = op.partial_merge(key, &run[run.len() - 1], &operands[next]);
            let ghost answered = answer;
            absorb(&mut run, operand, answer);
            proof {
                match answered {
                    Some(value) => {
                        assert(contents(run@).drop_last().push(before.last()) =~= before);
                        assert(op.folded(key@, before.last(), taken.last()) == Some(
                            contents(run@).last(),
                        ));
                    },
                    None => {
                        assert(contents(run@).drop_last() =~= before);
                    },
                }
            }
        }
        next = next + 1;
    }
    proof {
        assert(contents(operands@).take(next as int) =~= contents(operands@));
        lemma_scan_preserves_merge(op, key@, contents(operands@), contents(run@));
    }
    run
}

/// Collapses a chain into one value by a full merge.
///
/// On success the merged value becomes the chain's base value, as if it had
/// been written in place of the whole chain, and no operand is left. On
/// failure nothing is given up: the base value and every operand stay as they
/// were, for the next pass or for inspection. A base value without operands
/// is no merge and is left alone.
///
/// Returns whether the chain now is a lone base value.
pub fn collapse<Op: MergeOperator>(op: &Op, key: &UserKey, chain: &mut MergeChain) -> (collapsed:
    bool)
    requires
        old(chain).wf(),
    ensures
        final(chain).wf(),
        collapsed == resolved(op, key@, old(chain)@.base, old(chain)@.operands) is Some,
        collapsed ==> final(chain)@.base == resolved(
            op,
            key@,
            old(chain)@.base,
            old(chain)@.operands,
        ) && final(chain)@.operands.len() == 0,
        !collapsed ==> *final(chain) == *old(chain),
        old(chain)@.operands.len() == 0 ==> *final(chain) == *old(chain),
        resolved(op, key@, final(chain)@.base, final(chain)@.operands) == resolved(
            op,
            key@,
            old(chain)@.base,
            old(chain)@.operands,
        ),
{
    if chain.operands.len() == 0 {
        return true;
    }
    match op.full_merge(key, chain.base.as_ref(), chain.operands.as_slice()) {
        MergeResult::Success(value) => {
            chain.base = Some(value);
            chain.operands = Vec::new();
            true
        },
        MergeResult::Failure => false,
    }
}

/// One compaction pass over the chain of one key.
///
/// Where the chain has reached its base value, or `finalize` says that no
/// older data can exist for the key, the chain is collapsed by a full merge,
/// and preserved whole if that merge fails. Otherwise only its operands are
/// known, and they are folded pair by pair as far as the operator allows.
///
/// Whatever the pass did, a reader of the key is owed what it was owed
/// before.
pub fn compact<Op: MergeOperator>(
    op: &Op,
    key: &UserKey,
    chain: &mut MergeChain,
    finalize: bool,
) -> (done: Compaction)
    requires
        old(chain).wf(),
    ensures
        final(chain).wf(),
        done == compaction_due(op, key@, old(chain)@, finalize),
        done is Collapsed ==> final(chain)@.base == resolved(
            op,
            key@,
            old(chain)@.base,
            old(chain)@.operands,
        ) && final(chain)@.operands.len() == 0,
        done is Preserved ==> *final(chain) == *old(chain),
        done is Folded ==> final(chain).base is None && scanned(
            op,
            key@,
            old(chain)@.operands,
            final(chain)@.operands,
        ) && interchangeable(op, key@, old(chain)@.operands, final(chain)@.operands),
        resolved(op, key@, final(chain)@.base, final(chain)@.operands) == resolved(
            op,
            key@,
            old(chain)@.base,
            old(chain)@.operands,
        ),
{
    if chain.base.is_some() || finalize {
        if collapse(op, key, chain) {
            Compaction::Collapsed
        } else {
            Compaction::Preserved
        }
    } else {
        let run = fold_operands(op, key, chain.operands.as_slice());
        proof {
            let none = Seq::<Seq<u8>>::empty();
            assert(none + contents(chain.operands@) + none =~= contents(chain.operands@));
            assert(none + contents(run@) + none =~= contents(run@));
        }
        chain.operands = run;
        Compaction::Folded
    }
}

} // verus!
