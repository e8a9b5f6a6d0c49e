use lsm_merge::resolver::{absorb, collapse, compact, fold_operands, resolve};
use lsm_merge::{AppendMerge, Compaction, CounterMerge, MergeChain, MergeResult};

fn resolved_value(result: MergeResult) -> Option<Vec<u8>> {
    match result {
        MergeResult::Success(value) => Some(value),
        MergeResult::Failure => None,
    }
}

fn values(texts: &[&str]) -> Vec<Vec<u8>> {
    texts.iter().map(|text| text.as_bytes().to_vec()).collect()
}

#[test]
fn resolve_merges_operands_without_base() {
    let key = b"hits".to_vec();
    let operands = values(&["+3", "+4", "-1"]);
    let result = resolve(&CounterMerge, &key, None, &operands);
    assert_eq!(resolved_value(result), Some(b"6".to_vec()));
}

#[test]
fn resolve_merges_base_and_operands() {
    let key = b"hits".to_vec();
    let base = b"100".to_vec();
    let operands = values(&["-1", "-1"]);
    let result = resolve(&CounterMerge, &key, Some(&base), &operands);
    assert_eq!(resolved_value(result), Some(b"98".to_vec()));
}

#[test]
fn resolve_passes_a_lone_base_value_through() {
    let key = b"hits".to_vec();
    let base = b"not a number".to_vec();
    let result = resolve(&CounterMerge, &key, Some(&base), &[]);
    assert_eq!(resolved_value(result), Some(b"not a number".to_vec()));
    let padded = b"+007".to_vec();
    let result = resolve(&CounterMerge, &key, Some(&padded), &[]);
    assert_eq!(resolved_value(result), Some(b"+007".to_vec()));
}

#[test]
fn resolve_surfaces_a_failed_merge() {
    let key = b"hits".to_vec();
    let base = b"1".to_vec();
    let operands = values(&["+1", "?"]);
    assert!(matches!(resolve(&CounterMerge, &key, Some(&base), &operands), MergeResult::Failure));
    assert!(matches!(resolve(&CounterMerge, &key, Some(&base), &operands), MergeResult::Failure));
    assert_eq!(operands, values(&["+1", "?"]));
    assert_eq!(base, b"1".to_vec());
}

#[test]
fn resolve_keeps_the_order_of_operands() {
    let key = b"log".to_vec();
    let base = b"0".to_vec();
    let operands = values(&["1", "2", "3"]);
    let result = resolve(&AppendMerge, &key, Some(&base), &operands);
    assert_eq!(resolved_value(result), Some(b"0123".to_vec()));
    let reversed = values(&["3", "2", "1"]);
    let result = resolve(&AppendMerge, &key, Some(&base), &reversed);
    assert_eq!(resolved_value(result), Some(b"0321".to_vec()));
}

#[test]
fn absorb_replaces_the_newest_operand_by_the_answer() {
    let mut run = values(&["+1", "+2"]);
    absorb(&mut run, b"+3".to_vec(), Some(b"+5".to_vec()));
    assert_eq!(run, values(&["+1", "+5"]));
}

#[test]
fn absorb_keeps_the_operand_without_an_answer() {
    let mut run = values(&["+1", "+2"]);
    absorb(&mut run, b"+3".to_vec(), None);
    assert_eq!(run, values(&["+1", "+2", "+3"]));
}

#[test]
fn fold_shrinks_a_run_of_steps_to_one() {
    let key = b"hits".to_vec();
    let operands = values(&["+3", "+4", "-1"]);
    let run = fold_operands(&CounterMerge, &key, &operands);
    assert_eq!(run, values(&["+6"]));
    assert_eq!(operands, values(&["+3", "+4", "-1"]));
}

#[test]
fn fold_stops_at_what_does_not_fold() {
    let key = b"hits".to_vec();
    let operands = values(&["+1", "+2", "junk", "+3", "+4"]);
    let run = fold_operands(&CounterMerge, &key, &operands);
    assert_eq!(run, values(&["+3", "junk", "+7"]));
}

#[test]
fn fold_keeps_pairs_whose_sum_is_out_of_range() {
    let key = b"hits".to_vec();
    let operands = values(&["9223372036854775807", "+1", "-2"]);
    let run = fold_operands(&CounterMerge, &key, &operands);
    assert_eq!(run, values(&["9223372036854775807", "-1"]));
    assert_eq!(
        resolved_value(resolve(&CounterMerge, &key, None, &run)),
        resolved_value(resolve(&CounterMerge, &key, None, &operands))
    );
    assert_eq!(
        resolved_value(resolve(&CounterMerge, &key, None, &run)),
        Some(b"9223372036854775806".to_vec())
    );
}

#[test]
fn fold_leaves_short_runs_alone() {
    let key = b"hits".to_vec();
    assert_eq!(fold_operands(&CounterMerge, &key, &[]), Vec::<Vec<u8>>::new());
    assert_eq!(fold_operands(&CounterMerge, &key, &values(&["+1"])), values(&["+1"]));
    assert_eq!(fold_operands(&CounterMerge, &key, &values(&["x"])), values(&["x"]));
}

#[test]
fn fold_without_partial_merge_keeps_every_operand() {
    let key = b"log".to_vec();
    let operands = values(&["a", "b", "c"]);
    assert_eq!(fold_operands(&AppendMerge, &key, &operands), operands);
}

#[test]
fn folded_run_merges_as_the_whole_run() {
    let key = b"hits".to_vec();
    let base = b"-50".to_vec();
    let operands = values(&["+10", "+20", "-5", "+5", "+100"]);
    let run = fold_operands(&CounterMerge, &key, &operands);
    assert_eq!(run, values(&["+130"]));
    for existing in [None, Some(&base)] {
        assert_eq!(
            resolved_value(resolve(&CounterMerge, &key, existing, &run)),
            resolved_value(resolve(&CounterMerge, &key, existing, &operands))
        );
    }
    assert_eq!(
        resolved_value(resolve(&CounterMerge, &key, Some(&base), &run)),
        Some(b"80".to_vec())
    );
}

#[test]
fn collapse_turns_a_chain_into_its_value() {
    let key = b"hits".to_vec();
    let mut chain = MergeChain { base: Some(b"1".to_vec()), operands: values(&["+2", "+3"]) };
    assert!(collapse(&CounterMerge, &key, &mut chain));
    assert_eq!(chain, MergeChain { base: Some(b"6".to_vec()), operands: vec![] });
}

#[test]
fn collapse_without_base_counts_from_zero() {
    let key = b"hits".to_vec();
    let mut chain = MergeChain { base: None, operands: values(&["+3", "+4", "-1"]) };
    assert!(collapse(&CounterMerge, &key, &mut chain));
    assert_eq!(chain, MergeChain { base: Some(b"6".to_vec()), operands: vec![] });
}

#[test]
fn collapse_preserves_a_chain_that_fails() {
    let key = b"hits".to_vec();
    let mut chain = MergeChain { base: Some(b"1".to_vec()), operands: values(&["+2", "x", "+3"]) };
    let before = chain.clone();
    assert!(!collapse(&CounterMerge, &key, &mut chain));
    assert_eq!(chain, before);
    assert!(!collapse(&CounterMerge, &key, &mut chain));
    assert_eq!(chain, before);
    assert_eq!(chain.base, Some(b"1".to_vec()));
    assert_eq!(chain.operands, values(&["+2", "x", "+3"]));
}

#[test]
fn collapse_leaves_a_lone_base_value_alone() {
    let key = b"hits".to_vec();
    let mut chain = MergeChain { base: Some(b"+007".to_vec()), operands: vec![] };
    assert!(collapse(&CounterMerge, &key, &mut chain));
    assert_eq!(chain, MergeChain { base: Some(b"+007".to_vec()), operands: vec![] });
}

#[test]
fn compact_folds_while_the_base_is_unknown() {
    let key = b"hits".to_vec();
    let mut chain = MergeChain { base: None, operands: values(&["+1", "+2", "?", "+3"]) };
    assert_eq!(compact(&CounterMerge, &key, &mut chain, false), Compaction::Folded);
    assert_eq!(chain, MergeChain { base: None, operands: values(&["+3", "?", "+3"]) });
}

#[test]
fn compact_collapses_once_the_base_is_reached() {
    let key = b"hits".to_vec();
    let mut chain = MergeChain { base: Some(b"10".to_vec()), operands: values(&["+1", "+2"]) };
    assert_eq!(compact(&CounterMerge, &key, &mut chain, false), Compaction::Collapsed);
    assert_eq!(chain, MergeChain { base: Some(b"13".to_vec()), operands: vec![] });
}

#[test]
fn compact_collapses_without_base_when_final() {
    let key = b"hits".to_vec();
    let mut chain = MergeChain { base: None, operands: values(&["+1", "+2"]) };
    assert_eq!(compact(&CounterMerge, &key, &mut chain, true), Compaction::Collapsed);
    assert_eq!(chain, MergeChain { base: Some(b"3".to_vec()), operands: vec![] });
}

#[test]
fn compact_preserves_a_chain_that_fails() {
    let key = b"hits".to_vec();
    let mut chain = MergeChain { base: Some(b"10".to_vec()), operands: values(&["+1", "", "+2"]) };
    let before = chain.clone();
    assert_eq!(compact(&CounterMerge, &key, &mut chain, false), Compaction::Preserved);
    assert_eq!(chain, before);
    let mut orphan = MergeChain { base: None, operands: values(&["+1", "oops"]) };
    let kept = orphan.clone();
    assert_eq!(compact(&CounterMerge, &key, &mut orphan, true), Compaction::Preserved);
    assert_eq!(orphan, kept);
}

#[test]
fn compact_does_not_change_what_a_reader_gets() {
    let key = b"hits".to_vec();
    let chains = vec![
        MergeChain { base: None, operands: values(&["+1", "+2", "+3"]) },
        MergeChain { base: None, operands: values(&["+1", "bad", "+3"]) },
        MergeChain { base: Some(b"5".to_vec()), operands: values(&["+1", "+2"]) },
        MergeChain { base: Some(b"5".to_vec()), operands: values(&["+1", "bad"]) },
        MergeChain { base: Some(b"odd".to_vec()), operands: vec![] },
    ];
    for chain in chains {
        for finalize in [false, true] {
            let mut compacted = chain.clone();
            let _ = compact(&CounterMerge, &key, &mut compacted, finalize);
            assert_eq!(
                resolved_value(resolve(
                    &CounterMerge,
                    &key,
                    compacted.base.as_ref(),
                    &compacted.operands
                )),
                resolved_value(resolve(&CounterMerge, &key, chain.base.as_ref(), &chain.operands))
            );
        }
    }
}

#[test]
fn chain_clone_is_equal() {
    let chain = MergeChain { base: Some(b"b".to_vec()), operands: values(&["x", "", "yz"]) };
    assert_eq!(chain.clone(), chain);
}
