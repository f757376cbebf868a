use mobilecoind::error::Error;
use mobilecoind::selection::{pick_largest, plan_merge, select_inputs};
use mobilecoind::types::{Key32, MonitorId};
use mobilecoind::utxo_store::UnspentTxOut;

fn utxo(id: u64, value: u64) -> UnspentTxOut {
    let zero = Key32 { w0: 0, w1: 0, w2: 0, w3: 0 };
    UnspentTxOut {
        output_id: id,
        monitor_id: MonitorId { account: zero, first_subaddress: 0, num_subaddresses: 1 },
        subaddress_index: 0,
        value,
        key_image: Key32 { w0: 1, w1: 0, w2: 0, w3: id },
        block_index: 0,
    }
}

fn utxos(values: &[u64]) -> Vec<UnspentTxOut> {
    values.iter().enumerate().map(|(i, v)| utxo(i as u64, *v)).collect()
}

fn ids(v: &[UnspentTxOut]) -> Vec<u64> {
    v.iter().map(|u| u.output_id).collect()
}

#[test]
fn selection_takes_the_largest_first_until_the_target_is_met() {
    let pool = utxos(&[5, 40, 10, 30]);
    let chosen = select_inputs(&pool, 60, 4).unwrap();
    assert_eq!(ids(&chosen), vec![1, 3]);
    let chosen = select_inputs(&pool, 71, 4).unwrap();
    assert_eq!(ids(&chosen), vec![1, 3, 2]);
    let chosen = select_inputs(&pool, 85, 4).unwrap();
    assert_eq!(ids(&chosen), vec![1, 3, 2, 0]);
}

#[test]
fn selection_for_exactly_the_largest_output_takes_it_alone() {
    let pool = utxos(&[5, 40, 10, 30]);
    assert_eq!(ids(&select_inputs(&pool, 40, 2).unwrap()), vec![1]);
    assert_eq!(ids(&select_inputs(&pool, 1, 2).unwrap()), vec![1]);
}

#[test]
fn selection_for_nothing_is_empty() {
    let pool = utxos(&[5, 40]);
    assert!(select_inputs(&pool, 0, 2).unwrap().is_empty());
    assert!(select_inputs(&Vec::new(), 0, 2).unwrap().is_empty());
}

#[test]
fn equal_amounts_are_taken_in_the_order_in_which_they_stand() {
    let pool = utxos(&[7, 7, 7]);
    assert_eq!(ids(&select_inputs(&pool, 14, 3).unwrap()), vec![0, 1]);
}

#[test]
fn amount_above_all_outputs_is_insufficient_funds() {
    let pool = utxos(&[5, 40, 10, 30]);
    assert!(matches!(select_inputs(&pool, 86, 4), Err(Error::InsufficientFunds)));
    assert!(matches!(select_inputs(&pool, 86, 1), Err(Error::InsufficientFunds)));
    assert!(matches!(select_inputs(&Vec::new(), 1, 4), Err(Error::InsufficientFunds)));
}

#[test]
fn amount_within_all_outputs_but_beyond_the_input_limit_is_fragmented() {
    let pool = utxos(&[5, 40, 10, 30]);
    assert!(matches!(select_inputs(&pool, 71, 2), Err(Error::InsufficientFundsFragmentedUtxos)));
    assert!(matches!(select_inputs(&pool, 85, 3), Err(Error::InsufficientFundsFragmentedUtxos)));
    assert!(matches!(select_inputs(&pool, 1, 0), Err(Error::InsufficientFundsFragmentedUtxos)));
    assert_eq!(ids(&select_inputs(&pool, 70, 2).unwrap()), vec![1, 3]);
}

#[test]
fn target_beyond_u64_is_met_by_outputs_that_add_up_to_it() {
    let pool = utxos(&[u64::MAX, u64::MAX, 3]);
    let target = u64::MAX as u128 + 5;
    assert_eq!(ids(&select_inputs(&pool, target, 2).unwrap()), vec![0, 1]);
    assert!(matches!(
        select_inputs(&pool, 2 * (u64::MAX as u128) + 4, 3),
        Err(Error::InsufficientFunds)
    ));
}

#[test]
fn pick_largest_splits_the_outputs() {
    let pool = utxos(&[5, 40, 10, 30]);
    let (largest, others) = pick_largest(&pool, 2);
    assert_eq!(ids(&largest), vec![1, 3]);
    assert_eq!(ids(&others), vec![0, 2]);
    let (largest, others) = pick_largest(&pool, 9);
    assert_eq!(ids(&largest), vec![1, 3, 2, 0]);
    assert!(others.is_empty());
    let (largest, others) = pick_largest(&pool, 0);
    assert!(largest.is_empty());
    assert_eq!(ids(&others), vec![0, 1, 2, 3]);
}

#[test]
fn merge_of_the_largest_pays_off_when_more_comes_into_reach_than_the_fee() {
    let pool = utxos(&[5, 40, 10, 30, 8]);
    let plan = plan_merge(&pool, 2, 9).unwrap();
    assert_eq!(ids(&plan), vec![1, 3]);
    let plan = plan_merge(&pool, 3, 12).unwrap();
    assert_eq!(ids(&plan), vec![1, 3, 2]);
}

#[test]
fn merge_that_brings_no_more_than_the_fee_is_not_beneficial() {
    let pool = utxos(&[5, 40, 10, 30, 8]);
    assert!(matches!(plan_merge(&pool, 2, 10), Err(Error::OptimizationNotBeneficial(_))));
    assert!(matches!(plan_merge(&pool, 3, 13), Err(Error::OptimizationNotBeneficial(_))));
}

#[test]
fn merge_is_not_beneficial_when_one_transaction_takes_all_outputs() {
    let pool = utxos(&[5, 40, 10]);
    assert!(matches!(plan_merge(&pool, 3, 0), Err(Error::OptimizationNotBeneficial(_))));
    assert!(matches!(plan_merge(&pool, 1, 0), Err(Error::OptimizationNotBeneficial(_))));
    assert!(matches!(plan_merge(&Vec::new(), 2, 0), Err(Error::OptimizationNotBeneficial(_))));
}

#[test]
fn no_choice_within_the_input_limit_is_worth_more_than_the_largest() {
    let pool = utxos(&[5, 40, 10, 30, 8, 40, 1]);
    for k in 0..=pool.len() {
        let (largest, _) = pick_largest(&pool, k);
        let most: u64 = largest.iter().map(|u| u.value).sum();
        let mut best = 0;
        for choice in 0u32..(1 << pool.len()) {
            if choice.count_ones() as usize <= k {
                let worth: u64 =
                    (0..pool.len()).filter(|i| choice & (1 << i) != 0).map(|i| pool[i].value).sum();
                best = best.max(worth);
            }
        }
        assert_eq!(most, best);
        assert!(select_inputs(&pool, most as u128, k).is_ok());
        assert!(matches!(
            select_inputs(&pool, most as u128 + 1, k),
            Err(Error::InsufficientFundsFragmentedUtxos) | Err(Error::InsufficientFunds)
        ));
    }
}
