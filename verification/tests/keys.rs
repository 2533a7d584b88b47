use offchain_requests::authority::{KeyStore, UintAuthorityId};
use offchain_requests::example::Call;
use offchain_requests::extrinsic::Extrinsic;
use offchain_requests::pool::PoolState;
use offchain_requests::submitter::{
    search_by_account, sort_by_account, SubmitAndSignTransaction, TransactionSubmitter,
};

fn store_of(keys: &[u64]) -> KeyStore {
    let mut store = KeyStore::new();
    UintAuthorityId::set_all_keys(&mut store, keys.iter().map(|k| UintAuthorityId(*k)).collect());
    store
}

fn pair(n: u64) -> (UintAuthorityId, UintAuthorityId) {
    (UintAuthorityId(n), UintAuthorityId(n))
}

#[test]
fn all_local_keys_come_in_store_order() {
    let store = store_of(&[9, 3, 5, 3]);
    let found = TransactionSubmitter::find_local_keys(&store, None);
    assert_eq!(found, vec![pair(9), pair(3), pair(5), pair(3)]);
}

#[test]
fn empty_store_matches_nothing() {
    let store = store_of(&[]);
    assert_eq!(TransactionSubmitter::find_local_keys(&store, None), vec![]);
    let named = Some(vec![UintAuthorityId(1), UintAuthorityId(2)]);
    assert_eq!(TransactionSubmitter::find_local_keys(&store, named), vec![]);
}

#[test]
fn named_accounts_are_matched_in_their_order() {
    let store = store_of(&[9, 3, 5]);
    let named = Some(vec![UintAuthorityId(5), UintAuthorityId(4), UintAuthorityId(9)]);
    let found = TransactionSubmitter::find_local_keys(&store, named);
    assert_eq!(found, vec![pair(5), pair(9)]);
}

#[test]
fn absent_accounts_give_nothing() {
    let store = store_of(&[9, 3, 5]);
    let named = Some(vec![UintAuthorityId(1), UintAuthorityId(4), UintAuthorityId(10)]);
    assert_eq!(TransactionSubmitter::find_local_keys(&store, named), vec![]);
    assert_eq!(TransactionSubmitter::find_local_keys(&store, Some(vec![])), vec![]);
}

#[test]
fn account_named_twice_is_matched_twice() {
    let store = store_of(&[9, 3, 5]);
    let named = Some(vec![UintAuthorityId(3), UintAuthorityId(3), UintAuthorityId(9)]);
    let found = TransactionSubmitter::find_local_keys(&store, named);
    assert_eq!(found, vec![pair(3), pair(3), pair(9)]);
}

#[test]
fn key_held_twice_is_matched_once_per_naming() {
    let store = store_of(&[7, 7, 2]);
    let named = Some(vec![UintAuthorityId(7)]);
    assert_eq!(TransactionSubmitter::find_local_keys(&store, named), vec![pair(7)]);
}

#[test]
fn extreme_accounts_are_found() {
    let store = store_of(&[u64::MAX, 0, 1]);
    let named = Some(vec![UintAuthorityId(0), UintAuthorityId(u64::MAX)]);
    let found = TransactionSubmitter::find_local_keys(&store, named);
    assert_eq!(found, vec![pair(0), pair(u64::MAX)]);
}

#[test]
fn sort_orders_by_account_and_keeps_ties_in_order() {
    let mut pairs = vec![
        (UintAuthorityId(5), UintAuthorityId(50)),
        (UintAuthorityId(1), UintAuthorityId(10)),
        (UintAuthorityId(5), UintAuthorityId(51)),
        (UintAuthorityId(0), UintAuthorityId(7)),
        (UintAuthorityId(1), UintAuthorityId(11)),
    ];
    sort_by_account(&mut pairs);
    assert_eq!(
        pairs,
        vec![
            (UintAuthorityId(0), UintAuthorityId(7)),
            (UintAuthorityId(1), UintAuthorityId(10)),
            (UintAuthorityId(1), UintAuthorityId(11)),
            (UintAuthorityId(5), UintAuthorityId(50)),
            (UintAuthorityId(5), UintAuthorityId(51)),
        ]
    );
    let mut none: Vec<(UintAuthorityId, UintAuthorityId)> = vec![];
    sort_by_account(&mut none);
    assert_eq!(none, vec![]);
}

#[test]
fn search_finds_what_is_there() {
    let pairs = vec![pair(1), pair(4), pair(6), pair(9)];
    assert_eq!(search_by_account(&pairs, UintAuthorityId(1)), Some(0));
    assert_eq!(search_by_account(&pairs, UintAuthorityId(4)), Some(1));
    assert_eq!(search_by_account(&pairs, UintAuthorityId(6)), Some(2));
    assert_eq!(search_by_account(&pairs, UintAuthorityId(9)), Some(3));
    assert_eq!(search_by_account(&pairs, UintAuthorityId(0)), None);
    assert_eq!(search_by_account(&pairs, UintAuthorityId(5)), None);
    assert_eq!(search_by_account(&pairs, UintAuthorityId(10)), None);
    assert_eq!(search_by_account(&vec![], UintAuthorityId(10)), None);
}

#[test]
fn sign_and_submit_queues_one_envelope() {
    let mut pool = PoolState::new();
    let outcome =
        TransactionSubmitter::sign_and_submit(&mut pool, Call::StoreResult(100), UintAuthorityId(42));
    assert_eq!(outcome, Ok(()));
    assert_eq!(pool.len(), 1);
    assert_eq!(
        pool.transactions[0],
        vec![1, 42, 0, 0, 0, 0, 0, 0, 0, 0, 1, 100, 0, 0, 0, 0, 0, 0, 0]
    );
}

#[test]
fn submit_signed_from_signs_for_matched_accounts() {
    let store = store_of(&[9, 3, 5]);
    let mut pool = PoolState::new();
    let named = vec![UintAuthorityId(5), UintAuthorityId(4), UintAuthorityId(9)];
    let results =
        TransactionSubmitter::submit_signed_from(&mut pool, &store, Call::Request(8), named);
    assert_eq!(results, vec![(UintAuthorityId(5), Ok(())), (UintAuthorityId(9), Ok(()))]);
    assert_eq!(pool.len(), 2);
    assert_eq!(
        Extrinsic::decode(&pool.transactions[0]),
        Some(Extrinsic { signature: Some(UintAuthorityId(5)), call: Call::Request(8) })
    );
    assert_eq!(
        Extrinsic::decode(&pool.transactions[1]),
        Some(Extrinsic { signature: Some(UintAuthorityId(9)), call: Call::Request(8) })
    );
}

#[test]
fn submit_signed_signs_for_every_local_account() {
    let store = store_of(&[9, 3]);
    let mut pool = PoolState::new();
    assert!(pool.submit_transaction(vec![7]).is_ok());
    let results = TransactionSubmitter::submit_signed(&mut pool, &store, Call::Mint);
    assert_eq!(results, vec![(UintAuthorityId(9), Ok(())), (UintAuthorityId(3), Ok(()))]);
    assert_eq!(pool.len(), 3);
    assert_eq!(pool.transactions[0], vec![7]);
    assert_eq!(
        Extrinsic::decode(&pool.transactions[2]),
        Some(Extrinsic { signature: Some(UintAuthorityId(3)), call: Call::Mint })
    );
    let nobody = store_of(&[]);
    assert_eq!(TransactionSubmitter::submit_signed(&mut pool, &nobody, Call::Mint), vec![]);
    assert_eq!(pool.len(), 3);
}

#[test]
fn naming_every_local_account_is_naming_none() {
    let store = store_of(&[9, 3, 5, 3]);
    let named = Some(UintAuthorityId::all(&store));
    assert_eq!(
        TransactionSubmitter::find_local_keys(&store, named),
        TransactionSubmitter::find_local_keys(&store, None)
    );
}

#[test]
fn pool_hands_out_the_newest_first() {
    let mut pool = PoolState::new();
    assert_eq!(pool.pop(), None);
    assert_eq!(pool.submit_transaction(vec![1]), Ok(()));
    assert_eq!(pool.submit_transaction(vec![2, 2]), Ok(()));
    assert_eq!(pool.len(), 2);
    assert_eq!(pool.pop(), Some(vec![2, 2]));
    assert_eq!(pool.pop(), Some(vec![1]));
    assert_eq!(pool.pop(), None);
    assert_eq!(TransactionSubmitter::default(), TransactionSubmitter);
}
