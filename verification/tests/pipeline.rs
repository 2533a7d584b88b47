use offchain_requests::authority::UintAuthorityId;
use offchain_requests::example::{Call, Event, FetchError, Origin, Report, Response, Step};
use offchain_requests::extrinsic::Extrinsic;
use offchain_requests::pool::PoolState;
use offchain_requests::testing::{
    drain_queue, exec_with_offchain, is_dispatchable, new_test_ext, seal_block, Example,
    TestRuntime,
};

#[test]
fn it_works() {
    let (mut ext, mut state) = exec_with_offchain();
    assert_eq!(ext.example.data_request(), None);
    assert_eq!(*ext.example.results(), vec![]);

    let origin = Origin::signed(42.into());
    assert!(ext.example.request(origin, 100).is_ok());

    assert_eq!(ext.example.data_request(), Some(100));

    seal_block(&mut ext, &mut state);

    assert_eq!(*ext.example.results(), vec![100]);
}

#[test]
fn tick_with_good_fetch_serves_the_request() {
    let (mut ext, mut state) = exec_with_offchain();
    assert!(ext.example.request(Origin::signed(42.into()), 100).is_ok());
    assert_eq!(ext.example.data_request(), Some(100));

    let count = seal_block(&mut ext, &mut state);

    assert_eq!(count, Some(1));
    assert_eq!(*ext.example.results(), vec![100]);
    assert_eq!(ext.example.data_request(), None);
    assert_eq!(ext.block_number, 1);
    assert!(state.transactions.is_empty());
    assert_eq!(
        *ext.example.events(),
        vec![Event::Request(UintAuthorityId(42)), Event::Offchain(UintAuthorityId(42))]
    );
}

#[test]
fn tick_without_authority_leaves_the_request() {
    let mut ext = new_test_ext(vec![UintAuthorityId(7)]);
    let mut state = PoolState::new();
    ext.example = Example::new(vec![UintAuthorityId(42)]);
    assert!(ext.example.request(Origin::signed(42.into()), 100).is_ok());

    let count = seal_block(&mut ext, &mut state);

    assert_eq!(count, None);
    assert_eq!(ext.example.data_request(), Some(100));
    assert_eq!(*ext.example.results(), vec![]);
    assert!(state.transactions.is_empty());
    assert_eq!(ext.block_number, 1);
}

#[test]
fn tick_with_bad_status_submits_nothing() {
    let (mut ext, mut state) = exec_with_offchain();
    ext.reply = Some(Response { code: 404, body: vec![] });
    assert!(ext.example.request(Origin::signed(42.into()), 100).is_ok());

    let report = ext.example.offchain(&ext.keystore, &ext.reply, &mut state);
    assert_eq!(report, Report::FetchFailed(FetchError::BadStatus));
    assert!(state.transactions.is_empty());

    let count = seal_block(&mut ext, &mut state);

    assert_eq!(count, Some(0));
    assert_eq!(ext.example.data_request(), Some(100));
    assert_eq!(*ext.example.results(), vec![]);
    assert!(state.transactions.is_empty());
}

#[test]
fn failed_fetch_is_retried_on_the_next_tick() {
    let (mut ext, mut state) = exec_with_offchain();
    ext.reply = None;
    assert!(ext.example.request(Origin::signed(42.into()), 5).is_ok());
    assert_eq!(seal_block(&mut ext, &mut state), Some(0));
    assert_eq!(ext.example.data_request(), Some(5));

    ext.reply = Some(Response { code: 200, body: b"{}".to_vec() });
    assert_eq!(seal_block(&mut ext, &mut state), Some(1));
    assert_eq!(ext.example.data_request(), None);
    assert_eq!(*ext.example.results(), vec![5]);
    assert_eq!(ext.block_number, 2);
}

#[test]
fn tick_without_request_is_a_no_op() {
    let (mut ext, mut state) = exec_with_offchain();
    let report = ext.example.offchain(&ext.keystore, &ext.reply, &mut state);
    assert_eq!(report, Report::NoRequest);
    assert_eq!(seal_block(&mut ext, &mut state), Some(0));
    assert_eq!(*ext.example.results(), vec![]);
    assert_eq!(*ext.example.events(), vec![]);
}

#[test]
fn worker_reports_no_authority_before_no_request() {
    let ext = new_test_ext(vec![]);
    let mut state = PoolState::new();
    let report = ext.example.offchain(&ext.keystore, &ext.reply, &mut state);
    assert_eq!(report, Report::NoAuthority);
    assert_eq!(ext.example.plan(&ext.keystore), Step::NoAuthority);
}

#[test]
fn two_runs_before_inclusion_both_submit() {
    let (mut ext, mut state) = exec_with_offchain();
    assert!(ext.example.request(Origin::signed(42.into()), 9).is_ok());
    assert_eq!(ext.example.offchain(&ext.keystore, &ext.reply, &mut state), Report::Submitted);
    assert_eq!(ext.example.offchain(&ext.keystore, &ext.reply, &mut state), Report::Submitted);
    assert_eq!(state.transactions.len(), 2);
    assert_eq!(state.transactions[0], state.transactions[1]);

    // the tick runs the worker a third time and then drains all three
    assert_eq!(seal_block(&mut ext, &mut state), Some(3));
    assert_eq!(*ext.example.results(), vec![9, 9, 9]);
    assert_eq!(ext.example.data_request(), None);
}

#[test]
fn plan_picks_the_first_authorized_key_in_store_order() {
    let mut ext = new_test_ext(vec![UintAuthorityId(9), UintAuthorityId(3), UintAuthorityId(5)]);
    ext.example = Example::new(vec![UintAuthorityId(5), UintAuthorityId(3)]);
    assert_eq!(ext.example.authority_id(&ext.keystore), Some(UintAuthorityId(3)));
    assert!(ext.example.request(Origin::signed(1.into()), 77).is_ok());
    assert_eq!(
        ext.example.plan(&ext.keystore),
        Step::Fetch { signer: UintAuthorityId(3), value: 77 }
    );
}

#[test]
fn complete_submits_the_delivery_signed_by_the_signer() {
    let mut state = PoolState::new();
    let reply = Some(Response { code: 200, body: b"ok".to_vec() });
    let report = Example::complete(&mut state, UintAuthorityId(3), 77, &reply);
    assert_eq!(report, Report::Submitted);
    assert_eq!(state.transactions.len(), 1);
    assert_eq!(
        Extrinsic::decode(&state.transactions[0]),
        Some(Extrinsic { signature: Some(UintAuthorityId(3)), call: Call::StoreResult(77) })
    );
}

#[test]
fn queue_is_drained_newest_first() {
    let (mut ext, mut state) = exec_with_offchain();
    let older = Extrinsic { signature: Some(UintAuthorityId(1)), call: Call::StoreResult(10) };
    let newer = Extrinsic { signature: Some(UintAuthorityId(2)), call: Call::StoreResult(20) };
    assert!(state.submit_transaction(older.encode()).is_ok());
    assert!(state.submit_transaction(newer.encode()).is_ok());
    assert!(is_dispatchable(&state));

    assert_eq!(seal_block(&mut ext, &mut state), Some(2));
    assert_eq!(*ext.example.results(), vec![20, 10]);
    assert_eq!(
        *ext.example.events(),
        vec![Event::Offchain(UintAuthorityId(2)), Event::Offchain(UintAuthorityId(1))]
    );
}

#[test]
fn unsigned_or_broken_envelopes_are_not_dispatchable() {
    let mut state = PoolState::new();
    assert!(is_dispatchable(&state));
    let unsigned = Extrinsic { signature: None, call: Call::Mint };
    assert!(state.submit_transaction(unsigned.encode()).is_ok());
    assert!(!is_dispatchable(&state));

    let mut broken = PoolState::new();
    assert!(broken.submit_transaction(vec![1, 2, 3]).is_ok());
    assert!(!is_dispatchable(&broken));
}

#[test]
fn announcing_worker_submits_a_mint() {
    let (mut ext, mut state) = exec_with_offchain();
    assert_eq!(ext.example.offchain_mint(&ext.keystore, &mut state), Report::Submitted);
    assert_eq!(
        Extrinsic::decode(&state.transactions[0]),
        Some(Extrinsic { signature: Some(UintAuthorityId(42)), call: Call::Mint })
    );
    assert_eq!(seal_block(&mut ext, &mut state), Some(1));
    assert_eq!(*ext.example.events(), vec![Event::Mint(UintAuthorityId(42))]);
    assert_eq!(*ext.example.results(), vec![]);

    let stranger = new_test_ext(vec![]);
    let mut queue = PoolState::new();
    assert_eq!(stranger.example.offchain_mint(&stranger.keystore, &mut queue), Report::NoAuthority);
    assert!(queue.transactions.is_empty());
}

#[test]
fn trial_environment_starts_fresh() {
    let (ext, state) = exec_with_offchain();
    assert_eq!(*ext.example.authorities(), vec![UintAuthorityId(42)]);
    assert_eq!(UintAuthorityId::all(&ext.keystore), vec![UintAuthorityId(42)]);
    assert_eq!(ext.block_number, 0);
    assert_eq!(ext.reply, Some(Response { code: 200, body: vec![] }));
    assert_eq!(state.len(), 0);
    assert_eq!(TestRuntime, TestRuntime);
}

#[test]
fn draining_dispatches_each_envelope_from_its_signer() {
    let mut ledger = Example::new(vec![]);
    let mut state = PoolState::new();
    assert_eq!(drain_queue(&mut ledger, &mut state), 0);

    let request = Extrinsic { signature: Some(UintAuthorityId(1)), call: Call::Request(10) };
    let delivery = Extrinsic { signature: Some(UintAuthorityId(2)), call: Call::StoreResult(10) };
    assert!(state.submit_transaction(delivery.encode()).is_ok());
    assert!(state.submit_transaction(request.encode()).is_ok());
    assert_eq!(drain_queue(&mut ledger, &mut state), 2);
    assert_eq!(state.len(), 0);
    assert_eq!(ledger.data_request(), None);
    assert_eq!(*ledger.results(), vec![10]);
    assert_eq!(
        *ledger.events(),
        vec![Event::Request(UintAuthorityId(1)), Event::Offchain(UintAuthorityId(2))]
    );
}
