use offchain_requests::authority::UintAuthorityId;
use offchain_requests::example::{ensure_signed, Call, DispatchError, Event, Origin};
use offchain_requests::testing::Example;

#[test]
fn request_fills_the_slot() {
    let mut ledger = Example::new(vec![]);
    assert_eq!(ledger.request(Origin::signed(UintAuthorityId(1)), 11), Ok(()));
    assert_eq!(ledger.data_request(), Some(11));
    assert_eq!(*ledger.results(), vec![]);
    assert_eq!(*ledger.events(), vec![Event::Request(UintAuthorityId(1))]);
}

#[test]
fn second_request_overwrites_the_first() {
    let mut ledger = Example::new(vec![]);
    assert_eq!(ledger.request(Origin::signed(UintAuthorityId(1)), 11), Ok(()));
    assert_eq!(ledger.request(Origin::signed(UintAuthorityId(2)), 22), Ok(()));
    assert_eq!(ledger.data_request(), Some(22));
    assert_eq!(*ledger.results(), vec![]);
    assert_eq!(ledger.store_result(Origin::signed(UintAuthorityId(3)), 22), Ok(()));
    assert_eq!(*ledger.results(), vec![22]);
}

#[test]
fn store_result_on_an_empty_slot_still_appends() {
    let mut ledger = Example::new(vec![]);
    assert_eq!(ledger.data_request(), None);
    assert_eq!(ledger.store_result(Origin::signed(UintAuthorityId(1)), 5), Ok(()));
    assert_eq!(ledger.data_request(), None);
    assert_eq!(*ledger.results(), vec![5]);
    assert_eq!(ledger.store_result(Origin::signed(UintAuthorityId(1)), 6), Ok(()));
    assert_eq!(*ledger.results(), vec![5, 6]);
    assert_eq!(
        *ledger.events(),
        vec![Event::Offchain(UintAuthorityId(1)), Event::Offchain(UintAuthorityId(1))]
    );
}

#[test]
fn store_result_clears_the_slot() {
    let mut ledger = Example::new(vec![]);
    assert_eq!(ledger.request(Origin::signed(UintAuthorityId(1)), 11), Ok(()));
    assert_eq!(ledger.store_result(Origin::signed(UintAuthorityId(2)), 99), Ok(()));
    assert_eq!(ledger.data_request(), None);
    assert_eq!(*ledger.results(), vec![99]);
}

#[test]
fn unsigned_origins_are_turned_down() {
    let mut ledger = Example::new(vec![UintAuthorityId(1)]);
    assert_eq!(ledger.request(Origin::Root, 1), Err(DispatchError::BadOrigin));
    assert_eq!(ledger.request(Origin::Unsigned, 1), Err(DispatchError::BadOrigin));
    assert_eq!(ledger.store_result(Origin::Unsigned, 1), Err(DispatchError::BadOrigin));
    assert_eq!(ledger.mint(Origin::Root), Err(DispatchError::BadOrigin));
    assert_eq!(ledger.submit_from_offchain(Origin::Unsigned, Some(1)), Err(DispatchError::BadOrigin));
    assert_eq!(ledger.dispatch(Call::Mint, Origin::Unsigned), Err(DispatchError::BadOrigin));
    assert_eq!(ledger.data_request(), None);
    assert_eq!(*ledger.results(), vec![]);
    assert_eq!(*ledger.events(), vec![]);
    assert_eq!(*ledger.authorities(), vec![UintAuthorityId(1)]);
}

#[test]
fn ensure_signed_gives_the_signer() {
    assert_eq!(ensure_signed(Origin::Signed(UintAuthorityId(8))), Ok(UintAuthorityId(8)));
    assert_eq!(ensure_signed(Origin::Root), Err(DispatchError::BadOrigin));
    assert_eq!(ensure_signed(Origin::Unsigned), Err(DispatchError::BadOrigin));
    assert_eq!(Origin::signed(UintAuthorityId(8)), Origin::Signed(UintAuthorityId(8)));
}

#[test]
fn mint_only_leaves_an_event() {
    let mut ledger = Example::new(vec![]);
    assert_eq!(ledger.request(Origin::signed(UintAuthorityId(1)), 11), Ok(()));
    assert_eq!(ledger.mint(Origin::signed(UintAuthorityId(4))), Ok(()));
    assert_eq!(ledger.data_request(), Some(11));
    assert_eq!(*ledger.results(), vec![]);
    assert_eq!(
        *ledger.events(),
        vec![Event::Request(UintAuthorityId(1)), Event::Mint(UintAuthorityId(4))]
    );
}

#[test]
fn submit_from_offchain_clears_and_records() {
    let mut ledger = Example::new(vec![]);
    assert_eq!(ledger.request(Origin::signed(UintAuthorityId(1)), 11), Ok(()));
    assert_eq!(ledger.submit_from_offchain(Origin::signed(UintAuthorityId(2)), None), Ok(()));
    assert_eq!(ledger.data_request(), None);
    assert_eq!(*ledger.results(), vec![]);
    assert_eq!(ledger.request(Origin::signed(UintAuthorityId(1)), 12), Ok(()));
    assert_eq!(ledger.submit_from_offchain(Origin::signed(UintAuthorityId(2)), Some(34)), Ok(()));
    assert_eq!(ledger.data_request(), None);
    assert_eq!(*ledger.results(), vec![34]);
}

#[test]
fn dispatch_reaches_every_entry_point() {
    let mut ledger = Example::new(vec![]);
    let who = Origin::signed(UintAuthorityId(6));
    assert_eq!(ledger.dispatch(Call::Request(1), who), Ok(()));
    assert_eq!(ledger.data_request(), Some(1));
    assert_eq!(ledger.dispatch(Call::StoreResult(2), who), Ok(()));
    assert_eq!(ledger.dispatch(Call::Mint, who), Ok(()));
    assert_eq!(ledger.dispatch(Call::SubmitFromOffchain(Some(3)), who), Ok(()));
    assert_eq!(*ledger.results(), vec![2, 3]);
    assert_eq!(
        *ledger.events(),
        vec![
            Event::Request(UintAuthorityId(6)),
            Event::Offchain(UintAuthorityId(6)),
            Event::Mint(UintAuthorityId(6)),
            Event::Offchain(UintAuthorityId(6)),
        ]
    );
}
