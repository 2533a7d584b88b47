//! A runtime to try the worker in: a key store, a ledger, a block counter
//! and a canned reply for the fetch, with a queue that is drained by hand.

use crate::authority::{KeyStore, UintAuthorityId};
use crate::example::{
    fetched, first_authorized, worked, Call, Ledger, Module, Origin, Report, Response, Trait,
};
use crate::extrinsic::{decoded, encoded, lemma_round_trip, Extrinsic};
use crate::pool::PoolState;
use crate::submitter::{signed_envelope, TransactionSubmitter};
use vstd::prelude::*;

verus! {

/// The runtime used in trials: it submits through `TransactionSubmitter`.
#[derive(Clone, Copy, Debug, PartialEq, Eq)]
pub struct TestRuntime;

impl Trait for TestRuntime {
    type SubmitTransaction = TransactionSubmitter;
}

/// The ledger of the trial runtime.
pub type Example = Module<TestRuntime>;

/// Everything outside the queue that a trial runs against.
pub struct TestExternalities {
    /// The keys that the node holds.
    pub keystore: KeyStore,
    /// The ledger.
    pub example: Example,
    /// The number of the current block.
    pub block_number: u64,
    /// What every fetch is answered with; `None` lets the fetch fail.
    pub reply: Option<Response>,
}

/// Whether `tx` is the wire form of a signed envelope.
pub open spec fn is_signed(tx: Seq<u8>) -> bool {
    match decoded(tx) {
        Some(xt) => xt.signature is Some,
        None => false,
    }
}

/// Whether every envelope of `queue` can be read and carries a signer.
pub open spec fn dispatchable(queue: Seq<Seq<u8>>) -> bool {
    forall|i: int| 0 <= i < queue.len() ==> is_signed(#[trigger] queue[i])
}

/// The ledger after the envelopes of `queue` were dispatched, the newest
/// first, each from its signer.
pub open spec fn drained(ledger: Ledger, queue: Seq<Seq<u8>>) -> Ledger
    decreases queue.len(),
{
    if queue.len() == 0 {
        ledger
    } else {
        let xt = decoded(queue.last())->0;
        drained(ledger.applied(xt.signature->0, xt.call), queue.drop_last())
    }
}

/// A trial environment in which the node holds `local_keys` and the same
/// accounts are authorized. The ledger is fresh, the block counter is at
/// zero, and every fetch is answered with status 200 and an empty body.
pub fn new_test_ext(local_keys: Vec<UintAuthorityId>) -> (ext: TestExternalities)
    ensures
        ext.keystore@ == local_keys@,
        ext.example@ == (Ledger {
            authorities: local_keys@,
            data_request: None,
            results: Seq::empty(),
            events: Seq::empty(),
        }),
        ext.block_number == 0,
        ext.reply matches Some(response) && response.code == 200 && response.body@
            == Seq::<u8>::empty(),
{
    let mut keystore: KeyStore = KeyStore::new();
    UintAuthorityId::set_all_keys(&mut keystore, local_keys);
    let authorities: Vec<UintAuthorityId> = UintAuthorityId::all(&keystore);
    TestExternalities {
        keystore,
        example: Module::new(authorities),
        block_number: 0,
        reply: Some(Response { code: 200, body: Vec::new() }),
    }
}

/// A trial environment whose node holds the one key 42, with an empty queue
/// beside it.
pub fn exec_with_offchain() -> (trial: (TestExternalities, PoolState))
    ensures
        trial.0.keystore@ == seq![UintAuthorityId(42)],
        trial.0.example@ == (Ledger {
            authorities: seq![UintAuthorityId(42)],
            data_request: None,
            results: Seq::empty(),
            events: Seq::empty(),
        }),
        trial.0.block_number == 0,
        trial.0.reply matches Some(response) && response.code == 200 && response.body@
            == Seq::<u8>::empty(),
        trial.1@ == Seq::<Seq<u8>>::empty(),
{
    let mut local_keys: Vec<UintAuthorityId> = Vec::new();
    local_keys.push(UintAuthorityId(42));
    assert(local_keys@ =~= seq![UintAuthorityId(42)]);
    let ext: TestExternalities = new_test_ext(local_keys);
    (ext, PoolState::new())
}

/// Dispatches everything in the queue on `ledger`, the newest envelope
/// first, each from its signer, and leaves the queue empty. Returns how many
/// envelopes there were.
pub fn drain_queue(ledger: &mut Example, state: &mut PoolState) -> (count: usize)
    requires
        dispatchable(old(state)@),
    ensures
        count == old(state)@.len(),
        final(state)@ == Seq::<Seq<u8>>::empty(),
        final(ledger)@ == drained(old(ledger)@, old(state)@),
{
    let count: usize = state.len();
    loop
        invariant
            dispatchable(state@),
            drained(ledger@, state@) == drained(old(ledger)@, old(state)@),
        ensures
            state@ == Seq::<Seq<u8>>::empty(),
            ledger@ == drained(old(ledger)@, old(state)@),
        decreases state@.len(),
    {
        let ghost before = state@;
        match state.pop() {
            None => {
                assert(state@ =~= Seq::<Seq<u8>>::empty());
                break ;
            },
            Some(tx) => {
                assert(is_signed(before[before.len() - 1]));
                match Extrinsic::decode(tx.as_slice()) {
                    Some(Extrinsic { signature: Some(who), call }) => {
                        let _ = ledger.dispatch(call, Origin::signed(who));
                    },
                    _ => {
                        proof {
                            assert(false);
                        }
                    },
                }
                assert forall|i: int| 0 <= i < state@.len() implies is_signed(
                    #[trigger] state@[i],
                ) by {
                    assert(state@[i] == before[i]);
                }
            },
        }
    }
    count
}

/// Seals one block: advances the block counter and, if a local key is
/// authorized, runs the worker once and then dispatches everything in the
/// queue, the newest envelope first, each from its signer. Returns how many
/// envelopes were dispatched, or `None` if the worker was not run.
pub fn seal_block(ext: &mut TestExternalities, state: &mut PoolState) -> (count: Option<usize>)
    requires
        old(ext).block_number < u64::MAX,
        dispatchable(old(state)@),
    ensures
        final(ext).block_number == old(ext).block_number + 1,
        final(ext).keystore == old(ext).keystore,
        final(ext).reply == old(ext).reply,
        match first_authorized(old(ext).keystore@, old(ext).example@.authorities) {
            None => {
                &&& count is None
                &&& final(state)@ == old(state)@
                &&& final(ext).example@ == old(ext).example@
            },
            Some(_) => {
                let queue = worked::<TestRuntime>(
                    old(ext).keystore@,
                    old(ext).example@,
                    old(ext).reply,
                    old(state)@,
                ).1;
                &&& count == Some(queue.len() as usize)
                &&& final(state)@ == Seq::<Seq<u8>>::empty()
                &&& final(ext).example@ == drained(old(ext).example@, queue)
            },
        },
{
    ext.block_number = ext.block_number + 1;
    match ext.example.authority_id(&ext.keystore) {
        None => None,
        Some(_) => {
            let _ = ext.example.offchain(&ext.keystore, &ext.reply, state);
            proof {
                lemma_worker_keeps_dispatchable(*old(ext), old(state)@);
            }
            Some(drain_queue(&mut ext.example, state))
        },
    }
}

/// A queue of signed envelopes still is one after a run of the worker.
proof fn lemma_worker_keeps_dispatchable(ext: TestExternalities, queue: Seq<Seq<u8>>)
    requires
        dispatchable(queue),
    ensures
        dispatchable(worked::<TestRuntime>(ext.keystore@, ext.example@, ext.reply, queue).1),
{
    let after = worked::<TestRuntime>(ext.keystore@, ext.example@, ext.reply, queue).1;
    assert forall|i: int| 0 <= i < after.len() implies is_signed(#[trigger] after[i]) by {
        if i < queue.len() {
            assert(after[i] == queue[i]);
        } else {
            let xt = choose|xt: Extrinsic|
                xt.signature is Some && after[i] == encoded(xt);
            lemma_round_trip(xt, Seq::empty());
            assert(encoded(xt) + Seq::<u8>::empty()
                =~= encoded(xt));
        }
    }
}

/// Whether every envelope in `state` can be read and carries a signer, so
/// that a block can be sealed over it.
pub fn is_dispatchable(state: &PoolState) -> (ok: bool)
    ensures
        ok == dispatchable(state@),
{
    let mut i: usize = 0;
    while i < state.transactions.len()
        invariant
            i <= state.transactions.len(),
            forall|k: int| 0 <= k < i ==> is_signed(#[trigger] state@[k]),
        decreases state.transactions.len() - i,
    {
        assert(state@[i as int] == state.transactions@[i as int]@);
        match Extrinsic::decode(state.transactions[i].as_slice()) {
            Some(Extrinsic { signature: Some(_), call: _ }) => {},
            _ => {
                return false;
            },
        }
        i += 1;
    }
    true
}

/// A block sealed over an empty queue, with an authorized local key, an
/// outstanding request and a good reply, serves the request: its value is
/// the newest result, delivered by the first authorized local key, and the
/// slot is empty.
pub proof fn lemma_tick_serves_request(
    keys: Seq<UintAuthorityId>,
    ledger: Ledger,
    reply: Option<Response>,
    value: u64,
)
    requires
        first_authorized(keys, ledger.authorities) is Some,
        ledger.data_request == Some(value),
        fetched(reply) is Ok,
    ensures
        ({
            let run = worked::<TestRuntime>(keys, ledger, reply, Seq::empty());
            let after = drained(ledger, run.1);
            &&& run.0 == Report::Submitted
            &&& run.1.len() == 1
            &&& after == ledger.store_result(first_authorized(keys, ledger.authorities)->0, value)
            &&& after.data_request is None
            &&& after.results == ledger.results.push(value)
        }),
{
    let signer = first_authorized(keys, ledger.authorities)->0;
    let xt = signed_envelope(Call::StoreResult(value), signer);
    let queue = worked::<TestRuntime>(keys, ledger, reply, Seq::empty()).1;
    assert(queue =~= seq![encoded(xt)]);
    lemma_round_trip(xt, Seq::empty());
    assert(encoded(xt) + Seq::<u8>::empty() =~= encoded(xt));
    assert(queue.drop_last() =~= Seq::<Seq<u8>>::empty());
    assert(drained(ledger, queue) == drained(ledger.applied(signer, xt.call), queue.drop_last()));
}

/// A block sealed over an empty queue changes nothing on the ledger where
/// the worker has nothing to deliver: no request, or a failed fetch.
pub proof fn lemma_tick_without_delivery(
    keys: Seq<UintAuthorityId>,
    ledger: Ledger,
    reply: Option<Response>,
)
    requires
        ledger.data_request is None || fetched(reply) is Err,
    ensures
        ({
            let run = worked::<TestRuntime>(keys, ledger, reply, Seq::empty());
            &&& run.1 == Seq::<Seq<u8>>::empty()
            &&& drained(ledger, run.1) == ledger
        }),
{
}

} // verus!
