//! Matching local keys against accounts, and signed submission with them.

use crate::authority::{KeyStore, UintAuthorityId};
use crate::example::Call;
use crate::extrinsic::{encoded, Extrinsic};
use crate::pool::PoolState;
use vstd::prelude::*;
use vstd::seq_lib::{to_multiset_build, to_multiset_contains, to_multiset_insert};

verus! {

/// An account together with the local key that signs for it.
pub type Signer = (UintAuthorityId, UintAuthorityId);

/// Every key paired with the account that it stands for, in the order of
/// `keys`.
pub open spec fn local_pairs(keys: Seq<UintAuthorityId>) -> Seq<Signer> {
    Seq::new(keys.len(), |i: int| (keys[i], keys[i]))
}

/// Whether the accounts of `pairs` never decrease.
pub open spec fn sorted_by_account(pairs: Seq<Signer>) -> bool {
    forall|i: int, j: int| 0 <= i < j < pairs.len() ==> pairs[i].0.0 <= pairs[j].0.0
}

/// Whether some pair of `pairs` belongs to `account`.
pub open spec fn has_account(pairs: Seq<Signer>, account: UintAuthorityId) -> bool {
    exists|i: int| 0 <= i < pairs.len() && pairs[i].0 == account
}

/// The signers found for `accounts` among `keys`: one pair for every entry of
/// `accounts` that has a local key, in the order of `accounts`. An entry
/// without a local key gives nothing; an entry that occurs twice gives its
/// pair twice.
pub open spec fn matched(keys: Seq<UintAuthorityId>, accounts: Seq<UintAuthorityId>) -> Seq<Signer>
    decreases accounts.len(),
{
    if accounts.len() == 0 {
        Seq::empty()
    } else {
        let earlier = matched(keys, accounts.drop_last());
        let account = accounts.last();
        if keys.contains(account) {
            earlier.push((account, account))
        } else {
            earlier
        }
    }
}

/// The pairs of `pairs` that belong to `account`, in their order.
pub open spec fn with_account(pairs: Seq<Signer>, account: UintAuthorityId) -> Seq<Signer>
    decreases pairs.len(),
{
    if pairs.len() == 0 {
        Seq::empty()
    } else {
        let earlier = with_account(pairs.drop_last(), account);
        if pairs.last().0 == account {
            earlier.push(pairs.last())
        } else {
            earlier
        }
    }
}

/// A pair that is put in front of pairs of greater accounts only comes last
/// among the pairs of its own account, and leaves those of every other
/// account as they were.
proof fn lemma_insert_keeps_order(
    pairs: Seq<Signer>,
    at: int,
    pair: Signer,
    account: UintAuthorityId,
)
    requires
        0 <= at <= pairs.len(),
        forall|k: int| at <= k < pairs.len() ==> pairs[k].0.0 > pair.0.0,
    ensures
        with_account(pairs.insert(at, pair), account) == if pair.0 == account {
            with_account(pairs, account).push(pair)
        } else {
            with_account(pairs, account)
        },
    decreases pairs.len() - at,
{
    let longer = pairs.insert(at, pair);
    if at == pairs.len() {
        assert(longer.drop_last() =~= pairs);
    } else {
        let shorter = pairs.drop_last();
        assert(longer.last() == pairs.last());
        assert(longer.drop_last() =~= shorter.insert(at, pair));
        assert(pairs.last().0.0 > pair.0.0);
        lemma_insert_keeps_order(shorter, at, pair, account);
    }
}

/// Sorts `pairs` by account. Pairs of one account keep their order.
pub fn sort_by_account(pairs: &mut Vec<Signer>)
    ensures
        sorted_by_account(final(pairs)@),
        final(pairs)@.to_multiset() == old(pairs)@.to_multiset(),
        forall|account: UintAuthorityId| #[trigger]
            with_account(final(pairs)@, account) == with_account(old(pairs)@, account),
{
    let mut sorted: Vec<Signer> = Vec::new();
    let mut i: usize = 0;
    assert(pairs@.take(0) =~= sorted@);
    while i < pairs.len()
        invariant
            i <= pairs.len(),
            sorted_by_account(sorted@),
            sorted@.len() == i,
            sorted@.to_multiset() == pairs@.take(i as int).to_multiset(),
            forall|account: UintAuthorityId| #[trigger]
                with_account(sorted@, account) == with_account(pairs@.take(i as int), account),
        decreases pairs.len() - i,
    {
        let pair: Signer = pairs[i];
        let mut at: usize = sorted.len();
        while at > 0 && sorted[at - 1].0.0 > pair.0.0
            invariant
                at <= sorted@.len(),
                forall|k: int| at <= k < sorted@.len() ==> sorted@[k].0.0 > pair.0.0,
            decreases at,
        {
            at -= 1;
        }
        proof {
            let before = sorted@;
            let after = before.insert(at as int, pair);
            assert(sorted_by_account(after)) by {
                assert forall|a: int, b: int| 0 <= a < b < after.len() implies after[a].0.0
                    <= after[b].0.0 by {
                    if at > 0 {
                        assert(before[at - 1].0.0 <= pair.0.0);
                    }
                    if a < at && b == at {
                        if a < at - 1 {
                            assert(before[a].0.0 <= before[at - 1].0.0);
                        }
                    } else if a < at && b > at {
                        assert(after[b] == before[b - 1]);
                    } else if a == at {
                        assert(after[b] == before[b - 1]);
                    } else if a > at {
                        assert(after[a] == before[a - 1]);
                        assert(after[b] == before[b - 1]);
                    }
                }
            }
            to_multiset_insert(before, at as int, pair);
            to_multiset_build(pairs@.take(i as int), pair);
            assert(pairs@.take(i + 1) =~= pairs@.take(i as int).push(pair));
            assert(pairs@.take(i + 1).drop_last() =~= pairs@.take(i as int));
            assert forall|account: UintAuthorityId| #[trigger]
                with_account(after, account) == with_account(
                    pairs@.take(i + 1),
                    account,
                ) by {
                lemma_insert_keeps_order(before, at as int, pair, account);
            }
        }
        sorted.insert(at, pair);
        i += 1;
    }
    assert(pairs@.take(i as int) =~= pairs@);
    *pairs = sorted;
}

/// Looks `account` up among `pairs`, which are sorted by account, by halving
/// the range in which it can lie.
pub fn search_by_account(pairs: &Vec<Signer>, account: UintAuthorityId) -> (found: Option<usize>)
    requires
        sorted_by_account(pairs@),
    ensures
        match found {
            Some(index) => index < pairs@.len() && pairs@[index as int].0 == account,
            None => !has_account(pairs@, account),
        },
{
    let mut low: usize = 0;
    let mut high: usize = pairs.len();
    while low < high
        invariant
            low <= high <= pairs@.len(),
            sorted_by_account(pairs@),
            forall|k: int| 0 <= k < low ==> pairs@[k].0.0 < account.0,
            forall|k: int| high <= k < pairs@.len() ==> pairs@[k].0.0 > account.0,
        decreases high - low,
    {
        let middle: usize = low + (high - low) / 2;
        let here: u64 = pairs[middle].0.0;
        if here == account.0 {
            return Some(middle);
        } else if here < account.0 {
            low = middle + 1;
        } else {
            high = middle;
        }
    }
    assert(!has_account(pairs@, account)) by {
        assert forall|k: int| 0 <= k < pairs@.len() implies pairs@[k].0 != account by {
            if k < low {
                assert(pairs@[k].0.0 < account.0);
            } else {
                assert(pairs@[k].0.0 > account.0);
            }
        }
    }
    None
}

/// The signers that a search for `accounts` among `keys` gives: all local
/// signers where no accounts are named, else the matched ones.
pub open spec fn found_keys(
    keys: Seq<UintAuthorityId>,
    accounts: Option<Vec<UintAuthorityId>>,
) -> Seq<Signer> {
    match accounts {
        None => local_pairs(keys),
        Some(list) => matched(keys, list@),
    }
}

/// The envelope that `key` signs around `call`.
pub open spec fn signed_envelope(call: Call, key: UintAuthorityId) -> Extrinsic {
    Extrinsic { signature: Some(key), call }
}

/// The outcome of one submission, and the queue after it.
pub open spec fn submitted(queue: Seq<Seq<u8>>, accepted: bool, xt: Extrinsic) -> (
    Result<(), ()>,
    Seq<Seq<u8>>,
) {
    if accepted {
        (Ok(()), queue.push(encoded(xt)))
    } else {
        (Err(()), queue)
    }
}

/// The queue after `call` was signed and submitted for each of `signers` in
/// turn, starting from `queue`, where `results` holds the outcome for each:
/// an envelope was added for every signer whose submission succeeded.
pub open spec fn delivered(
    queue: Seq<Seq<u8>>,
    call: Call,
    signers: Seq<Signer>,
    results: Seq<(UintAuthorityId, Result<(), ()>)>,
) -> Seq<Seq<u8>>
    decreases signers.len(),
{
    if signers.len() == 0 || results.len() != signers.len() {
        queue
    } else {
        let before = delivered(queue, call, signers.drop_last(), results.drop_last());
        if results.last().1 is Ok {
            before.push(encoded(signed_envelope(call, signers.last().1)))
        } else {
            before
        }
    }
}

/// Signed submission from the accounts that a node holds keys for.
pub trait SubmitAndSignTransaction {
    /// Whether the envelope `xt` can be built and is taken by a queue that
    /// holds `queue`.
    spec fn accepts(queue: Seq<Seq<u8>>, xt: Extrinsic) -> bool;

    /// Finds the local keys that match `accounts`: the accounts that are
    /// named and have a key in `keystore`, each with its key. Where no
    /// accounts are named, all local keys with their accounts, in the order
    /// of the key store.
    fn find_local_keys(keystore: &KeyStore, accounts: Option<Vec<UintAuthorityId>>) -> (found: Vec<
        Signer,
    >)
        ensures
            found@ == found_keys(keystore@, accounts),
    ;

    /// Signs `call` with `key` and hands the envelope to `pool`. On failure
    /// the queue is as it was.
    fn sign_and_submit(pool: &mut PoolState, call: Call, key: UintAuthorityId) -> (outcome: Result<
        (),
        (),
    >)
        ensures
            outcome == submitted(
                old(pool)@,
                Self::accepts(old(pool)@, signed_envelope(call, key)),
                signed_envelope(call, key),
            ).0,
            final(pool)@ == submitted(
                old(pool)@,
                Self::accepts(old(pool)@, signed_envelope(call, key)),
                signed_envelope(call, key),
            ).1,
    ;

    /// Signs `call` for every one of `accounts` that has a local key, and
    /// submits the envelopes one after the other. Returns each such account
    /// with the outcome of its submission.
    fn submit_signed_from(
        pool: &mut PoolState,
        keystore: &KeyStore,
        call: Call,
        accounts: Vec<UintAuthorityId>,
    ) -> (results: Vec<(UintAuthorityId, Result<(), ()>)>)
        ensures
            results@.len() == matched(keystore@, accounts@).len(),
            forall|i: int|
                0 <= i < results@.len() ==> {
                    let signers = matched(keystore@, accounts@);
                    &&& (#[trigger] results@[i]).0 == signers[i].0
                    &&& results@[i].1 is Ok <==> Self::accepts(
                        delivered(old(pool)@, call, signers.take(i), results@.take(i)),
                        signed_envelope(call, signers[i].1),
                    )
                },
            final(pool)@ == delivered(
                old(pool)@,
                call,
                matched(keystore@, accounts@),
                results@,
            ),
    {
        let keys: Vec<Signer> = Self::find_local_keys(keystore, Some(accounts));
        let mut results: Vec<(UintAuthorityId, Result<(), ()>)> = Vec::new();
        let mut n: usize = 0;
        while n < keys.len()
            invariant
                n <= keys.len(),
                results@.len() == n,
                forall|i: int|
                    0 <= i < n ==> {
                        &&& (#[trigger] results@[i]).0 == keys@[i].0
                        &&& results@[i].1 is Ok <==> Self::accepts(
                            delivered(old(pool)@, call, keys@.take(i), results@.take(i)),
                            signed_envelope(call, keys@[i].1),
                        )
                    },
                pool@ == delivered(old(pool)@, call, keys@.take(n as int), results@),
            decreases keys.len() - n,
        {
            let signer: Signer = keys[n];
            let ghost earlier = results@;
            let outcome = Self::sign_and_submit(pool, call, signer.1);
            results.push((signer.0, outcome));
            proof {
                lemma_delivered_step(old(pool)@, call, keys@, earlier, n as int, outcome);
                assert(earlier.take(n as int) =~= earlier);
                assert forall|i: int| 0 <= i < n + 1 implies {
                    &&& (#[trigger] results@[i]).0 == keys@[i].0
                    &&& results@[i].1 is Ok <==> Self::accepts(
                        delivered(old(pool)@, call, keys@.take(i), results@.take(i)),
                        signed_envelope(call, keys@[i].1),
                    )
                } by {
                    assert(results@.take(i) == earlier.take(i));
                    if i < n {
                        assert(results@[i] == earlier[i]);
                    }
                }
            }
            n += 1;
        }
        assert(keys@.take(n as int) =~= keys@);
        results
    }

    /// Signs `call` for every local account, and submits the envelopes one
    /// after the other. Returns each account with the outcome of its
    /// submission.
    fn submit_signed(pool: &mut PoolState, keystore: &KeyStore, call: Call) -> (results: Vec<
        (UintAuthorityId, Result<(), ()>),
    >)
        ensures
            results@.len() == local_pairs(keystore@).len(),
            forall|i: int|
                0 <= i < results@.len() ==> {
                    let signers = local_pairs(keystore@);
                    &&& (#[trigger] results@[i]).0 == signers[i].0
                    &&& results@[i].1 is Ok <==> Self::accepts(
                        delivered(old(pool)@, call, signers.take(i), results@.take(i)),
                        signed_envelope(call, signers[i].1),
                    )
                },
            final(pool)@ == delivered(old(pool)@, call, local_pairs(keystore@), results@),
    {
        let keys: Vec<Signer> = Self::find_local_keys(keystore, None);
        let mut results: Vec<(UintAuthorityId, Result<(), ()>)> = Vec::new();
        let mut n: usize = 0;
        while n < keys.len()
            invariant
                n <= keys.len(),
                results@.len() == n,
                forall|i: int|
                    0 <= i < n ==> {
                        &&& (#[trigger] results@[i]).0 == keys@[i].0
                        &&& results@[i].1 is Ok <==> Self::accepts(
                            delivered(old(pool)@, call, keys@.take(i), results@.take(i)),
                            signed_envelope(call, keys@[i].1),
                        )
                    },
                pool@ == delivered(old(pool)@, call, keys@.take(n as int), results@),
            decreases keys.len() - n,
        {
            let signer: Signer = keys[n];
            let ghost earlier = results@;
            let outcome = Self::sign_and_submit(pool, call, signer.1);
            results.push((signer.0, outcome));
            proof {
                lemma_delivered_step(old(pool)@, call, keys@, earlier, n as int, outcome);
                assert(earlier.take(n as int) =~= earlier);
                assert forall|i: int| 0 <= i < n + 1 implies {
                    &&& (#[trigger] results@[i]).0 == keys@[i].0
                    &&& results@[i].1 is Ok <==> Self::accepts(
                        delivered(old(pool)@, call, keys@.take(i), results@.take(i)),
                        signed_envelope(call, keys@[i].1),
                    )
                } by {
                    assert(results@.take(i) == earlier.take(i));
                    if i < n {
                        assert(results@[i] == earlier[i]);
                    }
                }
            }
            n += 1;
        }
        assert(keys@.take(n as int) =~= keys@);
        results
    }
}

/// One more submission extends the delivered queue by its envelope, or
/// leaves it alone, and changes nothing about the submissions before it.
pub proof fn lemma_delivered_step(
    queue: Seq<Seq<u8>>,
    call: Call,
    signers: Seq<Signer>,
    earlier: Seq<(UintAuthorityId, Result<(), ()>)>,
    n: int,
    outcome: Result<(), ()>,
)
    requires
        0 <= n < signers.len(),
        earlier.len() == n,
    ensures
        ({
            let results = earlier.push((signers[n].0, outcome));
            let before = delivered(queue, call, signers.take(n), earlier);
            &&& delivered(queue, call, signers.take(n + 1), results) == if outcome is Ok {
                before.push(encoded(signed_envelope(call, signers[n].1)))
            } else {
                before
            }
            &&& forall|i: int| 0 <= i <= n ==> #[trigger] results.take(i) == earlier.take(i)
        }),
{
    let results = earlier.push((signers[n].0, outcome));
    assert(signers.take(n + 1).drop_last() =~= signers.take(n));
    assert(results.drop_last() =~= earlier);
    assert forall|i: int| 0 <= i <= n implies #[trigger] results.take(i) == earlier.take(i) by {
        assert(results.take(i) =~= earlier.take(i));
    }
}

/// The submitter that signs with the keys of the local key store and hands
/// every envelope to the in-memory queue.
#[derive(Clone, Copy, Debug, PartialEq, Eq)]
pub struct TransactionSubmitter;

impl Default for TransactionSubmitter {
    fn default() -> (submitter: TransactionSubmitter)
        ensures
            submitter == TransactionSubmitter,
    {
        TransactionSubmitter
    }
}

impl SubmitAndSignTransaction for TransactionSubmitter {
    open spec fn accepts(queue: Seq<Seq<u8>>, xt: Extrinsic) -> bool {
        true
    }

    fn find_local_keys(keystore: &KeyStore, accounts: Option<Vec<UintAuthorityId>>) -> (found: Vec<
        Signer,
    >) {
        let keys: Vec<UintAuthorityId> = UintAuthorityId::all(keystore);
        let mut local: Vec<Signer> = Vec::new();
        let mut i: usize = 0;
        while i < keys.len()
            invariant
                i <= keys.len(),
                local@ == local_pairs(keys@.take(i as int)),
            decreases keys.len() - i,
        {
            let key: UintAuthorityId = keys[i];
            local.push((key.into_account(), key));
            assert(local@ =~= local_pairs(keys@.take(i + 1)));
            i += 1;
        }
        assert(keys@.take(i as int) =~= keys@);
        match accounts {
            None => local,
            Some(list) => {
                let ghost unsorted = local@;
                sort_by_account(&mut local);
                proof {
                    lemma_same_pairs(unsorted, local@);
                }
                let mut found: Vec<Signer> = Vec::new();
                let mut n: usize = 0;
                assert(list@.take(0) =~= Seq::<UintAuthorityId>::empty());
                while n < list.len()
                    invariant
                        n <= list.len(),
                        sorted_by_account(local@),
                        unsorted == local_pairs(keys@),
                        forall|pair: Signer| local@.contains(pair) <==> unsorted.contains(pair),
                        found@ == matched(keys@, list@.take(n as int)),
                    decreases list.len() - n,
                {
                    let account: UintAuthorityId = list[n];
                    proof {
                        assert(list@.take(n + 1).drop_last() =~= list@.take(n as int));
                        lemma_local_pairs(keys@, account);
                    }
                    match search_by_account(&local, account) {
                        Some(index) => {
                            let pair: Signer = local[index];
                            assert(local@.contains(pair));
                            assert(unsorted.contains(pair));
                            found.push(pair);
                        },
                        None => {
                            assert(!local@.contains((account, account))) by {
                                if local@.contains((account, account)) {
                                    let k = choose|k: int|
                                        0 <= k < local@.len() && local@[k] == (account, account);
                                    assert(local@[k].0 == account);
                                }
                            }
                        },
                    }
                    n += 1;
                }
                assert(list@.take(n as int) =~= list@);
                found
            },
        }
    }

    fn sign_and_submit(pool: &mut PoolState, call: Call, key: UintAuthorityId) -> (outcome: Result<
        (),
        (),
    >) {
        let account: UintAuthorityId = key.into_account();
        let (call, signature) = match Call::create_transaction(call, key, account, 0) {
            Some(prepared) => prepared,
            None => {
                return Err(());
            },
        };
        match Extrinsic::new(call, Some(signature)) {
            Some(xt) => pool.submit_transaction(xt.encode()),
            None => Err(()),
        }
    }
}

/// A sequence and its rearrangement hold the same pairs.
proof fn lemma_same_pairs(before: Seq<Signer>, after: Seq<Signer>)
    requires
        before.to_multiset() == after.to_multiset(),
    ensures
        forall|pair: Signer| after.contains(pair) <==> before.contains(pair),
{
    assert forall|pair: Signer| after.contains(pair) <==> before.contains(pair) by {
        to_multiset_contains(before, pair);
        to_multiset_contains(after, pair);
    }
}

/// The local pairs of `keys` are the pairs of a key with itself, and one of
/// them belongs to `account` just when `account` is one of the keys.
proof fn lemma_local_pairs(keys: Seq<UintAuthorityId>, account: UintAuthorityId)
    ensures
        forall|pair: Signer| #[trigger] local_pairs(keys).contains(pair) ==> pair.0 == pair.1,
        local_pairs(keys).contains((account, account)) <==> keys.contains(account),
{
    let pairs = local_pairs(keys);
    assert forall|pair: Signer| #[trigger] pairs.contains(pair) implies pair.0 == pair.1 by {
        let k = choose|k: int| 0 <= k < pairs.len() && pairs[k] == pair;
        assert(pairs[k] == (keys[k], keys[k]));
    }
    if keys.contains(account) {
        let k = choose|k: int| 0 <= k < keys.len() && keys[k] == account;
        assert(pairs[k] == (account, account));
    }
    if pairs.contains((account, account)) {
        let k = choose|k: int| 0 <= k < pairs.len() && pairs[k] == (account, account);
        assert(keys[k] == account);
    }
}

/// Every matched pair is an account that was named and has a local key,
/// together with that key; and an account is matched as often as it was
/// named if it has a local key, and never if it has none. So among accounts
/// that are named once each, one with a local key is found exactly once.
pub proof fn lemma_matched_accounts(
    keys: Seq<UintAuthorityId>,
    accounts: Seq<UintAuthorityId>,
    account: UintAuthorityId,
)
    ensures
        forall|i: int|
            0 <= i < matched(keys, accounts).len() ==> {
                let pair = #[trigger] matched(keys, accounts)[i];
                pair.0 == pair.1 && accounts.contains(pair.0) && keys.contains(pair.1)
            },
        matched(keys, accounts).to_multiset().count((account, account)) == if keys.contains(
            account,
        ) {
            accounts.to_multiset().count(account)
        } else {
            0
        },
        matched(keys, accounts).len() <= accounts.len(),
    decreases accounts.len(),
{
    broadcast use vstd::multiset::group_multiset_axioms;

    if accounts.len() == 0 {
        assert(accounts.to_multiset().count(account) == 0) by {
            to_multiset_contains(accounts, account);
        }
        assert(matched(keys, accounts).to_multiset().count((account, account)) == 0) by {
            to_multiset_contains(matched(keys, accounts), (account, account));
        }
    } else {
        let earlier = accounts.drop_last();
        let last = accounts.last();
        lemma_matched_accounts(keys, earlier, account);
        assert(accounts =~= earlier.push(last));
        to_multiset_build(earlier, last);
        if keys.contains(last) {
            to_multiset_build(matched(keys, earlier), (last, last));
        }
        assert forall|i: int| 0 <= i < matched(keys, accounts).len() implies {
            let pair = #[trigger] matched(keys, accounts)[i];
            pair.0 == pair.1 && accounts.contains(pair.0) && keys.contains(pair.1)
        } by {
            let pair = matched(keys, accounts)[i];
            if i < matched(keys, earlier).len() {
                assert(pair == matched(keys, earlier)[i]);
                let k = choose|k: int| 0 <= k < earlier.len() && earlier[k] == pair.0;
                assert(accounts[k] == pair.0);
            } else {
                assert(pair == (last, last));
                assert(accounts[accounts.len() - 1] == last);
            }
        }
    }
}

/// Where every named account has a local key, each is matched: the result
/// pairs every named account with itself.
pub proof fn lemma_matched_all(keys: Seq<UintAuthorityId>, accounts: Seq<UintAuthorityId>)
    requires
        forall|i: int| 0 <= i < accounts.len() ==> keys.contains(#[trigger] accounts[i]),
    ensures
        matched(keys, accounts) == local_pairs(accounts),
    decreases accounts.len(),
{
    if accounts.len() == 0 {
        assert(matched(keys, accounts) =~= local_pairs(accounts));
    } else {
        let earlier = accounts.drop_last();
        assert forall|i: int| 0 <= i < earlier.len() implies keys.contains(
            #[trigger] earlier[i],
        ) by {
            assert(earlier[i] == accounts[i]);
        }
        lemma_matched_all(keys, earlier);
        assert(keys.contains(accounts[accounts.len() - 1]));
        assert(matched(keys, accounts) =~= local_pairs(accounts));
    }
}

/// Naming all local accounts finds what naming none finds.
pub proof fn lemma_matched_own_keys(keys: Seq<UintAuthorityId>)
    ensures
        matched(keys, keys) == local_pairs(keys),
{
    lemma_matched_all(keys, keys);
}

/// Without named accounts, the search gives one pair for every entry of the
/// key store, in its order: the account of the key, and the key.
pub proof fn lemma_all_local_keys(keys: Seq<UintAuthorityId>)
    ensures
        found_keys(keys, None).len() == keys.len(),
        forall|i: int|
            0 <= i < keys.len() ==> #[trigger] found_keys(keys, None)[i] == (keys[i], keys[i]),
{
}

} // verus!
