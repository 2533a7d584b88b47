//! The request ledger and the per-block worker that serves it.

use crate::authority::{KeyStore, UintAuthorityId};
use crate::extrinsic::encoded;
use crate::pool::PoolState;
use crate::submitter::{local_pairs, signed_envelope, submitted, Signer, SubmitAndSignTransaction};
use std::marker::PhantomData;
use vstd::prelude::*;
use vstd::utf8::valid_utf8;

verus! {

/// Where a call comes from.
#[derive(Clone, Copy, Debug, PartialEq, Eq)]
pub enum Origin {
    /// The call is made by the system itself.
    Root,
    /// The call is signed by this account.
    Signed(UintAuthorityId),
    /// The call carries no signature.
    Unsigned,
}

/// Why a call was turned down.
#[derive(Clone, Copy, Debug, PartialEq, Eq)]
pub enum DispatchError {
    /// The call needs a signed origin and did not have one.
    BadOrigin,
}

/// A call that can be dispatched on the ledger.
#[derive(Clone, Copy, Debug, PartialEq, Eq)]
pub enum Call {
    /// Ask for `value` to be served.
    Request(u64),
    /// Record `value` as served and clear the outstanding request.
    StoreResult(u64),
    /// Announce the caller, changing nothing else.
    Mint,
    /// Clear the outstanding request and record the value, if there is one.
    SubmitFromOffchain(Option<u64>),
}

/// A notification that a dispatched call leaves behind.
#[derive(Clone, Copy, Debug, PartialEq, Eq)]
pub enum Event {
    /// The account announced itself.
    Mint(UintAuthorityId),
    /// The account delivered a result.
    Offchain(UintAuthorityId),
    /// The account placed a request.
    Request(UintAuthorityId),
}

impl Origin {
    /// A signed origin for `who`.
    pub fn signed(who: UintAuthorityId) -> (origin: Origin)
        ensures
            origin == Origin::Signed(who),
    {
        Origin::Signed(who)
    }
}

/// The signer of `origin`, if it is a signed one.
pub open spec fn signer_of(origin: Origin) -> Option<UintAuthorityId> {
    match origin {
        Origin::Signed(who) => Some(who),
        _ => None,
    }
}

/// The account that signed `origin`; any other origin is a bad one.
pub fn ensure_signed(origin: Origin) -> (who: Result<UintAuthorityId, DispatchError>)
    ensures
        who == match signer_of(origin) {
            Some(account) => Ok::<UintAuthorityId, DispatchError>(account),
            None => Err(DispatchError::BadOrigin),
        },
{
    match origin {
        Origin::Signed(who) => Ok(who),
        _ => Err(DispatchError::BadOrigin),
    }
}

/// What a runtime has to provide for the ledger and its worker.
pub trait Trait {
    /// How the worker finds its keys and submits its calls.
    type SubmitTransaction: SubmitAndSignTransaction;
}

/// The state of the ledger as the contracts see it.
pub struct Ledger {
    /// The accounts that may deliver results.
    pub authorities: Seq<UintAuthorityId>,
    /// The outstanding request, if there is one.
    pub data_request: Option<u64>,
    /// The delivered values, oldest first.
    pub results: Seq<u64>,
    /// The notifications left behind, oldest first.
    pub events: Seq<Event>,
}

impl Ledger {
    /// The ledger after `who` asked for `value`: the request takes the slot,
    /// whatever was in it.
    pub open spec fn request(self, who: UintAuthorityId, value: u64) -> Ledger {
        Ledger {
            data_request: Some(value),
            events: self.events.push(Event::Request(who)),
            ..self
        }
    }

    /// The ledger after `who` delivered `value`: the slot is empty and the
    /// value is the newest result.
    pub open spec fn store_result(self, who: UintAuthorityId, value: u64) -> Ledger {
        Ledger {
            data_request: None,
            results: self.results.push(value),
            events: self.events.push(Event::Offchain(who)),
            ..self
        }
    }

    /// The ledger after `who` announced itself.
    pub open spec fn mint(self, who: UintAuthorityId) -> Ledger {
        Ledger { events: self.events.push(Event::Mint(who)), ..self }
    }

    /// The ledger after `who` closed the outstanding request, with a value to
    /// record or without one.
    pub open spec fn submit_from_offchain(self, who: UintAuthorityId, data: Option<u64>) -> Ledger {
        Ledger {
            data_request: None,
            results: match data {
                Some(value) => self.results.push(value),
                None => self.results,
            },
            events: self.events.push(Event::Offchain(who)),
            ..self
        }
    }

    /// The ledger after `who` made `call`.
    pub open spec fn applied(self, who: UintAuthorityId, call: Call) -> Ledger {
        match call {
            Call::Request(value) => self.request(who, value),
            Call::StoreResult(value) => self.store_result(who, value),
            Call::Mint => self.mint(who),
            Call::SubmitFromOffchain(data) => self.submit_from_offchain(who, data),
        }
    }

    /// The ledger after `call` was dispatched from `origin`: applied for a
    /// signed origin, untouched for any other.
    pub open spec fn dispatched(self, call: Call, origin: Origin) -> Ledger {
        match signer_of(origin) {
            Some(who) => self.applied(who, call),
            None => self,
        }
    }
}

/// What dispatching from `origin` returns.
pub open spec fn dispatch_result(origin: Origin) -> Result<(), DispatchError> {
    match signer_of(origin) {
        Some(_) => Ok(()),
        None => Err(DispatchError::BadOrigin),
    }
}

/// The reply to a fetch: a status code and a body.
#[derive(Debug, PartialEq, Eq)]
pub struct Response {
    /// The status code of the reply.
    pub code: u16,
    /// The body of the reply.
    pub body: Vec<u8>,
}

/// Why a fetch gave nothing.
#[derive(Clone, Copy, Debug, PartialEq, Eq)]
pub enum FetchError {
    /// The request could not be sent, or no reply came.
    IoError,
    /// The reply had a status other than 200.
    BadStatus,
    /// The body of the reply was not UTF-8 text.
    NonUtf8,
}

/// How a fetch error is signalled on the transport's own scale.
#[derive(Clone, Copy, Debug, PartialEq, Eq)]
pub enum HttpError {
    /// The request failed in transit.
    IoError,
    /// The reply was not what was expected.
    Unknown,
}

impl FetchError {
    /// The transport-level signal for this error: a bad status and a bad
    /// body are both unknown to the transport.
    pub fn signal(&self) -> (signal: HttpError)
        ensures
            signal == match *self {
                FetchError::IoError => HttpError::IoError,
                FetchError::BadStatus => HttpError::Unknown,
                FetchError::NonUtf8 => HttpError::Unknown,
            },
    {
        match self {
            FetchError::IoError => HttpError::IoError,
            FetchError::BadStatus => HttpError::Unknown,
            FetchError::NonUtf8 => HttpError::Unknown,
        }
    }
}

/// What a reply is worth: its body if the status is 200 and the body is
/// UTF-8 text, else the reason why not. No reply at all is an I/O error.
pub open spec fn fetched(reply: Option<Response>) -> Result<Seq<u8>, FetchError> {
    match reply {
        None => Err(FetchError::IoError),
        Some(response) => if response.code != 200 {
            Err(FetchError::BadStatus)
        } else if !valid_utf8(response.body@) {
            Err(FetchError::NonUtf8)
        } else {
            Ok(response.body@)
        },
    }
}

/// `core::str::from_utf8`: whether the bytes are well-formed UTF-8.
#[verifier::external_body]
fn is_utf8(bytes: &[u8]) -> (ok: bool)
    ensures
        ok == valid_utf8(bytes@),
{
    core::str::from_utf8(bytes).is_ok()
}

/// The first of `keys` whose account is among `authorities`.
pub open spec fn first_authorized(
    keys: Seq<UintAuthorityId>,
    authorities: Seq<UintAuthorityId>,
) -> Option<UintAuthorityId>
    decreases keys.len(),
{
    if keys.len() == 0 {
        None
    } else if authorities.contains(keys.first()) {
        Some(keys.first())
    } else {
        first_authorized(keys.drop_first(), authorities)
    }
}

/// What the worker fixed before any fetch.
#[derive(Clone, Copy, Debug, PartialEq, Eq)]
pub enum Step {
    /// No local key belongs to an authorized account: nothing to do.
    NoAuthority,
    /// No request is outstanding: nothing to do.
    NoRequest,
    /// Fetch, then let `signer` deliver `value`.
    Fetch {
        /// The key that signs the delivery.
        signer: UintAuthorityId,
        /// The requested value.
        value: u64,
    },
}

/// How one run of the worker ended.
#[derive(Clone, Copy, Debug, PartialEq, Eq)]
pub enum Report {
    /// No local key belongs to an authorized account.
    NoAuthority,
    /// No request is outstanding.
    NoRequest,
    /// The fetch failed; nothing was submitted.
    FetchFailed(FetchError),
    /// The follow-up call was signed and queued.
    Submitted,
    /// The follow-up call could not be built or was turned down.
    SubmissionFailed,
}

/// The step that the worker takes for these keys on this ledger.
pub open spec fn planned(keys: Seq<UintAuthorityId>, ledger: Ledger) -> Step {
    match first_authorized(keys, ledger.authorities) {
        None => Step::NoAuthority,
        Some(signer) => match ledger.data_request {
            None => Step::NoRequest,
            Some(value) => Step::Fetch { signer, value },
        },
    }
}

/// Whether `list` holds `account`.
fn contains_account(list: &Vec<UintAuthorityId>, account: UintAuthorityId) -> (found: bool)
    ensures
        found == list@.contains(account),
{
    let mut i: usize = 0;
    while i < list.len()
        invariant
            i <= list.len(),
            forall|k: int| 0 <= k < i ==> list@[k] != account,
        decreases list.len() - i,
    {
        if list[i].0 == account.0 {
            return true;
        }
        i += 1;
    }
    false
}

/// The request ledger of one runtime, with the worker that serves it.
pub struct Module<T: Trait> {
    authorities: Vec<UintAuthorityId>,
    data_request: Option<u64>,
    results: Vec<u64>,
    events: Vec<Event>,
    runtime: PhantomData<T>,
}

impl<T: Trait> View for Module<T> {
    type V = Ledger;

    closed spec fn view(&self) -> Ledger {
        Ledger {
            authorities: self.authorities@,
            data_request: self.data_request,
            results: self.results@,
            events: self.events@,
        }
    }
}

impl<T: Trait> Module<T> {
    /// A fresh ledger with these authorized accounts: no request, no result,
    /// no event.
    pub fn new(authorities: Vec<UintAuthorityId>) -> (module: Self)
        ensures
            module@ == (Ledger {
                authorities: authorities@,
                data_request: None,
                results: Seq::empty(),
                events: Seq::empty(),
            }),
    {
        Module {
            authorities,
            data_request: None,
            results: Vec::new(),
            events: Vec::new(),
            runtime: PhantomData,
        }
    }

    /// The authorized accounts.
    pub fn authorities(&self) -> (accounts: &Vec<UintAuthorityId>)
        ensures
            accounts@ == self@.authorities,
    {
        &self.authorities
    }

    /// The outstanding request, if there is one.
    pub fn data_request(&self) -> (request: Option<u64>)
        ensures
            request == self@.data_request,
    {
        self.data_request
    }

    /// The delivered values, oldest first.
    pub fn results(&self) -> (values: &Vec<u64>)
        ensures
            values@ == self@.results,
    {
        &self.results
    }

    /// The notifications left behind, oldest first.
    pub fn events(&self) -> (events: &Vec<Event>)
        ensures
            events@ == self@.events,
    {
        &self.events
    }

    /// Places a request for `value`. It replaces a request that is still
    /// outstanding. Only a signed origin may do so.
    pub fn request(&mut self, origin: Origin, value: u64) -> (outcome: Result<(), DispatchError>)
        ensures
            outcome == dispatch_result(origin),
            final(self)@ == old(self)@.dispatched(Call::Request(value), origin),
    {
        let who: UintAuthorityId = match ensure_signed(origin) {
            Ok(who) => who,
            Err(error) => {
                return Err(error);
            },
        };
        self.data_request = Some(value);
        self.events.push(Event::Request(who));
        Ok(())
    }

    /// Records `value` as delivered and empties the request slot, whether
    /// or not a request was outstanding. Only a signed origin may do so.
    pub fn store_result(&mut self, origin: Origin, value: u64) -> (outcome: Result<
        (),
        DispatchError,
    >)
        ensures
            outcome == dispatch_result(origin),
            final(self)@ == old(self)@.dispatched(Call::StoreResult(value), origin),
    {
        let who: UintAuthorityId = match ensure_signed(origin) {
            Ok(who) => who,
            Err(error) => {
                return Err(error);
            },
        };
        self.data_request = None;
        self.results.push(value);
        self.events.push(Event::Offchain(who));
        Ok(())
    }

    /// Announces the caller. Only a signed origin may do so.
    pub fn mint(&mut self, origin: Origin) -> (outcome: Result<(), DispatchError>)
        ensures
            outcome == dispatch_result(origin),
            final(self)@ == old(self)@.dispatched(Call::Mint, origin),
    {
        let who: UintAuthorityId = match ensure_signed(origin) {
            Ok(who) => who,
            Err(error) => {
                return Err(error);
            },
        };
        self.events.push(Event::Mint(who));
        Ok(())
    }

    /// Empties the request slot and records `data`, if there is a value.
    /// Only a signed origin may do so.
    pub fn submit_from_offchain(&mut self, origin: Origin, data: Option<u64>) -> (outcome: Result<
        (),
        DispatchError,
    >)
        ensures
            outcome == dispatch_result(origin),
            final(self)@ == old(self)@.dispatched(Call::SubmitFromOffchain(data), origin),
    {
        let who: UintAuthorityId = match ensure_signed(origin) {
            Ok(who) => who,
            Err(error) => {
                return Err(error);
            },
        };
        self.data_request = None;
        match data {
            Some(value) => {
                self.results.push(value);
            },
            None => {},
        }
        self.events.push(Event::Offchain(who));
        Ok(())
    }

    /// Dispatches `call` from `origin` to its entry point.
    pub fn dispatch(&mut self, call: Call, origin: Origin) -> (outcome: Result<(), DispatchError>)
        ensures
            outcome == dispatch_result(origin),
            final(self)@ == old(self)@.dispatched(call, origin),
    {
        match call {
            Call::Request(value) => self.request(origin, value),
            Call::StoreResult(value) => self.store_result(origin, value),
            Call::Mint => self.mint(origin),
            Call::SubmitFromOffchain(data) => self.submit_from_offchain(origin, data),
        }
    }

    /// The key that the worker signs with: the first local key, in the order
    /// of the key store, whose account is authorized.
    pub fn authority_id(&self, keystore: &KeyStore) -> (key: Option<UintAuthorityId>)
        ensures
            key == first_authorized(keystore@, self@.authorities),
    {
        let local: Vec<Signer> = T::SubmitTransaction::find_local_keys(keystore, None);
        let mut i: usize = 0;
        assert(keystore@.skip(0) =~= keystore@);
        while i < local.len()
            invariant
                i <= local.len(),
                local@ == local_pairs(keystore@),
                first_authorized(keystore@, self@.authorities) == first_authorized(
                    keystore@.skip(i as int),
                    self@.authorities,
                ),
            decreases local.len() - i,
        {
            let pair: Signer = local[i];
            proof {
                let rest = keystore@.skip(i as int);
                assert(rest.first() == pair.0);
                assert(rest.drop_first() =~= keystore@.skip(i + 1));
            }
            if contains_account(&self.authorities, pair.0) {
                return Some(pair.1);
            }
            i += 1;
        }
        None
    }

    /// Judges the reply to a fetch. `None` stands for a request that could
    /// not be sent or was never answered.
    pub fn fetch_with_delay(reply: &Option<Response>) -> (body: Result<Vec<u8>, FetchError>)
        ensures
            match body {
                Ok(bytes) => fetched(*reply) == Ok::<Seq<u8>, FetchError>(bytes@),
                Err(error) => fetched(*reply) == Err::<Seq<u8>, FetchError>(error),
            },
    {
        let response: &Response = match reply {
            Some(response) => response,
            None => {
                return Err(FetchError::IoError);
            },
        };
        if response.code != 200 {
            return Err(FetchError::BadStatus);
        }
        if !is_utf8(response.body.as_slice()) {
            return Err(FetchError::NonUtf8);
        }
        let body: Vec<u8> = response.body.clone();
        assert(body@ =~= response.body@);
        Ok(body)
    }

    /// The first two steps of a run: find the signing key, then read the
    /// request slot. Nothing is fetched or submitted.
    pub fn plan(&self, keystore: &KeyStore) -> (step: Step)
        ensures
            step == planned(keystore@, self@),
    {
        match self.authority_id(keystore) {
            None => Step::NoAuthority,
            Some(signer) => match self.data_request {
                None => Step::NoRequest,
                Some(value) => Step::Fetch { signer, value },
            },
        }
    }

    /// The rest of a run, once the fetch was made: judge the reply and, if it
    /// is good, let `signer` submit the delivery of `value`. A failed fetch
    /// submits nothing.
    pub fn complete(
        pool: &mut PoolState,
        signer: UintAuthorityId,
        value: u64,
        reply: &Option<Response>,
    ) -> (report: Report)
        ensures
            report == completed::<T>(old(pool)@, signer, value, *reply).0,
            final(pool)@ == completed::<T>(old(pool)@, signer, value, *reply).1,
    {
        match Self::fetch_with_delay(reply) {
            Err(error) => Report::FetchFailed(error),
            Ok(_) => Self::deliver(pool, Call::StoreResult(value), signer),
        }
    }

    /// Signs `call` with `signer`, submits it, and reports how that went.
    fn deliver(pool: &mut PoolState, call: Call, signer: UintAuthorityId) -> (report: Report)
        ensures
            report == delivery::<T>(old(pool)@, call, signer).0,
            final(pool)@ == delivery::<T>(old(pool)@, call, signer).1,
    {
        match T::SubmitTransaction::sign_and_submit(pool, call, signer) {
            Ok(_) => Report::Submitted,
            Err(_) => Report::SubmissionFailed,
        }
    }

    /// One run of the worker. It reads the ledger and never writes it: a
    /// result reaches the ledger only through the call that is queued here.
    /// `reply` is what the fetch returns if the run gets as far as fetching.
    ///
    /// Nothing marks a request as taken. A second run before the delivery of
    /// the first is dispatched sees the same request and submits the same
    /// delivery again.
    pub fn offchain(
        &self,
        keystore: &KeyStore,
        reply: &Option<Response>,
        pool: &mut PoolState,
    ) -> (report: Report)
        ensures
            report == worked::<T>(keystore@, self@, *reply, old(pool)@).0,
            final(pool)@ == worked::<T>(keystore@, self@, *reply, old(pool)@).1,
    {
        match self.plan(keystore) {
            Step::NoAuthority => Report::NoAuthority,
            Step::NoRequest => Report::NoRequest,
            Step::Fetch { signer, value } => Self::complete(pool, signer, value, reply),
        }
    }

    /// One run of the worker without a request and without a fetch: a local
    /// key of an authorized account announces itself.
    pub fn offchain_mint(&self, keystore: &KeyStore, pool: &mut PoolState) -> (report: Report)
        ensures
            report == minted::<T>(keystore@, self@, old(pool)@).0,
            final(pool)@ == minted::<T>(keystore@, self@, old(pool)@).1,
    {
        match self.authority_id(keystore) {
            None => Report::NoAuthority,
            Some(signer) => Self::deliver(pool, Call::Mint, signer),
        }
    }
}

/// What signing and submitting `call` with `signer` reports, and the queue
/// after it.
pub open spec fn delivery<T: Trait>(queue: Seq<Seq<u8>>, call: Call, signer: UintAuthorityId) -> (
    Report,
    Seq<Seq<u8>>,
) {
    let xt = signed_envelope(call, signer);
    if T::SubmitTransaction::accepts(queue, xt) {
        (Report::Submitted, submitted(queue, true, xt).1)
    } else {
        (Report::SubmissionFailed, queue)
    }
}

/// What the run reports after the fetch, and the queue after it: a bad reply
/// leaves the queue alone, a good one has the delivery of `value` submitted.
pub open spec fn completed<T: Trait>(
    queue: Seq<Seq<u8>>,
    signer: UintAuthorityId,
    value: u64,
    reply: Option<Response>,
) -> (Report, Seq<Seq<u8>>) {
    match fetched(reply) {
        Err(error) => (Report::FetchFailed(error), queue),
        Ok(_) => delivery::<T>(queue, Call::StoreResult(value), signer),
    }
}

/// What a whole run reports, and the queue after it.
pub open spec fn worked<T: Trait>(
    keys: Seq<UintAuthorityId>,
    ledger: Ledger,
    reply: Option<Response>,
    queue: Seq<Seq<u8>>,
) -> (Report, Seq<Seq<u8>>) {
    match planned(keys, ledger) {
        Step::NoAuthority => (Report::NoAuthority, queue),
        Step::NoRequest => (Report::NoRequest, queue),
        Step::Fetch { signer, value } => completed::<T>(queue, signer, value, reply),
    }
}

/// What a run of the announcing worker reports, and the queue after it.
pub open spec fn minted<T: Trait>(
    keys: Seq<UintAuthorityId>,
    ledger: Ledger,
    queue: Seq<Seq<u8>>,
) -> (Report, Seq<Seq<u8>>) {
    match first_authorized(keys, ledger.authorities) {
        None => (Report::NoAuthority, queue),
        Some(signer) => delivery::<T>(queue, Call::Mint, signer),
    }
}

/// Delivering a result needs no outstanding request: whatever the slot
/// held, it is empty afterwards, and the value is the newest result.
pub proof fn lemma_store_result_unguarded(ledger: Ledger, who: UintAuthorityId, value: u64)
    ensures
        ledger.store_result(who, value).data_request is None,
        ledger.store_result(who, value).results == ledger.results.push(value),
        ledger.data_request is None ==> ledger.store_result(who, value).data_request
            == ledger.data_request,
{
}

/// Of two requests in a row the second one stands, and neither touches the
/// results: the value of the first is never delivered.
pub proof fn lemma_request_overwrites(
    ledger: Ledger,
    first: UintAuthorityId,
    v1: u64,
    second: UintAuthorityId,
    v2: u64,
)
    ensures
        ledger.request(first, v1).request(second, v2).data_request == Some(v2),
        ledger.request(first, v1).request(second, v2).results == ledger.results,
        ledger.request(first, v1).results == ledger.results,
{
}

/// No call takes a result away or changes one: the results before a call
/// are the first results after it. Nor does a call change who is authorized.
pub proof fn lemma_results_only_grow(ledger: Ledger, call: Call, origin: Origin)
    ensures
        ledger.results.is_prefix_of(ledger.dispatched(call, origin).results),
        ledger.dispatched(call, origin).authorities == ledger.authorities,
        ledger.events.is_prefix_of(ledger.dispatched(call, origin).events),
{
    let after = ledger.dispatched(call, origin);
    assert(ledger.results.is_prefix_of(after.results)) by {
        assert(ledger.results =~= after.results.subrange(0, ledger.results.len() as int));
    }
    assert(ledger.events.is_prefix_of(after.events)) by {
        assert(ledger.events =~= after.events.subrange(0, ledger.events.len() as int));
    }
}

/// The signing key is a local key of an authorized account, and no local
/// key before it belongs to one. There is none just when no local key
/// belongs to an authorized account.
pub proof fn lemma_first_authorized(keys: Seq<UintAuthorityId>, authorities: Seq<UintAuthorityId>)
    ensures
        match first_authorized(keys, authorities) {
            Some(key) => exists|i: int|
                {
                    &&& 0 <= i < keys.len()
                    &&& #[trigger] keys[i] == key
                    &&& authorities.contains(key)
                    &&& forall|j: int| 0 <= j < i ==> !authorities.contains(#[trigger] keys[j])
                },
            None => forall|i: int| 0 <= i < keys.len() ==> !authorities.contains(#[trigger] keys[i]),
        },
    decreases keys.len(),
{
    if keys.len() == 0 {
    } else if authorities.contains(keys.first()) {
        assert(keys[0] == keys.first());
    } else {
        let rest = keys.drop_first();
        lemma_first_authorized(rest, authorities);
        assert(forall|i: int| 0 <= i < rest.len() ==> rest[i] == keys[i + 1]);
        match first_authorized(rest, authorities) {
            Some(key) => {
                let i = choose|i: int|
                    {
                        &&& 0 <= i < rest.len()
                        &&& #[trigger] rest[i] == key
                        &&& authorities.contains(key)
                        &&& forall|j: int| 0 <= j < i ==> !authorities.contains(#[trigger] rest[j])
                    };
                assert(keys[i + 1] == key);
                assert forall|j: int| 0 <= j < i + 1 implies !authorities.contains(
                    #[trigger] keys[j],
                ) by {
                    if j > 0 {
                        assert(rest[j - 1] == keys[j]);
                    }
                }
            },
            None => {
                assert forall|i: int| 0 <= i < keys.len() implies !authorities.contains(
                    #[trigger] keys[i],
                ) by {
                    if i > 0 {
                        assert(rest[i - 1] == keys[i]);
                    }
                }
            },
        }
    }
}

/// Where no local key belongs to an authorized account, there is no signing
/// key.
pub proof fn lemma_no_authority(keys: Seq<UintAuthorityId>, authorities: Seq<UintAuthorityId>)
    requires
        forall|i: int| 0 <= i < keys.len() ==> !authorities.contains(#[trigger] keys[i]),
    ensures
        first_authorized(keys, authorities) is None,
{
    lemma_first_authorized(keys, authorities);
}

/// A run without an authorized local key, without a request, or with a
/// failed fetch hands nothing to the queue.
pub proof fn lemma_idle_run_submits_nothing<T: Trait>(
    keys: Seq<UintAuthorityId>,
    ledger: Ledger,
    reply: Option<Response>,
    queue: Seq<Seq<u8>>,
)
    requires
        first_authorized(keys, ledger.authorities) is None || ledger.data_request is None
            || fetched(reply) is Err,
    ensures
        worked::<T>(keys, ledger, reply, queue).1 == queue,
        worked::<T>(keys, ledger, reply, queue).0 != Report::Submitted,
{
}

/// A run hands at most one envelope to the queue, behind those that wait
/// there; and if it reports a submission, that envelope is the delivery of
/// the requested value, signed by the first authorized local key.
pub proof fn lemma_run_submits_delivery<T: Trait>(
    keys: Seq<UintAuthorityId>,
    ledger: Ledger,
    reply: Option<Response>,
    queue: Seq<Seq<u8>>,
)
    ensures
        worked::<T>(keys, ledger, reply, queue).0 == Report::Submitted ==> {
            &&& first_authorized(keys, ledger.authorities) is Some
            &&& ledger.data_request is Some
            &&& fetched(reply) is Ok
            &&& worked::<T>(keys, ledger, reply, queue).1 == queue.push(
                encoded(
                    signed_envelope(
                        Call::StoreResult(ledger.data_request->0),
                        first_authorized(keys, ledger.authorities)->0,
                    ),
                ),
            )
        },
        worked::<T>(keys, ledger, reply, queue).0 != Report::Submitted ==> worked::<T>(
            keys,
            ledger,
            reply,
            queue,
        ).1 == queue,
{
}

} // verus!
