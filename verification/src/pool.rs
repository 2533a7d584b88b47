//! The delivery queue that signed envelopes are handed to.

use vstd::prelude::*;

verus! {

/// The state of an in-memory delivery queue: the submitted envelopes in
/// their wire form, oldest first.
pub struct PoolState {
    /// The envelopes that wait for inclusion.
    pub transactions: Vec<Vec<u8>>,
}

impl View for PoolState {
    type V = Seq<Seq<u8>>;

    open spec fn view(&self) -> Seq<Seq<u8>> {
        Seq::new(self.transactions@.len(), |i: int| self.transactions@[i]@)
    }
}

impl PoolState {
    /// An empty queue.
    pub fn new() -> (state: PoolState)
        ensures
            state@ == Seq::<Seq<u8>>::empty(),
    {
        let state = PoolState { transactions: Vec::new() };
        assert(state@ =~= Seq::<Seq<u8>>::empty());
        state
    }

    /// The number of envelopes that wait.
    pub fn len(&self) -> (count: usize)
        ensures
            count == self@.len(),
    {
        self.transactions.len()
    }

    /// Accepts `data` as the newest envelope. This queue turns nothing down.
    pub fn submit_transaction(&mut self, data: Vec<u8>) -> (accepted: Result<(), ()>)
        ensures
            accepted == Ok::<(), ()>(()),
            final(self)@ == old(self)@.push(data@),
    {
        self.transactions.push(data);
        assert(self@ =~= old(self)@.push(data@));
        Ok(())
    }

    /// Takes the newest envelope out of the queue, if there is one.
    pub fn pop(&mut self) -> (newest: Option<Vec<u8>>)
        ensures
            old(self)@.len() == 0 ==> newest is None && final(self)@ == old(self)@,
            old(self)@.len() > 0 ==> newest is Some && newest->0@ == old(self)@.last()
                && final(self)@ == old(self)@.drop_last(),
    {
        let newest = self.transactions.pop();
        assert(old(self)@.len() > 0 ==> self@ =~= old(self)@.drop_last());
        assert(old(self)@.len() == 0 ==> self@ =~= old(self)@);
        newest
    }
}

} // verus!
