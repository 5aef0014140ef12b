use vstd::prelude::*;

verus! {

/// The identifier of a stored message: its position in the order of insertion.
pub type Id = i64;

/// The ids `lo, lo + 1, ..., hi - 1`, in increasing order (empty when `hi <= lo`).
pub open spec fn id_range(lo: int, hi: int) -> Seq<int> {
    Seq::new(if hi > lo { (hi - lo) as nat } else { 0 }, |i: int| lo + i)
}

/// A store of messages, each of which gets the next id when it is inserted.
pub trait MessageGuard: Default + Sized {
    type Message: Clone;

    /// The store's own structure is consistent.
    spec fn well_formed(&self) -> bool;

    /// The stored messages: the one with id `i` stands at index `i`.
    spec fn messages(&self) -> Seq<Self::Message>;

    /// The error text that `get_message_by_id` answers for an id that holds no message.
    spec fn missing_error(&self, id: Id) -> Seq<char>;

    /// The values of `n` on which `get_latest` returns.
    spec fn latest_defined(&self, n: Id) -> bool;

    /// The ids of the messages that `get_latest(n)` returns, in the order it returns them.
    spec fn latest_ids(&self, n: Id) -> Seq<int>;

    /// Stores `message` under the next id and returns that id.
    fn insert_message<M>(&mut self, message: M) -> (r: Result<Id, String>) where
        Self::Message: From<M>,
        requires
            old(self).well_formed(),
            old(self).messages().len() < i64::MAX,
        ensures
            final(self).well_formed(),
            r == Ok::<Id, String>(old(self).messages().len() as Id),
            final(self).messages().len() == old(self).messages().len() + 1,
            final(self).messages().drop_last() == old(self).messages(),
            call_ensures(
                <Self::Message as From<M>>::from,
                (message,),
                final(self).messages().last(),
            ),
    ;

    /// A copy of the message stored under `id`, or the error text when there is none.
    fn get_message_by_id(&self, id: Id) -> (r: Result<Self::Message, String>)
        requires
            self.well_formed(),
        ensures
            match r {
                Ok(m) => 0 <= id < self.messages().len() && cloned(self.messages()[id as int], m),
                Err(e) => !(0 <= id < self.messages().len()) && e@ == self.missing_error(id),
            },
    ;

    /// Copies of the latest messages, as `latest_ids` chooses them.
    fn get_latest(&self, n: Id) -> (r: Vec<Self::Message>)
        requires
            self.well_formed(),
            self.latest_defined(n),
        ensures
            r.len() == self.latest_ids(n).len(),
            forall|i: int|
                #![trigger r[i]]
                0 <= i < r.len() ==> 0 <= self.latest_ids(n)[i] < self.messages().len() && cloned(
                    self.messages()[self.latest_ids(n)[i]],
                    r[i],
                ),
    ;
}

} // verus!
