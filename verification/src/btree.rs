use vstd::prelude::*;
use std::collections::BTreeMap;
use crate::guard::{Id, MessageGuard, id_range};

verus! {

/// A message store that keeps every message in one ordered map from id to message.
pub struct Messages<T> {
    tree: BTreeMap<Id, T>,
    last_id: Id,
}

/// The ids that `get_latest(n)` returns from a store of `count` messages: the last `n`
/// of them (the last 32 when `n <= 0`), or all of them when there are fewer.
pub open spec fn single_tree_latest_ids(count: int, n: int) -> Seq<int> {
    let wanted = if n <= 0 { 32 } else { n };
    let taken = if wanted > count { count } else { wanted };
    id_range(count - taken, count)
}

impl<T> Messages<T> {
    /// The map holds exactly the ids `0 .. last_id`.
    pub closed spec fn inv(&self) -> bool {
        &&& 0 <= self.last_id
        &&& forall|k: Id| #[trigger] self.tree@.contains_key(k) <==> 0 <= k < self.last_id
    }

    /// The stored messages in id order.
    pub closed spec fn stored(&self) -> Seq<T> {
        Seq::new(self.last_id as nat, |i: int| self.tree@[i as Id])
    }
}

impl<T: Clone> Messages<T> {
    /// The id that the next insert will give: the number of stored messages.
    pub fn next_id(&self) -> (r: Id)
        requires
            self.well_formed(),
        ensures
            r == self.messages().len(),
    {
        self.last_id
    }
}

impl<T: Clone> Default for Messages<T> {
    fn default() -> (r: Self)
        ensures
            r.well_formed(),
            r.messages().len() == 0,
    {
        Messages { tree: BTreeMap::new(), last_id: 0 }
    }
}

impl<T: Clone> MessageGuard for Messages<T> {
    type Message = T;

    closed spec fn well_formed(&self) -> bool {
        self.inv()
    }

    open spec fn messages(&self) -> Seq<T> {
        self.stored()
    }

    open spec fn missing_error(&self, id: Id) -> Seq<char> {
        "Message not found"@
    }

    open spec fn latest_defined(&self, n: Id) -> bool {
        true
    }

    open spec fn latest_ids(&self, n: Id) -> Seq<int> {
        single_tree_latest_ids(self.stored().len() as int, n as int)
    }

    fn insert_message<M>(&mut self, message: M) -> (r: Result<Id, String>) where T: From<M> {
        let value = T::from(message);
        let id = self.last_id;
        self.tree.insert(id, value);
        self.last_id = id + 1;
        proof {
            assert(self.stored().drop_last() =~= old(self).stored());
        }
        Ok(id)
    }

    fn get_message_by_id(&self, id: Id) -> (r: Result<T, String>) {
        match self.tree.get(&id) {
            Some(m) => Ok(m.clone()),
            None => Err("Message not found".to_owned()),
        }
    }

    fn get_latest(&self, n: Id) -> (r: Vec<T>) {
        let wanted: Id = if n <= 0 { 32 } else { n };
        let taken: Id = if wanted > self.last_id { self.last_id } else { wanted };
        let start: Id = self.last_id - taken;
        let mut v: Vec<T> = Vec::new();
        let mut id: Id = start;
        while id < self.last_id
            invariant
                self.inv(),
                0 <= start <= id <= self.last_id,
                start == self.last_id - taken,
                v.len() == id - start,
                forall|i: int|
                    #![trigger v[i]]
                    0 <= i < v.len() ==> cloned(self.stored()[start + i], v[i]),
            decreases self.last_id - id,
        {
            match self.tree.get(&id) {
                Some(m) => {
                    v.push(m.clone());
                },
                None => {},
            }
            id = id + 1;
        }
        v
    }
}

} // verus!
