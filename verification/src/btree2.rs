use vstd::prelude::*;
use std::collections::BTreeMap;
use crate::guard::{Id, MessageGuard, id_range};
use crate::groups::{
    group_of,
    truncated_group_of,
    lemma_group,
    lemma_group_unique,
    lemma_group_of_multiple,
    lemma_group_successor,
};

verus! {

/// A message store that splits the ids into groups of `divisor` consecutive ids and keeps
/// one inner ordered map per group, inside an outer map keyed by the group's first id.
pub struct Messages<T> {
    tree: BTreeMap<Id, BTreeMap<Id, T>>,
    last_inner_tree_id: Id,
    divisor: Id,
}

/// `g` is the first id of a group that holds at least one of `count` messages.
pub open spec fn is_group_start(g: int, count: int, d: int) -> bool {
    0 <= g < count && g % d == 0
}

/// The ids that one scan of `begin .. end` copies: the whole range when the group of
/// `begin` exists, nothing otherwise.
pub open spec fn scanned_ids(begin: int, end: int, count: int, d: int) -> Seq<int> {
    if group_of(begin, d) < count {
        id_range(begin, end)
    } else {
        Seq::empty()
    }
}

/// The values of `n` on which `get_latest` returns, for `count` messages in groups of `d`.
pub open spec fn chunked_latest_defined(count: int, d: int, n: int) -> bool {
    if n == 0 {
        true
    } else if n > 0 {
        n > count || group_of(count - n, d) + d <= count
    } else {
        &&& count - n <= i64::MAX
        &&& group_of(count - n, d) + d <= i64::MAX
        &&& group_of(count - n, d) >= count
    }
}

/// The ids that `get_latest(n)` returns for `count` messages in groups of `d`.
///
/// With `n == 0`: the ids of the current group and of the full group before it.
/// With `0 < n <= count`: the ids from `count - n` to the end of its group, followed by
/// the ids from the start of the group that the quotient of one past that group's first
/// id names, up to the start of the current group.
pub open spec fn chunked_latest_ids(count: int, d: int, n: int) -> Seq<int> {
    let g = group_of(count, d);
    if n == 0 {
        if g > 0 {
            id_range(g - d, count)
        } else {
            id_range(0, count)
        }
    } else if n < 0 || n > count {
        Seq::empty()
    } else {
        let first = count - n;
        let fg = group_of(first, d);
        id_range(first, fg + d) + id_range(((fg + 1) / d) * d, g)
    }
}

/// Adjacent ranges of ids join into one.
pub proof fn lemma_id_range_concat(lo: int, mid: int, hi: int)
    requires
        lo <= mid <= hi,
    ensures
        id_range(lo, mid) + id_range(mid, hi) == id_range(lo, hi),
{
    assert(id_range(lo, mid) + id_range(mid, hi) =~= id_range(lo, hi));
}

impl<T> Messages<T> {
    /// The outer map holds the start of every group in use; each inner map holds exactly
    /// the ids of its group that are in use.
    pub closed spec fn inv(&self) -> bool {
        let d = self.divisor as int;
        let last = self.last_inner_tree_id as int;
        &&& 1 <= d
        &&& 0 <= last
        &&& forall|g: Id| #[trigger]
            self.tree@.contains_key(g) <==> is_group_start(g as int, last, d)
        &&& forall|g: Id, k: Id|
            #![trigger self.tree@[g]@.contains_key(k)]
            self.tree@.contains_key(g) ==> (self.tree@[g]@.contains_key(k) <==> (g <= k < g + d
                && k < last))
    }

    /// The stored messages in id order.
    pub closed spec fn stored(&self) -> Seq<T> {
        let d = self.divisor as int;
        Seq::new(
            self.last_inner_tree_id as nat,
            |i: int| self.tree@[group_of(i, d) as Id]@[i as Id],
        )
    }

    /// How many consecutive ids share one inner map.
    pub closed spec fn group_size(&self) -> int {
        self.divisor as int
    }

    /// An empty store whose groups hold `divisor` ids each.
    pub fn new(divisor: u32) -> (r: Self)
        where T: Clone
        requires
            divisor >= 1,
        ensures
            r.well_formed(),
            r.messages().len() == 0,
            r.group_size() == divisor,
    {
        Messages { tree: BTreeMap::new(), last_inner_tree_id: 0, divisor: divisor as Id }
    }

    /// The message with id `i` is in the inner map of its group.
    proof fn lemma_stored_at(&self, i: int)
        requires
            self.inv(),
            0 <= i < self.last_inner_tree_id,
        ensures
            self.tree@.contains_key(group_of(i, self.divisor as int) as Id),
            self.tree@[group_of(i, self.divisor as int) as Id]@.contains_key(i as Id),
            self.stored()[i] == self.tree@[group_of(i, self.divisor as int) as Id]@[i as Id],
    {
        let d = self.divisor as int;
        lemma_group(i, d);
        let g = group_of(i, d) as Id;
        assert(self.tree@.contains_key(g));
        assert(self.tree@[g]@.contains_key(i as Id));
    }

    /// Copies the messages with ids `begin .. end` from the inner map of the group of
    /// `begin`, when that group exists.
    fn scan(&self, begin: Id, end: Id, v: &mut Vec<T>) where T: Clone
        requires
            self.inv(),
            0 <= begin,
            group_of(begin as int, self.divisor as int) < self.last_inner_tree_id && begin < end
                ==> end <= self.last_inner_tree_id && end <= group_of(
                begin as int,
                self.divisor as int,
            ) + self.divisor,
        ensures
            ({
                let s = scanned_ids(
                    begin as int,
                    end as int,
                    self.last_inner_tree_id as int,
                    self.divisor as int,
                );
                &&& final(v)@.len() == old(v)@.len() + s.len()
                &&& forall|i: int| 0 <= i < old(v)@.len() ==> #[trigger] final(v)@[i] == old(v)@[i]
                &&& forall|j: int|
                    #![trigger s[j]]
                    0 <= j < s.len() ==> 0 <= s[j] < self.stored().len() && cloned(
                        self.stored()[s[j]],
                        final(v)@[old(v)@.len() + j],
                    )
            }),
    {
        let d = self.divisor;
        proof {
            lemma_group(begin as int, d as int);
        }
        let begin_group: Id = (begin / d) * d;
        match self.tree.get(&begin_group) {
            Some(inner) => {
                let ghost start_len = v@.len();
                let mut id: Id = begin;
                while id < end
                    invariant
                        self.inv(),
                        d == self.divisor,
                        begin_group == group_of(begin as int, d as int),
                        self.tree@.contains_key(begin_group),
                        *inner == self.tree@[begin_group],
                        begin_group <= begin,
                        begin <= id,
                        begin < end ==> id <= end,
                        begin >= end ==> id == begin,
                        begin < end ==> end <= self.last_inner_tree_id && end <= begin_group + d,
                        v@.len() == start_len + (id - begin),
                        start_len == old(v)@.len(),
                        forall|i: int| 0 <= i < start_len ==> #[trigger] v@[i] == old(v)@[i],
                        forall|j: int|
                            #![trigger v@[start_len + j]]
                            0 <= j < id - begin ==> 0 <= begin + j < self.stored().len() && cloned(
                                self.stored()[begin + j],
                                v@[start_len + j],
                            ),
                    decreases end - id,
                {
                    proof {
                        assert(inner@.contains_key(id));
                        lemma_group_unique(begin_group as int, id as int, d as int);
                        self.lemma_stored_at(id as int);
                    }
                    let m = inner.get(&id).unwrap();
                    v.push(m.clone());
                    id = id + 1;
                }
                proof {
                    let s = scanned_ids(
                        begin as int,
                        end as int,
                        self.last_inner_tree_id as int,
                        d as int,
                    );
                    assert(begin_group < self.last_inner_tree_id);
                    if begin < end {
                        assert(id == end);
                        assert(s.len() == end - begin);
                    } else {
                        assert(s.len() == 0);
                    }
                    assert(v@.len() == old(v)@.len() + s.len());
                    assert forall|j: int| 0 <= j < s.len() implies 0 <= s[j] < self.stored().len()
                        && cloned(self.stored()[s[j]], v@[old(v)@.len() + j]) by {
                        assert(s[j] == begin + j);
                        assert(v@[start_len + j] == v@[old(v)@.len() + j]);
                    }
                }
            },
            None => {
                proof {
                    assert(!is_group_start(begin_group as int, self.last_inner_tree_id as int, d as int));
                }
            },
        }
    }
}

impl<T: Clone> Default for Messages<T> {
    fn default() -> (r: Self)
        ensures
            r.well_formed(),
            r.messages().len() == 0,
            r.group_size() == 1024,
    {
        Messages::new(1024)
    }
}

impl<T: Clone> MessageGuard for Messages<T> {
    type Message = T;

    closed spec fn well_formed(&self) -> bool {
        self.inv()
    }

    open spec fn messages(&self) -> Seq<T> {
        self.stored()
    }

    open spec fn missing_error(&self, id: Id) -> Seq<char> {
        if is_group_start(
            truncated_group_of(id as int, self.group_size()),
            self.stored().len() as int,
            self.group_size(),
        ) {
            "Message not found"@
        } else {
            "Inner tree not found"@
        }
    }

    open spec fn latest_defined(&self, n: Id) -> bool {
        chunked_latest_defined(self.stored().len() as int, self.group_size(), n as int)
    }

    open spec fn latest_ids(&self, n: Id) -> Seq<int> {
        chunked_latest_ids(self.stored().len() as int, self.group_size(), n as int)
    }

    fn insert_message<M>(&mut self, message: M) -> (r: Result<Id, String>) where T: From<M>
        ensures
            final(self).group_size() == old(self).group_size(),
    {
        let ghost old_self = *self;
        let last = self.last_inner_tree_id;
        let d = self.divisor;
        proof {
            lemma_group(last as int, d as int);
        }
        if last % d == 0 {
            self.tree.insert(last, BTreeMap::new());
        }
        let last_group: Id = (last / d) * d;
        proof {
            if last % d == 0 {
                lemma_group_unique(last as int, last as int, d as int);
            }
            assert(self.tree@.contains_key(last_group));
        }
        let ghost mid_tree = self.tree@;
        let mut inner = match self.tree.remove(&last_group) {
            Some(t) => t,
            None => BTreeMap::new(),
        };
        let ghost old_inner = inner@;
        let value = T::from(message);
        inner.insert(last, value);
        self.tree.insert(last_group, inner);
        self.last_inner_tree_id = last + 1;
        proof {
            let dd = d as int;
            let new_last = last + 1;
            assert(self.tree@ == mid_tree.insert(last_group, inner));
            assert(old_inner == mid_tree[last_group]@);
            assert forall|g: Id| #[trigger]
                self.tree@.contains_key(g) <==> is_group_start(g as int, new_last as int, dd) by {
                if g == last {
                    if self.tree@.contains_key(g) {
                        if g != last_group {
                            assert(old_self.tree@.contains_key(g));
                        }
                    }
                }
            }
            assert forall|g: Id, k: Id|
                #![trigger self.tree@[g]@.contains_key(k)]
                self.tree@.contains_key(g) implies (self.tree@[g]@.contains_key(k) <==> (g <= k
                < g + dd && k < new_last)) by {
                if g == last_group {
                    if k != last {
                        if last_group < last {
                            assert(old_self.tree@.contains_key(last_group));
                            assert(old_self.tree@[last_group]@.contains_key(k) <==> (g <= k < g
                                + dd && k < last));
                        } else {
                            assert(!old_inner.contains_key(k));
                        }
                    }
                } else {
                    assert(old_self.tree@.contains_key(g));
                    assert(self.tree@[g] == old_self.tree@[g]);
                    if k == last && g <= k < g + dd {
                        lemma_group_unique(g as int, last as int, dd);
                    }
                    assert(old_self.tree@[g]@.contains_key(k) <==> (g <= k < g + dd && k < last));
                }
            }
            assert(self.inv());
            assert forall|i: int| 0 <= i < last implies #[trigger] self.stored()[i]
                == old_self.stored()[i] by {
                old_self.lemma_stored_at(i);
                lemma_group(i, dd);
                let gi = group_of(i, dd) as Id;
                if gi == last_group {
                    assert(i != last);
                } else {
                    assert(self.tree@[gi] == old_self.tree@[gi]);
                }
            }
            assert(self.stored().drop_last() =~= old_self.stored());
            assert(group_of(last as int, dd) == last_group);
            assert(self.stored().last() == value);
        }
        Ok(last)
    }

    fn get_message_by_id(&self, id: Id) -> (r: Result<T, String>) {
        let d = self.divisor;
        let group_id = truncated_group(id, d);
        match self.tree.get(&group_id) {
            None => {
                proof {
                    if 0 <= id < self.last_inner_tree_id {
                        lemma_group(id as int, d as int);
                    }
                }
                Err("Inner tree not found".to_owned())
            },
            Some(inner) => {
                match inner.get(&id) {
                    Some(m) => {
                        proof {
                            assert(self.tree@[group_id]@.contains_key(id));
                            lemma_group_unique(group_id as int, id as int, d as int);
                            self.lemma_stored_at(id as int);
                        }
                        Ok(m.clone())
                    },
                    None => {
                        proof {
                            if 0 <= id < self.last_inner_tree_id {
                                lemma_group(id as int, d as int);
                                assert(self.tree@[group_id]@.contains_key(id));
                            }
                        }
                        Err("Message not found".to_owned())
                    },
                }
            },
        }
    }

    fn get_latest(&self, n: Id) -> (r: Vec<T>) {
        let latest_id = self.last_inner_tree_id;
        let d = self.divisor;
        let ghost count = latest_id as int;
        let ghost dd = d as int;
        proof {
            lemma_group(latest_id as int, dd);
        }
        let group_id: Id = (latest_id / d) * d;
        let mut v: Vec<T> = Vec::new();
        let ghost mut ids: Seq<int> = Seq::empty();
        if n == 0 {
            if group_id > 0 {
                proof {
                    let k = latest_id as int / dd;
                    assert(k >= 1) by (nonlinear_arith)
                        requires
                            k * dd > 0,
                            dd >= 1,
                            k >= 0,
                    ;
                    lemma_group_of_multiple(k - 1, dd);
                    assert((k - 1) * dd == k * dd - dd) by (nonlinear_arith);
                }
                self.scan(group_id - d, group_id, &mut v);
                proof {
                    ids = scanned_ids(group_id - dd, group_id as int, count, dd);
                }
            }
            proof {
                lemma_group_of_multiple(latest_id as int / dd, dd);
            }
            let ghost before = v@;
            self.scan(group_id, latest_id, &mut v);
            proof {
                let s = scanned_ids(group_id as int, count, count, dd);
                assert(s =~= id_range(group_id as int, count));
                if group_id > 0 {
                    lemma_id_range_concat(group_id - dd, group_id as int, count);
                } else {
                    assert(ids =~= Seq::<int>::empty());
                }
                assert forall|j: int| 0 <= j < (ids + s).len() implies 0 <= (ids + s)[j] < self.stored().len()
                    && cloned(self.stored()[(ids + s)[j]], v@[j]) by {
                    if j >= ids.len() {
                        assert((ids + s)[j] == s[j - ids.len()]);
                    } else {
                        assert(v@[j] == before[j]);
                    }
                }
                ids = ids + s;
            }
        } else if latest_id >= n {
            let first_message_id: Id = latest_id - n;
            proof {
                lemma_group(first_message_id as int, dd);
            }
            let first_group_id: Id = (first_message_id / d) * d;
            self.scan(first_message_id, first_group_id + d, &mut v);
            proof {
                ids = scanned_ids(first_message_id as int, first_group_id + dd, count, dd);
                lemma_group_of_multiple(first_message_id as int / dd, dd);
                lemma_group_successor(first_message_id as int / dd, dd);
                lemma_group_of_multiple(latest_id as int / dd, dd);
            }
            let mut group_count: Id = (first_group_id + 1) / d;
            let group_end: Id = group_id / d;
            let ghost start_count = group_count as int;
            let ghost ks = start_count * dd;
            proof {
                lemma_group_of_multiple(start_count, dd);
                if n > 0 {
                    assert(start_count <= group_end) by (nonlinear_arith)
                        requires
                            first_group_id + dd <= latest_id,
                            group_end * dd <= latest_id < group_end * dd + dd,
                            first_group_id == (first_group_id as int / dd) * dd,
                            start_count == (first_group_id as int / dd) + (if dd == 1 { 1int } else { 0 }),
                            dd >= 1,
                    ;
                } else {
                    assert(start_count >= group_end) by (nonlinear_arith)
                        requires
                            first_group_id >= latest_id,
                            group_end * dd <= latest_id,
                            first_group_id == (first_group_id as int / dd) * dd,
                            start_count >= (first_group_id as int / dd),
                            dd >= 1,
                    ;
                }
            }
            let ghost first_part = ids;
            while group_count < group_end
                invariant
                    self.inv(),
                    d == self.divisor,
                    dd == d,
                    count == self.last_inner_tree_id,
                    group_end as int * dd == group_id,
                    group_id <= count,
                    0 <= start_count <= group_count,
                    start_count < group_end ==> group_count <= group_end,
                    start_count >= group_end ==> group_count == start_count,
                    ks == start_count * dd,
                    ids == first_part + id_range(ks, group_count * dd),
                    v@.len() == ids.len(),
                    forall|j: int|
                        #![trigger ids[j]]
                        0 <= j < ids.len() ==> 0 <= ids[j] < self.stored().len() && cloned(
                            self.stored()[ids[j]],
                            v@[j],
                        ),
                decreases group_end - group_count,
            {
                proof {
                    lemma_group_of_multiple(group_count as int, dd);
                    assert(group_count * dd + dd <= group_id) by (nonlinear_arith)
                        requires
                            group_count < group_end,
                            group_end * dd == group_id,
                            dd >= 1,
                    ;
                    assert(ks <= group_count * dd) by (nonlinear_arith)
                        requires
                            start_count <= group_count,
                            ks == start_count * dd,
                            dd >= 1,
                    ;
                }
                let begin: Id = group_count * d;
                let ghost before = v@;
                self.scan(begin, begin + d, &mut v);
                proof {
                    let s = scanned_ids(begin as int, begin + dd, count, dd);
                    assert(s =~= id_range(begin as int, begin + dd));
                    lemma_id_range_concat(ks, begin as int, begin + dd);
                    assert((group_count + 1) * dd == begin + dd) by (nonlinear_arith)
                        requires
                            begin == group_count * dd,
                    ;
                    assert forall|j: int| 0 <= j < (ids + s).len() implies 0 <= (ids + s)[j]
                        < self.stored().len() && cloned(self.stored()[(ids + s)[j]], v@[j]) by {
                        if j >= ids.len() {
                            assert((ids + s)[j] == s[j - ids.len()]);
                        } else {
                            assert(v@[j] == before[j]);
                        }
                    }
                    assert(first_part + id_range(ks, (group_count + 1) * dd) =~= ids + s);
                    ids = ids + s;
                }
                group_count = group_count + 1;
            }
            proof {
                if start_count < group_end {
                    assert(group_count == group_end);
                } else {
                    assert(ks >= group_id) by (nonlinear_arith)
                        requires
                            start_count >= group_end,
                            ks == start_count * dd,
                            group_end * dd == group_id,
                            dd >= 1,
                    ;
                    assert(group_count == start_count);
                    assert(id_range(ks, group_count * dd) =~= Seq::<int>::empty());
                    assert(id_range(ks, group_id as int) =~= Seq::<int>::empty());
                }
                if n < 0 {
                    assert(first_part =~= Seq::<int>::empty());
                    assert(ids =~= Seq::<int>::empty());
                } else {
                    assert(first_part =~= id_range(first_message_id as int, first_group_id + dd));
                }
            }
        }
        proof {
            assert(ids =~= chunked_latest_ids(count, dd, n as int));
        }
        v
    }
}

/// `(id / d) * d` with Rust's truncating division, computed without overflow.
fn truncated_group(id: Id, d: Id) -> (g: Id)
    requires
        d >= 1,
    ensures
        g == truncated_group_of(id as int, d as int),
{
    if id >= 0 {
        proof {
            lemma_group(id as int, d as int);
        }
        (id / d) * d
    } else {
        let magnitude: i128 = -(id as i128);
        let wide_divisor: i128 = d as i128;
        proof {
            lemma_group(magnitude as int, wide_divisor as int);
        }
        let group_magnitude: i128 = (magnitude / wide_divisor) * wide_divisor;
        (-group_magnitude) as Id
    }
}

} // verus!
