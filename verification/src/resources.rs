//! Type-keyed singleton storage.
//!
//! A resource is one value per type key, unrelated to any entity.
//! Adding a value under a key that already holds one replaces it, so
//! the most recently added value is always the one returned.

use vstd::prelude::*;

use crate::error::EcsError;

verus! {

/// Resource uniqueness: adding a second value under the same key
/// replaces the first, so a later lookup sees only the most recently
/// added value.
pub proof fn lemma_resource_replacement<R>(contents: Map<u64, R>, type_id: u64, first: R, second: R)
    ensures
        contents.insert(type_id, first).insert(type_id, second) == contents.insert(type_id, second),
        contents.insert(type_id, first).insert(type_id, second)[type_id] == second,
{
    assert(contents.insert(type_id, first).insert(type_id, second) =~= contents.insert(
        type_id,
        second,
    ));
}

/// The resource store: parallel key and value lists with distinct keys.
pub struct Resources<R> {
    /// Resource type keys, each appearing at most once.
    pub keys: Vec<u64>,
    /// The stored value for each key, in the same order.
    pub values: Vec<R>,
}

impl<R> Resources<R> {
    /// The store's invariant: one value per key, keys distinct.
    pub open spec fn wf(self) -> bool {
        &&& self.keys@.len() == self.values@.len()
        &&& forall|i: int, j: int|
            0 <= i < self.keys@.len() && 0 <= j < self.keys@.len() && i != j
                ==> self.keys@[i] != self.keys@[j]
    }

    /// The index at which `type_id` stands in the key list.
    pub open spec fn key_index(self, type_id: u64) -> int {
        choose|i: int| 0 <= i < self.keys@.len() && self.keys@[i] == type_id
    }

    /// The store seen as a map from type key to stored value.
    pub open spec fn contents(self) -> Map<u64, R> {
        Map::new(
            |k: u64| self.keys@.contains(k),
            |k: u64| self.values@[self.key_index(k)],
        )
    }

    /// A registered key's index is the position where it stands.
    pub proof fn lemma_key_index(self, i: int)
        requires
            self.wf(),
            0 <= i < self.keys@.len(),
        ensures
            self.key_index(self.keys@[i]) == i,
            self.contents().contains_key(self.keys@[i]),
            self.contents()[self.keys@[i]] == self.values@[i],
    {
        let t = self.keys@[i];
        assert(self.keys@[i] == t);
        let j = self.key_index(t);
        assert(0 <= j < self.keys@.len() && self.keys@[j] == t);
        assert(self.keys@.contains(t));
    }

    /// A fresh, empty store.
    pub fn new() -> (r: Resources<R>)
        ensures
            r.wf(),
            r.contents() == Map::<u64, R>::empty(),
    {
        let r = Resources { keys: Vec::new(), values: Vec::new() };
        proof {
            assert(r.contents() =~= Map::<u64, R>::empty());
        }
        r
    }

    /// The index of `type_id` in the key list, if present.
    fn find_key(&self, type_id: u64) -> (r: Option<usize>)
        ensures
            match r {
                Some(i) => 0 <= i < self.keys@.len() && self.keys@[i as int] == type_id,
                None => !self.keys@.contains(type_id),
            },
    {
        let mut i: usize = 0;
        while i < self.keys.len()
            invariant
                i <= self.keys@.len(),
                forall|j: int| 0 <= j < i ==> self.keys@[j] != type_id,
            decreases self.keys@.len() - i,
        {
            if self.keys[i] == type_id {
                return Some(i);
            }
            i += 1;
        }
        None
    }

    /// Whether a value is stored under `type_id`.
    pub fn contains(&self, type_id: u64) -> (r: bool)
        requires
            self.wf(),
        ensures
            r == self.contents().contains_key(type_id),
    {
        match self.find_key(type_id) {
            Some(i) => {
                proof {
                    self.lemma_key_index(i as int);
                }
                true
            },
            None => false,
        }
    }

    /// Store `value` under `type_id`, replacing any value the key
    /// already held.
    pub fn add(&mut self, type_id: u64, value: R)
        requires
            old(self).wf(),
        ensures
            final(self).wf(),
            final(self).contents() == old(self).contents().insert(type_id, value),
    {
        match self.find_key(type_id) {
            Some(i) => {
                proof {
                    self.lemma_key_index(i as int);
                }
                self.values.set(i, value);
                proof {
                    let pre = *old(self);
                    let post = *self;
                    assert forall|k: u64| #[trigger]
                        post.contents().contains_key(k) == pre.contents().insert(
                            type_id,
                            value,
                        ).contains_key(k) by {}
                    assert forall|k: u64|
                        post.contents().contains_key(k) implies #[trigger] post.contents()[k]
                        == pre.contents().insert(type_id, value)[k] by {
                        let j = post.key_index(k);
                        assert(0 <= j < post.keys@.len() && post.keys@[j] == k);
                        pre.lemma_key_index(j);
                        if k == type_id {
                            assert(j == i);
                        } else {
                            assert(j != i);
                        }
                    }
                    assert(post.contents() =~= pre.contents().insert(type_id, value));
                }
            },
            None => {
                self.keys.push(type_id);
                self.values.push(value);
                proof {
                    let pre = *old(self);
                    let post = *self;
                    let n = pre.keys@.len() as int;
                    assert forall|i2: int, j2: int|
                        0 <= i2 < post.keys@.len() && 0 <= j2 < post.keys@.len() && i2
                            != j2 implies post.keys@[i2] != post.keys@[j2] by {
                        if i2 == n && 0 <= j2 < n {
                            assert(pre.keys@[j2] == post.keys@[j2]);
                            if pre.keys@[j2] == type_id {
                                assert(pre.keys@.contains(type_id));
                            }
                        } else if j2 == n && 0 <= i2 < n {
                            assert(pre.keys@[i2] == post.keys@[i2]);
                            if pre.keys@[i2] == type_id {
                                assert(pre.keys@.contains(type_id));
                            }
                        }
                    }
                    assert(post.wf());
                    assert forall|k: u64|
                        post.contents().contains_key(k) implies #[trigger] post.contents()[k]
                        == pre.contents().insert(type_id, value)[k] by {
                        let j = post.key_index(k);
                        assert(0 <= j < post.keys@.len() && post.keys@[j] == k);
                        if j < n {
                            pre.lemma_key_index(j);
                            assert(pre.keys@.contains(k));
                        } else {
                            assert(k == type_id);
                            assert(post.values@[j] == value);
                        }
                    }
                    assert forall|k: u64|
                        pre.contents().insert(type_id, value).contains_key(
                            k,
                        ) implies #[trigger] post.contents().contains_key(k) by {
                        if k == type_id {
                            assert(post.keys@[n] == k);
                            assert(post.keys@.contains(k));
                        } else {
                            let j = choose|j: int| 0 <= j < pre.keys@.len() && pre.keys@[j] == k;
                            assert(post.keys@[j] == k);
                            assert(post.keys@.contains(k));
                        }
                    }
                    assert forall|k: u64|
                        post.contents().contains_key(k) implies pre.contents().insert(
                        type_id,
                        value,
                    ).contains_key(k) by {
                        let j = post.key_index(k);
                        assert(0 <= j < post.keys@.len() && post.keys@[j] == k);
                        if j < n {
                            assert(pre.keys@[j] == k);
                            assert(pre.keys@.contains(k));
                        }
                    }
                    assert(post.contents() =~= pre.contents().insert(type_id, value));
                }
            },
        }
    }

    /// Delete the value stored under `type_id`, if any.
    pub fn remove(&mut self, type_id: u64)
        requires
            old(self).wf(),
        ensures
            final(self).wf(),
            final(self).contents() == old(self).contents().remove(type_id),
    {
        match self.find_key(type_id) {
            None => {
                proof {
                    assert(self.contents() =~= old(self).contents().remove(type_id));
                }
            },
            Some(i) => {
                proof {
                    self.lemma_key_index(i as int);
                }
                self.keys.remove(i);
                self.values.remove(i);
                proof {
                    let pre = *old(self);
                    let post = *self;
                    let n = pre.keys@.len() as int;
                    assert forall|i2: int, j2: int|
                        0 <= i2 < post.keys@.len() && 0 <= j2 < post.keys@.len() && i2
                            != j2 implies post.keys@[i2] != post.keys@[j2] by {
                        let pi = if i2 < i { i2 } else { i2 + 1 };
                        let pj = if j2 < i { j2 } else { j2 + 1 };
                        assert(post.keys@[i2] == pre.keys@[pi]);
                        assert(post.keys@[j2] == pre.keys@[pj]);
                    }
                    assert(post.wf());
                    assert forall|k: u64|
                        post.contents().contains_key(k) implies (#[trigger] pre.contents().remove(
                            type_id,
                        ).contains_key(k) && post.contents()[k] == pre.contents().remove(
                            type_id,
                        )[k]) by {
                        let j = post.key_index(k);
                        assert(0 <= j < post.keys@.len() && post.keys@[j] == k);
                        let pj = if j < i { j } else { j + 1 };
                        assert(post.keys@[j] == pre.keys@[pj]);
                        pre.lemma_key_index(pj);
                        assert(pre.keys@.contains(k));
                        assert(k != type_id);
                        assert(post.values@[j] == pre.values@[pj]);
                    }
                    assert forall|k: u64|
                        pre.contents().remove(type_id).contains_key(
                            k,
                        ) implies #[trigger] post.contents().contains_key(k) by {
                        let pj = choose|j: int| 0 <= j < pre.keys@.len() && pre.keys@[j] == k;
                        assert(pre.keys@[pj] == k);
                        assert(k != type_id);
                        assert(pj != i);
                        let j = if pj < i { pj } else { pj - 1 };
                        assert(post.keys@[j] == pre.keys@[pj]);
                        assert(post.keys@.contains(k));
                    }
                    assert(post.contents() =~= pre.contents().remove(type_id));
                }
            },
        }
    }

    /// A shared reference to the value stored under `type_id`.
    pub fn get_ref(&self, type_id: u64) -> (r: Result<&R, EcsError>)
        requires
            self.wf(),
        ensures
            match r {
                Ok(v) => self.contents().contains_key(type_id) && *v == self.contents()[type_id],
                Err(e) => e == EcsError::MissingResource && !self.contents().contains_key(type_id),
            },
    {
        match self.find_key(type_id) {
            None => Err(EcsError::MissingResource),
            Some(i) => {
                proof {
                    self.lemma_key_index(i as int);
                }
                Ok(&self.values[i])
            },
        }
    }

    /// An exclusive reference to the value stored under `type_id`.
    /// The caller must have added one first; `contains` tells.
    pub fn get_mut(&mut self, type_id: u64) -> (r: &mut R)
        requires
            old(self).wf(),
            old(self).contents().contains_key(type_id),
        ensures
            *r == old(self).contents()[type_id],
            final(self).wf(),
            final(self).contents() == old(self).contents().insert(type_id, *final(r)),
    {
        let found = self.find_key(type_id);
        let i = match found {
            Some(i) => i,
            None => {
                proof {
                    let j = self.key_index(type_id);
                    assert(0 <= j < self.keys@.len() && self.keys@[j] == type_id);
                    assert(self.keys@.contains(type_id));
                }
                0
            },
        };
        proof {
            self.lemma_key_index(i as int);
        }
        &mut self.values[i]
    }
}

} // verus!
