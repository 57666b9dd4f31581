//! A table in memory.

use std::collections::BTreeMap;
use vstd::prelude::*;
use std::cmp::Ordering;
use vstd::laws_cmp::{obeys_cmp, obeys_cmp_ord, obeys_partial_cmp_spec_properties};
use vstd::laws_eq::obeys_eq_spec_properties;
use vstd::std_specs::btree::increasing_seq;
use vstd::std_specs::cmp::{OrdSpec, PartialEqSpec, PartialOrdSpec};
use vstd::std_specs::iter::IteratorSpec;

verus! {

/// Says that a key is in the table already.
#[derive(Debug, Clone, Copy, PartialEq, Eq, Structural)]
pub struct AlreadyExists;

/// Values by key. What is said of a table holds for keys whose order is
/// a total order that agrees with their equality.
#[derive(Debug)]
pub struct Table<K, V> {
    inner: BTreeMap<K, V>,
}

impl<K, V> View for Table<K, V> {
    type V = Map<K, V>;

    /// The values by key.
    closed spec fn view(&self) -> Map<K, V> {
        self.inner@
    }
}

impl<K: Ord, V> Table<K, V> {
    /// A table that holds nothing.
    pub fn new() -> (r: Self)
        ensures
            r@ == Map::<K, V>::empty(),
    {
        Table { inner: BTreeMap::new() }
    }

    /// The value under `key`, if the table holds one.
    pub fn get(&self, key: &K) -> (r: Option<&V>)
        ensures
            obeys_cmp::<K>() ==> match r {
                Some(value) => self@.contains_key(*key) && self@[*key] == *value,
                None => !self@.contains_key(*key),
            },
    {
        self.inner.get(key)
    }

    /// Puts `value` under `key`, unless the table holds the key already:
    /// then the table stays as it is.
    pub fn insert(&mut self, key: K, value: V) -> (r: Result<(), AlreadyExists>)
        ensures
            obeys_cmp::<K>() ==> match r {
                Ok(_) => !old(self)@.contains_key(key) && final(self)@ == old(self)@.insert(
                    key,
                    value,
                ),
                Err(_) => old(self)@.contains_key(key) && final(self)@ == old(self)@,
            },
    {
        if self.inner.contains_key(&key) {
            return Err(AlreadyExists);
        }
        self.inner.insert(key, value);
        Ok(())
    }
}

impl<K: Ord, V> Table<K, V> {
    /// Whether `f` holds of some value. `f` is asked value by value in
    /// the order of the keys, until it holds.
    pub fn any<F: Fn(&V) -> bool>(&self, f: F) -> (r: bool)
        requires
            obeys_cmp::<K>(),
            forall|v: &V| #[trigger] f.requires((v,)),
        ensures
            if r {
                exists|k: K| self@.contains_key(k) && f.ensures((&self@[k],), true)
            } else {
                forall|k: K| self@.contains_key(k) ==> f.ensures((&self@[k],), false)
            },
    {
        let values = self.inner.values();
        let ghost keys = choose|keys: Seq<K>|
            keys.to_set() == self.inner@.dom() && keys.no_duplicates()
                && IteratorSpec::remaining(&values) == keys.map(
                |i: int, k: K| &self.inner@[k],
            );
        let ghost mut seen: int = 0;
        for v in it: values
            invariant
                forall|v: &V| #[trigger] f.requires((v,)),
                keys.to_set() == self.inner@.dom(),
                it.seq() == keys.map(|i: int, k: K| &self.inner@[k]),
                seen == it.index(),
                forall|i: int|
                    0 <= i < seen ==> f.ensures((&self.inner@[#[trigger] keys[i]],), false),
        {
            proof {
                assert(it.seq()[seen] == &self.inner@[keys[seen]]);
            }
            if f(v) {
                proof {
                    let k = keys[seen];
                    assert(keys.to_set().contains(k));
                    assert(self@.contains_key(k));
                }
                return true;
            }
            proof {
                seen = seen + 1;
            }
        }
        proof {
            assert forall|k: K| self@.contains_key(k) implies f.ensures((&self@[k],), false) by {
                assert(keys.to_set().contains(k));
                let i = choose|i: int| 0 <= i < keys.len() && keys[i] == k;
                assert(keys[i] == k);
            }
        }
        false
    }
}

/// Of two keys in rising order the later one does not come before the
/// earlier one, and no key comes before itself.
proof fn lemma_not_before<K: Ord>(earlier: K, later: K)
    requires
        obeys_cmp::<K>(),
        earlier == later || earlier.cmp_spec(&later) is Less,
    ensures
        !(later.cmp_spec(&earlier) is Less),
{
    reveal(obeys_partial_cmp_spec_properties);
    reveal(obeys_cmp_ord);
    reveal(obeys_eq_spec_properties);
    if later.cmp_spec(&earlier) is Less {
        assert(later.partial_cmp_spec(&earlier) == Some(Ordering::Less));
        if earlier == later {
            assert(later.eq_spec(&later));
        } else {
            assert(earlier.partial_cmp_spec(&later) == Some(Ordering::Less));
            assert(earlier.partial_cmp_spec(&later) == Some(Ordering::Greater));
        }
    }
}

impl<K: Ord, V> Table<K, V> {
    /// The first value, in the order of the keys, of which `f` holds.
    pub fn find<F: Fn(&V) -> bool>(&self, f: F) -> (r: Option<&V>)
        requires
            obeys_cmp::<K>(),
            forall|v: &V| #[trigger] f.requires((v,)),
        ensures
            match r {
                Some(found) => exists|k: K|
                    {
                        &&& self@.contains_key(k)
                        &&& *found == self@[k]
                        &&& f.ensures((&self@[k],), true)
                        &&& forall|before: K|
                            self@.contains_key(before) && before.cmp_spec(&k) is Less
                                ==> f.ensures((&self@[before],), false)
                    },
                None => forall|k: K| self@.contains_key(k) ==> f.ensures((&self@[k],), false),
            },
    {
        let values = self.inner.values();
        let ghost keys = choose|keys: Seq<K>|
            increasing_seq(keys) && keys.to_set() == self.inner@.dom() && keys.no_duplicates()
                && IteratorSpec::remaining(&values) == keys.map(|i: int, k: K| &self.inner@[k]);
        let ghost mut seen: int = 0;
        for v in it: values
            invariant
                obeys_cmp::<K>(),
                forall|v: &V| #[trigger] f.requires((v,)),
                increasing_seq(keys),
                keys.to_set() == self.inner@.dom(),
                it.seq() == keys.map(|i: int, k: K| &self.inner@[k]),
                seen == it.index(),
                forall|i: int|
                    0 <= i < seen ==> f.ensures((&self.inner@[#[trigger] keys[i]],), false),
        {
            proof {
                assert(it.seq()[seen] == &self.inner@[keys[seen]]);
            }
            if f(v) {
                proof {
                    let k = keys[seen];
                    assert(keys.to_set().contains(k));
                    assert(self@.contains_key(k));
                    vstd::std_specs::btree::axiom_increasing_seq_meaning(keys);
                    assert forall|before: K|
                        self@.contains_key(before) && before.cmp_spec(&k) is Less implies f.ensures(
                        (&self@[before],),
                        false,
                    ) by {
                        assert(keys.to_set().contains(before));
                        let j = choose|j: int| 0 <= j < keys.len() && keys[j] == before;
                        if j >= seen {
                            lemma_not_before(k, before);
                        }
                        assert(keys[j] == before);
                    }
                }
                return Some(v);
            }
            proof {
                seen = seen + 1;
            }
        }
        proof {
            assert forall|k: K| self@.contains_key(k) implies f.ensures((&self@[k],), false) by {
                assert(keys.to_set().contains(k));
                let i = choose|i: int| 0 <= i < keys.len() && keys[i] == k;
                assert(keys[i] == k);
            }
        }
        None
    }

    /// Whether `f` holds of every value. `f` is asked value by value in
    /// the order of the keys, until it does not hold.
    pub fn all<F: Fn(&V) -> bool>(&self, f: F) -> (r: bool)
        requires
            obeys_cmp::<K>(),
            forall|v: &V| #[trigger] f.requires((v,)),
        ensures
            if r {
                forall|k: K| self@.contains_key(k) ==> f.ensures((&self@[k],), true)
            } else {
                exists|k: K| self@.contains_key(k) && f.ensures((&self@[k],), false)
            },
    {
        let values = self.inner.values();
        let ghost keys = choose|keys: Seq<K>|
            keys.to_set() == self.inner@.dom() && keys.no_duplicates()
                && IteratorSpec::remaining(&values) == keys.map(|i: int, k: K| &self.inner@[k]);
        let ghost mut seen: int = 0;
        for v in it: values
            invariant
                forall|v: &V| #[trigger] f.requires((v,)),
                keys.to_set() == self.inner@.dom(),
                it.seq() == keys.map(|i: int, k: K| &self.inner@[k]),
                seen == it.index(),
                forall|i: int|
                    0 <= i < seen ==> f.ensures((&self.inner@[#[trigger] keys[i]],), true),
        {
            proof {
                assert(it.seq()[seen] == &self.inner@[keys[seen]]);
            }
            if !f(v) {
                proof {
                    let k = keys[seen];
                    assert(keys.to_set().contains(k));
                    assert(self@.contains_key(k));
                }
                return false;
            }
            proof {
                seen = seen + 1;
            }
        }
        proof {
            assert forall|k: K| self@.contains_key(k) implies f.ensures((&self@[k],), true) by {
                assert(keys.to_set().contains(k));
                let i = choose|i: int| 0 <= i < keys.len() && keys[i] == k;
                assert(keys[i] == k);
            }
        }
        true
    }
}

} // verus!
