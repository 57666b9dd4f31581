//! The order of names, and vectors of named values kept in that order.
//!
//! Names are ordered as strings are: byte by byte over their UTF-8 form,
//! a proper prefix coming first.

use vstd::prelude::*;
use vstd::utf8::{encode_utf8, encode_utf8_decode_utf8};

verus! {

/// How one name stands to another.
#[derive(Debug, Clone, Copy, PartialEq, Eq, Structural)]
pub enum Order {
    Less,
    Equal,
    Greater,
}

/// Whether `a` and `b` agree on their first `k` bytes.
pub open spec fn common_prefix(a: Seq<u8>, b: Seq<u8>, k: int) -> bool {
    &&& 0 <= k <= a.len()
    &&& k <= b.len()
    &&& forall|i: int| 0 <= i < k ==> a[i] == b[i]
}

/// Whether `a` and `b` agree on their first `k` bytes and `a` comes first
/// by what follows: `a` ends there and `b` goes on, or `a` has the smaller
/// byte.
pub open spec fn less_at(a: Seq<u8>, b: Seq<u8>, k: int) -> bool {
    &&& common_prefix(a, b, k)
    &&& k < b.len()
    &&& k < a.len() ==> a[k] < b[k]
}

/// Whether `a` comes before `b`, byte by byte.
pub open spec fn bytes_less(a: Seq<u8>, b: Seq<u8>) -> bool {
    exists|k: int| less_at(a, b, k)
}

/// Whether the name `a` comes before the name `b`.
pub open spec fn name_less(a: Seq<char>, b: Seq<char>) -> bool {
    bytes_less(encode_utf8(a), encode_utf8(b))
}

/// No sequence of bytes comes before itself.
pub proof fn lemma_less_irreflexive(a: Seq<u8>)
    ensures
        !bytes_less(a, a),
{
}

/// What comes before something that comes before `c` comes before `c`.
pub proof fn lemma_less_transitive(a: Seq<u8>, b: Seq<u8>, c: Seq<u8>)
    requires
        bytes_less(a, b),
        bytes_less(b, c),
    ensures
        bytes_less(a, c),
{
    let k1 = choose|k: int| less_at(a, b, k);
    let k2 = choose|k: int| less_at(b, c, k);
    if k1 <= k2 {
        assert(less_at(a, c, k1));
    } else {
        assert(less_at(a, c, k2));
    }
}

/// Names with the same UTF-8 bytes are the same name.
pub proof fn lemma_same_bytes(a: Seq<char>, b: Seq<char>)
    requires
        encode_utf8(a) == encode_utf8(b),
    ensures
        a == b,
{
    encode_utf8_decode_utf8(a);
    encode_utf8_decode_utf8(b);
}

/// A name does not come before itself, and of two names at most one comes
/// before the other.
pub proof fn lemma_name_order(a: Seq<char>, b: Seq<char>)
    ensures
        !name_less(a, a),
        name_less(a, b) ==> a != b && !name_less(b, a),
{
    lemma_less_irreflexive(encode_utf8(a));
    if name_less(a, b) && name_less(b, a) {
        lemma_less_transitive(encode_utf8(a), encode_utf8(b), encode_utf8(a));
    }
}

/// Compares two names.
pub fn compare(a: &str, b: &str) -> (r: Order)
    ensures
        r == Order::Less <==> name_less(a@, b@),
        r == Order::Equal <==> a@ == b@,
        r == Order::Greater <==> name_less(b@, a@),
{
    let x = a.as_bytes();
    let y = b.as_bytes();
    let mut i: usize = 0;
    proof {
        lemma_name_order(a@, b@);
        lemma_name_order(b@, a@);
    }
    while i < x.len() && i < y.len()
        invariant
            x@ == encode_utf8(a@),
            y@ == encode_utf8(b@),
            common_prefix(x@, y@, i as int),
        decreases x.len() - i,
    {
        if x[i] < y[i] {
            assert(less_at(x@, y@, i as int));
            return Order::Less;
        }
        if x[i] > y[i] {
            assert(less_at(y@, x@, i as int));
            return Order::Greater;
        }
        i += 1;
    }
    if x.len() < y.len() {
        assert(less_at(x@, y@, i as int));
        Order::Less
    } else if x.len() > y.len() {
        assert(less_at(y@, x@, i as int));
        Order::Greater
    } else {
        proof {
            assert(x@ =~= y@);
            lemma_same_bytes(a@, b@);
        }
        Order::Equal
    }
}

/// Whether the names of `s` rise strictly, so that none occurs twice.
pub open spec fn sorted<V>(s: Seq<(Seq<char>, V)>) -> bool {
    forall|i: int, j: int| 0 <= i < j < s.len() ==> name_less((#[trigger] s[i]).0, (#[trigger] s[j]).0)
}

/// Whether `s` holds a value under `name`.
pub open spec fn has_name<V>(s: Seq<(Seq<char>, V)>, name: Seq<char>) -> bool {
    exists|i: int| 0 <= i < s.len() && (#[trigger] s[i]).0 == name
}

/// A place where `s` holds `name`, where it holds it at all.
pub open spec fn index_of<V>(s: Seq<(Seq<char>, V)>, name: Seq<char>) -> int {
    choose|i: int| 0 <= i < s.len() && (#[trigger] s[i]).0 == name
}

/// The value that `s` holds under `name`, where it holds one.
pub open spec fn value_of<V>(s: Seq<(Seq<char>, V)>, name: Seq<char>) -> V {
    s[index_of(s, name)].1
}

/// The number of names of `s` that come before `name`: the place where
/// `name` stands, or would stand, in `s`.
pub open spec fn rank<V>(s: Seq<(Seq<char>, V)>, name: Seq<char>) -> int
    decreases s.len(),
{
    if s.len() == 0 {
        0
    } else if name_less(s.last().0, name) {
        rank(s.drop_last(), name) + 1
    } else {
        rank(s.drop_last(), name)
    }
}

/// `s` with `value` under `name`: in the place of the value that `s` held
/// under that name, or else where the order of names puts it.
pub open spec fn with_name<V>(s: Seq<(Seq<char>, V)>, name: Seq<char>, value: V) -> Seq<
    (Seq<char>, V),
> {
    if has_name(s, name) {
        s.update(rank(s, name), (name, value))
    } else {
        s.insert(rank(s, name), (name, value))
    }
}

/// In a sorted sequence the rank of `name` is the one place `p` with
/// smaller names before it and no smaller name from it on.
pub proof fn lemma_rank<V>(s: Seq<(Seq<char>, V)>, name: Seq<char>, p: int)
    requires
        sorted(s),
        0 <= p <= s.len(),
        forall|i: int| 0 <= i < p ==> name_less((#[trigger] s[i]).0, name),
        forall|i: int| p <= i < s.len() ==> !name_less((#[trigger] s[i]).0, name),
    ensures
        rank(s, name) == p,
    decreases s.len(),
{
    if s.len() > 0 {
        let t = s.drop_last();
        if p == s.len() {
            assert(name_less(s[s.len() - 1].0, name));
            lemma_rank(t, name, p - 1);
        } else {
            assert(!name_less(s[s.len() - 1].0, name));
            lemma_rank(t, name, p);
        }
    }
}

/// In a sorted sequence a name that is held stands at its rank, and
/// nowhere else.
pub proof fn lemma_held_at_rank<V>(s: Seq<(Seq<char>, V)>, i: int)
    requires
        sorted(s),
        0 <= i < s.len(),
    ensures
        has_name(s, s[i].0),
        rank(s, s[i].0) == i,
        index_of(s, s[i].0) == i,
        value_of(s, s[i].0) == s[i].1,
{
    let name = s[i].0;
    assert forall|j: int| 0 <= j < i implies name_less((#[trigger] s[j]).0, name) by {}
    assert forall|j: int| i <= j < s.len() implies !name_less((#[trigger] s[j]).0, name) by {
        lemma_name_order(name, s[j].0);
    }
    lemma_rank(s, name, i);
    let k = index_of(s, name);
    if k < i {
        lemma_name_order(s[k].0, s[i].0);
    } else if k > i {
        lemma_name_order(s[i].0, s[k].0);
    }
}

/// The names of a vector of named values, each with its value.
pub open spec fn named<V>(s: Seq<(String, V)>) -> Seq<(Seq<char>, V)> {
    Seq::new(s.len(), |i: int| (s[i].0@, s[i].1))
}

/// Looks for `name` in a sorted vector. Gives the rank of the name, and
/// whether the vector holds it.
pub(crate) fn search<V>(v: &Vec<(String, V)>, name: &str) -> (r: (usize, bool))
    requires
        sorted(named(v@)),
    ensures
        r.0 == rank(named(v@), name@),
        r.1 == has_name(named(v@), name@),
        r.0 <= v.len(),
        r.1 ==> r.0 < v.len() && v@[r.0 as int].0@ == name@,
{
    let ghost s = named(v@);
    let mut i: usize = 0;
    while i < v.len()
        invariant
            s == named(v@),
            sorted(s),
            i <= v.len(),
            forall|j: int| 0 <= j < i ==> name_less((#[trigger] s[j]).0, name@),
        decreases v.len() - i,
    {
        match compare(v[i].0.as_str(), name) {
            Order::Less => {},
            Order::Equal => {
                proof {
                    assert(s[i as int].0 == name@);
                    lemma_held_at_rank(s, i as int);
                }
                return (i, true);
            },
            Order::Greater => {
                proof {
                    assert forall|j: int| i <= j < s.len() implies !name_less(
                        (#[trigger] s[j]).0,
                        name@,
                    ) && s[j].0 != name@ by {
                        lemma_name_order(name@, s[i as int].0);
                        if j > i {
                            lemma_less_transitive(
                                encode_utf8(name@),
                                encode_utf8(s[i as int].0),
                                encode_utf8(s[j].0),
                            );
                        }
                        lemma_name_order(name@, s[j].0);
                    }
                    assert forall|j: int| 0 <= j < i implies (#[trigger] s[j]).0 != name@ by {
                        lemma_name_order(s[j].0, name@);
                    }
                    lemma_rank(s, name@, i as int);
                }
                return (i, false);
            },
        }
        i += 1;
    }
    proof {
        assert forall|j: int| 0 <= j < s.len() implies (#[trigger] s[j]).0 != name@ by {
            lemma_name_order(s[j].0, name@);
        }
        lemma_rank(s, name@, i as int);
    }
    (i, false)
}

/// Puts `value` under `name` into a sorted vector, and gives back the
/// value that the name held before.
pub(crate) fn put<V>(v: &mut Vec<(String, V)>, name: String, value: V) -> (r: Option<V>)
    requires
        sorted(named(old(v)@)),
    ensures
        sorted(named(final(v)@)),
        named(final(v)@) == with_name(named(old(v)@), name@, value),
        r == if has_name(named(old(v)@), name@) {
            Some(value_of(named(old(v)@), name@))
        } else {
            None
        },
{
    let ghost s = named(v@);
    let (at, found) = search(v, name.as_str());
    if found {
        let held = v.remove(at);
        v.insert(at, (name, value));
        proof {
            lemma_held_at_rank(s, at as int);
            let t = named(v@);
            assert(t =~= s.update(at as int, (name@, value)));
            assert forall|i: int, j: int| 0 <= i < j < t.len() implies name_less(
                (#[trigger] t[i]).0,
                (#[trigger] t[j]).0,
            ) by {
                assert(t[i].0 == s[i].0 && t[j].0 == s[j].0);
            }
        }
        Some(held.1)
    } else {
        v.insert(at, (name, value));
        proof {
            let t = named(v@);
            assert(t =~= s.insert(at as int, (name@, value)));
            lemma_insert_sorted(s, name@, value);
        }
        None
    }
}

/// Putting a new name at its rank keeps a sorted sequence sorted.
pub proof fn lemma_insert_sorted<V>(s: Seq<(Seq<char>, V)>, name: Seq<char>, value: V)
    requires
        sorted(s),
        !has_name(s, name),
    ensures
        sorted(s.insert(rank(s, name), (name, value))),
        0 <= rank(s, name) <= s.len(),
{
    lemma_rank_splits(s, name);
    let p = rank(s, name);
    let t = s.insert(p, (name, value));
    assert forall|i: int, j: int| 0 <= i < j < t.len() implies name_less(
        (#[trigger] t[i]).0,
        (#[trigger] t[j]).0,
    ) by {
        if j < p {
            assert(t[i] == s[i] && t[j] == s[j]);
        } else if j == p {
            assert(t[i] == s[i]);
        } else if i < p {
            assert(t[i] == s[i] && t[j] == s[j - 1]);
        } else if i == p {
            assert(t[j] == s[j - 1]);
        } else {
            assert(t[i] == s[i - 1] && t[j] == s[j - 1]);
        }
    }
}

/// In a sorted sequence the names before the rank of `name` are smaller
/// than it, and those from the rank on are not; those that differ from
/// `name` are greater.
pub proof fn lemma_rank_splits<V>(s: Seq<(Seq<char>, V)>, name: Seq<char>)
    requires
        sorted(s),
    ensures
        0 <= rank(s, name) <= s.len(),
        forall|i: int| 0 <= i < rank(s, name) ==> name_less((#[trigger] s[i]).0, name),
        forall|i: int|
            rank(s, name) <= i < s.len() ==> !name_less((#[trigger] s[i]).0, name) && (s[i].0
                != name ==> name_less(name, s[i].0)),
    decreases s.len(),
{
    if s.len() > 0 {
        let t = s.drop_last();
        let last = s[s.len() - 1].0;
        assert(sorted(t)) by {
            assert forall|i: int, j: int| 0 <= i < j < t.len() implies name_less(
                (#[trigger] t[i]).0,
                (#[trigger] t[j]).0,
            ) by {
                assert(t[i] == s[i] && t[j] == s[j]);
            }
        }
        lemma_rank_splits(t, name);
        assert forall|i: int| 0 <= i < t.len() implies (#[trigger] t[i]) == s[i] by {}
        assert forall|i: int| 0 <= i < t.len() implies (#[trigger] s[i]) == t[i] by {}
        if name_less(last, name) {
            assert forall|i: int| 0 <= i < s.len() implies name_less((#[trigger] s[i]).0, name) by {
                if i < s.len() - 1 {
                    assert(name_less(s[i].0, last));
                    lemma_less_transitive(encode_utf8(s[i].0), encode_utf8(last), encode_utf8(name));
                }
            }
            if rank(t, name) < t.len() {
                assert(!name_less(t[rank(t, name)].0, name));
                assert(false);
            }
        } else {
            lemma_name_total(last, name);
            assert forall|i: int| rank(s, name) <= i < s.len() implies !name_less(
                (#[trigger] s[i]).0,
                name,
            ) && (s[i].0 != name ==> name_less(name, s[i].0)) by {
                if i < t.len() {
                    assert(s[i] == t[i]);
                }
            }
        }
    }
}

/// Of two different names one comes before the other.
pub proof fn lemma_name_total(a: Seq<char>, b: Seq<char>)
    ensures
        a == b || name_less(a, b) || name_less(b, a),
{
    let x = encode_utf8(a);
    let y = encode_utf8(b);
    lemma_bytes_total(x, y, 0);
    if x == y {
        lemma_same_bytes(a, b);
    }
}

/// Two sequences of bytes that agree on their first `k` bytes are the
/// same, or one comes before the other.
pub proof fn lemma_bytes_total(x: Seq<u8>, y: Seq<u8>, k: int)
    requires
        common_prefix(x, y, k),
    ensures
        x == y || bytes_less(x, y) || bytes_less(y, x),
    decreases x.len() - k,
{
    if k == x.len() {
        if k == y.len() {
            assert(x =~= y);
        } else {
            assert(less_at(x, y, k));
        }
    } else if k == y.len() {
        assert(less_at(y, x, k));
    } else if x[k] < y[k] {
        assert(less_at(x, y, k));
    } else if x[k] > y[k] {
        assert(less_at(y, x, k));
    } else {
        lemma_bytes_total(x, y, k + 1);
    }
}

/// Whether `s` and `t` hold the same names in the same places.
pub open spec fn same_names<V, W>(s: Seq<(Seq<char>, V)>, t: Seq<(Seq<char>, W)>) -> bool {
    &&& s.len() == t.len()
    &&& forall|i: int| 0 <= i < s.len() ==> (#[trigger] s[i]).0 == (#[trigger] t[i]).0
}

/// What is said of the names of a sequence holds of every sequence with
/// the same names.
pub proof fn lemma_same_names<V, W>(s: Seq<(Seq<char>, V)>, t: Seq<(Seq<char>, W)>, name: Seq<char>)
    requires
        same_names(s, t),
    ensures
        sorted(s) == sorted(t),
        has_name(s, name) == has_name(t, name),
        rank(s, name) == rank(t, name),
    decreases s.len(),
{
    if sorted(s) {
        assert forall|i: int, j: int| 0 <= i < j < t.len() implies name_less(
            (#[trigger] t[i]).0,
            (#[trigger] t[j]).0,
        ) by {
            assert(s[i].0 == t[i].0 && s[j].0 == t[j].0);
        }
    }
    if sorted(t) {
        assert forall|i: int, j: int| 0 <= i < j < s.len() implies name_less(
            (#[trigger] s[i]).0,
            (#[trigger] s[j]).0,
        ) by {
            assert(s[i].0 == t[i].0 && s[j].0 == t[j].0);
        }
    }
    if has_name(s, name) {
        let i = index_of(s, name);
        assert(t[i].0 == name);
    }
    if has_name(t, name) {
        let i = index_of(t, name);
        assert(s[i].0 == name);
    }
    if s.len() > 0 {
        let s1 = s.drop_last();
        let t1 = t.drop_last();
        assert forall|i: int| 0 <= i < s1.len() implies (#[trigger] s1[i]).0 == (#[trigger] t1[i]).0 by {
            assert(s1[i] == s[i] && t1[i] == t[i]);
        }
        assert(s[s.len() - 1].0 == t[t.len() - 1].0);
        lemma_same_names(s1, t1, name);
    }
}

/// The names of a vector of named values, each with the mathematical form
/// of its value.
pub open spec fn viewed<V: View>(s: Seq<(String, V)>) -> Seq<(Seq<char>, V::V)> {
    Seq::new(s.len(), |i: int| (s[i].0@, s[i].1@))
}

/// The map from the names of `s` to what they hold.
pub open spec fn to_map<V>(s: Seq<(Seq<char>, V)>) -> Map<Seq<char>, V> {
    Map::new(|name: Seq<char>| has_name(s, name), |name: Seq<char>| value_of(s, name))
}

/// Putting a value under a name keeps a sorted sequence sorted, and does
/// to the map of the sequence what `insert` does to a map.
pub proof fn lemma_with_name<V>(s: Seq<(Seq<char>, V)>, name: Seq<char>, value: V)
    requires
        sorted(s),
    ensures
        sorted(with_name(s, name, value)),
        to_map(with_name(s, name, value)) == to_map(s).insert(name, value),
        has_name(with_name(s, name, value), name),
        value_of(with_name(s, name, value), name) == value,
        forall|other: Seq<char>|
            other != name ==> has_name(with_name(s, name, value), other) == has_name(s, other),
        forall|other: Seq<char>|
            other != name && has_name(s, other) ==> value_of(with_name(s, name, value), other)
                == value_of(s, other),
{
    let t = with_name(s, name, value);
    let p = rank(s, name);
    lemma_rank_splits(s, name);
    if has_name(s, name) {
        let k = index_of(s, name);
        lemma_held_at_rank(s, k);
        assert forall|i: int, j: int| 0 <= i < j < t.len() implies name_less(
            (#[trigger] t[i]).0,
            (#[trigger] t[j]).0,
        ) by {
            assert(t[i].0 == s[i].0 && t[j].0 == s[j].0);
        }
    } else {
        lemma_insert_sorted(s, name, value);
    }
    assert(t[p] == (name, value));
    lemma_held_at_rank(t, p);
    assert forall|other: Seq<char>| other != name implies has_name(t, other) == has_name(
        s,
        other,
    ) && (has_name(s, other) ==> value_of(t, other) == value_of(s, other)) by {
        if has_name(s, other) {
            let i = index_of(s, other);
            lemma_held_at_rank(s, i);
            let j = if has_name(s, name) || i < p {
                i
            } else {
                i + 1
            };
            assert(t[j] == s[i]);
            lemma_held_at_rank(t, j);
        }
        if has_name(t, other) {
            let j = index_of(t, other);
            let i = if has_name(s, name) || j < p {
                j
            } else {
                j - 1
            };
            assert(s[i] == t[j]);
        }
    }
    assert(to_map(t) =~= to_map(s).insert(name, value));
}

/// In a sorted sequence each name holds what stands beside it.
pub proof fn lemma_to_map<V>(s: Seq<(Seq<char>, V)>, i: int)
    requires
        sorted(s),
        0 <= i < s.len(),
    ensures
        to_map(s).contains_key(s[i].0),
        to_map(s)[s[i].0] == s[i].1,
{
    lemma_held_at_rank(s, i);
}

/// `s` without `name` and what it holds.
pub open spec fn without_name<V>(s: Seq<(Seq<char>, V)>, name: Seq<char>) -> Seq<(Seq<char>, V)> {
    if has_name(s, name) {
        s.remove(rank(s, name))
    } else {
        s
    }
}

/// Taking a name out keeps a sorted sequence sorted, takes that name out
/// and leaves the others with what they hold.
pub proof fn lemma_without_name<V>(s: Seq<(Seq<char>, V)>, name: Seq<char>)
    requires
        sorted(s),
    ensures
        sorted(without_name(s, name)),
        !has_name(without_name(s, name), name),
        forall|other: Seq<char>|
            other != name ==> has_name(without_name(s, name), other) == has_name(s, other),
        forall|other: Seq<char>|
            other != name && has_name(s, other) ==> value_of(without_name(s, name), other)
                == value_of(s, other),
{
    let t = without_name(s, name);
    if has_name(s, name) {
        let p = index_of(s, name);
        lemma_held_at_rank(s, p);
        assert forall|i: int, j: int| 0 <= i < j < t.len() implies name_less(
            (#[trigger] t[i]).0,
            (#[trigger] t[j]).0,
        ) by {
            let a = if i < p {
                i
            } else {
                i + 1
            };
            let b = if j < p {
                j
            } else {
                j + 1
            };
            assert(t[i] == s[a] && t[j] == s[b]);
        }
        if has_name(t, name) {
            let j = index_of(t, name);
            let b = if j < p {
                j
            } else {
                j + 1
            };
            assert(t[j] == s[b]);
            lemma_held_at_rank(s, b);
        }
        assert forall|other: Seq<char>| other != name implies has_name(t, other) == has_name(
            s,
            other,
        ) && (has_name(s, other) ==> value_of(t, other) == value_of(s, other)) by {
            if has_name(s, other) {
                let i = index_of(s, other);
                lemma_held_at_rank(s, i);
                let j = if i < p {
                    i
                } else {
                    i - 1
                };
                assert(t[j] == s[i]);
                lemma_held_at_rank(t, j);
            }
            if has_name(t, other) {
                let j = index_of(t, other);
                let i = if j < p {
                    j
                } else {
                    j + 1
                };
                assert(s[i] == t[j]);
            }
        }
    }
}

/// Takes `name` and what it holds out of a sorted vector.
pub(crate) fn take<V>(v: &mut Vec<(String, V)>, name: &str) -> (r: Option<V>)
    requires
        sorted(named(old(v)@)),
    ensures
        sorted(named(final(v)@)),
        named(final(v)@) == without_name(named(old(v)@), name@),
        r == if has_name(named(old(v)@), name@) {
            Some(value_of(named(old(v)@), name@))
        } else {
            None
        },
{
    let ghost s = named(v@);
    let (at, found) = search(v, name);
    if found {
        let held = v.remove(at);
        proof {
            lemma_held_at_rank(s, at as int);
            assert(named(v@) =~= s.remove(at as int));
            lemma_without_name(s, name@);
        }
        Some(held.1)
    } else {
        None
    }
}

/// The mathematical form of a vector after a value was put under a name
/// is the mathematical form before it with the value's form put under
/// the name.
pub proof fn lemma_viewed_with_name<V: View>(
    before: Seq<(String, V)>,
    after: Seq<(String, V)>,
    name: Seq<char>,
    value: V,
)
    requires
        named(after) == with_name(named(before), name, value),
        sorted(named(before)),
    ensures
        viewed(after) == with_name(viewed(before), name, value@),
{
    lemma_same_names(named(before), viewed(before), name);
    lemma_rank_splits(named(before), name);
    lemma_with_name(named(before), name, value);
    let p = rank(named(before), name);
    if has_name(named(before), name) {
        lemma_held_at_rank(named(before), index_of(named(before), name));
    }
    assert(after.len() == named(after).len());
    assert forall|i: int| 0 <= i < after.len() implies viewed(after)[i] == with_name(
        viewed(before),
        name,
        value@,
    )[i] by {
        assert(viewed(after)[i] == (named(after)[i].0, named(after)[i].1@));
        if has_name(named(before), name) {
            if i != p {
                assert(named(after)[i] == named(before)[i]);
            }
        } else {
            if i < p {
                assert(named(after)[i] == named(before)[i]);
            } else if i > p {
                assert(named(after)[i] == named(before)[i - 1]);
            }
        }
    }
    assert(viewed(after) =~= with_name(viewed(before), name, value@));
}

/// The mathematical form of a vector after a name was taken out is the
/// mathematical form before it without the name.
pub proof fn lemma_viewed_without_name<V: View>(
    before: Seq<(String, V)>,
    after: Seq<(String, V)>,
    name: Seq<char>,
)
    requires
        named(after) == without_name(named(before), name),
        sorted(named(before)),
    ensures
        viewed(after) == without_name(viewed(before), name),
{
    lemma_same_names(named(before), viewed(before), name);
    lemma_rank_splits(named(before), name);
    let p = rank(named(before), name);
    if has_name(named(before), name) {
        lemma_held_at_rank(named(before), index_of(named(before), name));
    }
    assert(after.len() == named(after).len());
    assert forall|i: int| 0 <= i < after.len() implies viewed(after)[i] == without_name(
        viewed(before),
        name,
    )[i] by {
        assert(viewed(after)[i] == (named(after)[i].0, named(after)[i].1@));
        if has_name(named(before), name) {
            if i < p {
                assert(named(after)[i] == named(before)[i]);
            } else {
                assert(named(after)[i] == named(before)[i + 1]);
            }
        }
    }
    assert(viewed(after) =~= without_name(viewed(before), name));
}

/// The first `j + 1` places of a sequence hold the names of the first `j`
/// and the name at place `j`.
pub proof fn lemma_prefix_names<V>(s: Seq<(Seq<char>, V)>, j: int, name: Seq<char>)
    requires
        0 <= j < s.len(),
    ensures
        has_name(s.subrange(0, j + 1), name) <==> has_name(s.subrange(0, j), name) || s[j].0
            == name,
{
    let short = s.subrange(0, j);
    let long = s.subrange(0, j + 1);
    if has_name(short, name) {
        let i = index_of(short, name);
        assert(long[i].0 == name);
    }
    if s[j].0 == name {
        assert(long[j].0 == name);
    }
    if has_name(long, name) {
        let i = index_of(long, name);
        if i < j {
            assert(short[i].0 == name);
        }
    }
}

/// In a sorted sequence the name at place `j` stands at no place before
/// it.
pub proof fn lemma_prefix_fresh<V>(s: Seq<(Seq<char>, V)>, j: int)
    requires
        sorted(s),
        0 <= j < s.len(),
    ensures
        !has_name(s.subrange(0, j), s[j].0),
{
    let short = s.subrange(0, j);
    if has_name(short, s[j].0) {
        let i = index_of(short, s[j].0);
        assert(short[i] == s[i]);
        lemma_name_order(s[i].0, s[j].0);
    }
}

} // verus!
