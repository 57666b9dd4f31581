//! JSON values as the engine reads and stores them.

use crate::types::names::{compare, Order};
use vstd::prelude::*;

verus! {

/// A JSON number: a natural number, a negative integer, or a number with a
/// fraction or exponent, which is kept as the 64 bits of its IEEE 754
/// double.
#[derive(Debug, Clone, Copy, PartialEq, Eq, Structural)]
pub enum Number {
    PosInt(u64),
    NegInt(i64),
    Float(u64),
}

impl Number {
    /// The number as a signed 64 bit integer, where it is one.
    pub open spec fn spec_as_i64(self) -> Option<i64> {
        match self {
            Number::PosInt(n) => if n <= i64::MAX as u64 {
                Some(n as i64)
            } else {
                None
            },
            Number::NegInt(n) => Some(n),
            Number::Float(_) => None,
        }
    }

    /// The number as a signed 64 bit integer, where it is one.
    pub fn as_i64(&self) -> (r: Option<i64>)
        ensures
            r == self.spec_as_i64(),
    {
        match *self {
            Number::PosInt(n) => if n <= i64::MAX as u64 {
                Some(n as i64)
            } else {
                None
            },
            Number::NegInt(n) => Some(n),
            Number::Float(_) => None,
        }
    }
}

/// A JSON value. The members of an object are kept in the order given.
#[derive(Debug, PartialEq, Eq)]
pub enum Value {
    Null,
    Bool(bool),
    Number(Number),
    String(String),
    Array(Vec<Value>),
    Object(Vec<(String, Value)>),
}

/// The mathematical form of a JSON value.
pub enum Json {
    Null,
    Bool(bool),
    Number(Number),
    String(Seq<char>),
    Array(Seq<Json>),
    Object(Seq<(Seq<char>, Json)>),
}

impl View for Value {
    type V = Json;

    open spec fn view(&self) -> Json
        decreases self,
    {
        match self {
            Value::Null => Json::Null,
            Value::Bool(b) => Json::Bool(*b),
            Value::Number(n) => Json::Number(*n),
            Value::String(s) => Json::String(s@),
            Value::Array(items) => Json::Array(
                Seq::new(
                    items@.len(),
                    |i: int|
                        if 0 <= i < items@.len() {
                            items@[i]@
                        } else {
                            Json::Null
                        },
                ),
            ),
            Value::Object(members) => Json::Object(
                Seq::new(
                    members@.len(),
                    |i: int|
                        if 0 <= i < members@.len() {
                            (members@[i].0@, members@[i].1@)
                        } else {
                            (Seq::empty(), Json::Null)
                        },
                ),
            ),
        }
    }
}

impl Clone for Value {
    fn clone(&self) -> (r: Value)
        ensures
            r@ == self@,
        decreases self,
    {
        match self {
            Value::Null => Value::Null,
            Value::Bool(b) => Value::Bool(*b),
            Value::Number(n) => Value::Number(*n),
            Value::String(s) => Value::String(s.clone()),
            Value::Array(items) => {
                let mut copy: Vec<Value> = Vec::new();
                let mut i: usize = 0;
                while i < items.len()
                    invariant
                        *self == Value::Array(*items),
                        i <= items.len(),
                        copy.len() == i,
                        forall|j: int| 0 <= j < i ==> copy@[j]@ == items@[j]@,
                    decreases items.len() - i,
                {
                    let item = &items[i];
                    assert(decreases_to!(*items => items[i as int]));
                    assert(decreases_to!(*self => self->Array_0));
                    copy.push(item.clone());
                    i += 1;
                }
                let r = Value::Array(copy);
                assert(r@->Array_0 =~= self@->Array_0);
                r
            },
            Value::Object(members) => {
                let mut copy: Vec<(String, Value)> = Vec::new();
                let mut i: usize = 0;
                while i < members.len()
                    invariant
                        *self == Value::Object(*members),
                        i <= members.len(),
                        copy.len() == i,
                        forall|j: int|
                            0 <= j < i ==> copy@[j].0@ == members@[j].0@ && copy@[j].1@
                                == members@[j].1@,
                    decreases members.len() - i,
                {
                    let member = &members[i];
                    assert(decreases_to!(*members => members[i as int]));
                    assert(decreases_to!(*self => self->Object_0));
                    assert(decreases_to!(members[i as int] => members[i as int].1));
                    copy.push((member.0.clone(), member.1.clone()));
                    i += 1;
                }
                let r = Value::Object(copy);
                assert(r@->Object_0 =~= self@->Object_0);
                r
            },
        }
    }
}

impl Json {
    /// The first member of an object that has the given name.
    pub open spec fn member(self, name: Seq<char>) -> Option<Json>
        recommends
            self is Object,
    {
        first_member(self->Object_0, name)
    }
}

/// The first of `members` that has the given name.
pub open spec fn first_member(members: Seq<(Seq<char>, Json)>, name: Seq<char>) -> Option<Json>
    decreases members.len(),
{
    if members.len() == 0 {
        None
    } else if members[0].0 == name {
        Some(members[0].1)
    } else {
        first_member(members.drop_first(), name)
    }
}

impl Value {
    /// The text, if the value is a string.
    pub fn as_str(&self) -> (r: Option<&str>)
        ensures
            match r {
                Some(text) => self@ == Json::String(text@),
                None => !(self@ is String),
            },
    {
        match self {
            Value::String(text) => Some(text.as_str()),
            _ => None,
        }
    }

    /// The `i`-th item, if the value is an array that has one.
    pub fn get_index(&self, i: usize) -> (r: Option<&Value>)
        ensures
            match r {
                Some(item) => self@ is Array && i < self@->Array_0.len() && item@
                    == self@->Array_0[i as int],
                None => !(self@ is Array && i < self@->Array_0.len()),
            },
    {
        proof {
            reveal_with_fuel(<Value as View>::view, 2);
        }
        match self {
            Value::Array(items) => if i < items.len() {
                Some(&items[i])
            } else {
                None
            },
            _ => None,
        }
    }

    /// The first member of the given name, if the value is an object that
    /// has one.
    pub fn get(&self, name: &str) -> (r: Option<&Value>)
        ensures
            match r {
                Some(member) => self@ is Object && self@.member(name@) == Some(member@),
                None => !(self@ is Object) || self@.member(name@) is None,
            },
    {
        proof {
            reveal_with_fuel(<Value as View>::view, 2);
        }
        match self {
            Value::Object(members) => {
                let ghost all = self@->Object_0;
                let mut i: usize = 0;
                assert(all.subrange(0, all.len() as int) =~= all);
                while i < members.len()
                    invariant
                        i <= members.len(),
                        self@ is Object,
                        all == self@->Object_0,
                        all.len() == members.len(),
                        forall|k: int|
                            0 <= k < all.len() ==> (#[trigger] all[k]) == (
                                members@[k].0@,
                                members@[k].1@,
                            ),
                        first_member(all.subrange(i as int, all.len() as int), name@)
                            == first_member(all, name@),
                    decreases members.len() - i,
                {
                    let ghost tail = all.subrange(i as int, all.len() as int);
                    proof {
                        assert(tail[0] == all[i as int]);
                        assert(tail.drop_first() =~= all.subrange(i as int + 1, all.len() as int));
                    }
                    if compare(members[i].0.as_str(), name) == Order::Equal {
                        return Some(&members[i].1);
                    }
                    i += 1;
                }
                None
            },
            _ => None,
        }
    }
}

} // verus!
