//! An ordered store from string keys to dynamically typed values.
//!
//! [`BTree`] holds the map and answers one [`Action`] at a time through
//! [`BTree::handle`]; the task that owns it and the channels that carry
//! requests and replies stand around it. [`model::Types`] is the value
//! model, and [`logic`] combines values in place.
pub mod keys;
pub mod convert;
pub mod logic;
pub mod model;

use vstd::prelude::*;
use crate::logic::{applied, deterministic, lemma_applied_unique};
use crate::model::{sorted, has_key, key_index, lemma_upserted_unique, lookup, mutated, opt_view, removed, upserted, Dict, Operation, Types, Value};

verus! {

/// A request to the store.
pub enum Action {
    Insert(String, Types),
    Contains(String),
    Get(String),
    Len,
    Keys,
    Values,
    Remove(String),
    RemoveEntry(String),
    MutateGet(String, Types, Operation),
}

/// The answer to one [`Action`].
pub enum Reply {
    /// A value, or its absence: `Insert`, `Get`, `Remove`, `RemoveEntry`.
    Value(Option<Types>),
    /// `Contains`, and the outcome of `MutateGet`.
    Flag(bool),
    /// `Len`.
    Count(usize),
    Keys(Vec<String>),
    Values(Vec<Types>),
}

/// One request served against state `s`: `reply` is its answer and `after`
/// the state it leaves.
pub open spec fn step<F: Fn(u64, u64) -> u64>(
    float_sum: F,
    s: Seq<(Seq<char>, Value)>,
    action: Action,
    reply: Reply,
    after: Seq<(Seq<char>, Value)>,
) -> bool {
    match action {
        Action::Insert(k, v) => match reply {
            Reply::Value(o) => opt_view(o) == lookup(s, k@) && upserted(s, k@, v@, after),
            _ => false,
        },
        Action::Contains(k) => reply == Reply::Flag(has_key(s, k@)) && after == s,
        Action::Get(k) => match reply {
            Reply::Value(o) => opt_view(o) == lookup(s, k@) && after == s,
            _ => false,
        },
        Action::Len => reply == Reply::Count(s.len() as usize) && after == s,
        Action::Keys => match reply {
            Reply::Keys(ks) => {
                &&& ks@.len() == s.len()
                &&& forall|i: int| 0 <= i < s.len() ==> (#[trigger] ks@[i])@ == s[i].0
                &&& after == s
            },
            _ => false,
        },
        Action::Values => match reply {
            Reply::Values(vs) => {
                &&& vs@.len() == s.len()
                &&& forall|i: int| 0 <= i < s.len() ==> (#[trigger] vs@[i])@ == s[i].1
                &&& after == s
            },
            _ => false,
        },
        Action::Remove(k) => match reply {
            Reply::Value(o) => opt_view(o) == lookup(s, k@) && removed(s, k@, after),
            _ => false,
        },
        Action::RemoveEntry(k) => match reply {
            Reply::Value(o) => {
                &&& o is Some <==> has_key(s, k@)
                &&& o is Some ==> o->Some_0@ == Value::KeyValue(k@, Box::new(lookup(s, k@)->Some_0))
                &&& removed(s, k@, after)
            },
            _ => false,
        },
        Action::MutateGet(k, v, op) => match reply {
            Reply::Flag(b) => mutated(float_sum, s, k@, v@, op, b, after),
            _ => false,
        },
    }
}

/// The state that a request leaves is a function of the state it found and
/// of the request. Since one owner serves requests one at a time, the map
/// after any interleaving of callers is that of their sequential execution
/// in the order served.
pub proof fn lemma_step_deterministic<F: Fn(u64, u64) -> u64>(
    float_sum: F,
    s: Seq<(Seq<char>, Value)>,
    action: Action,
    r1: Reply,
    after1: Seq<(Seq<char>, Value)>,
    r2: Reply,
    after2: Seq<(Seq<char>, Value)>,
)
    requires
        deterministic(float_sum),
        step(float_sum, s, action, r1, after1),
        step(float_sum, s, action, r2, after2),
    ensures
        after1 == after2,
{
    match action {
        Action::Insert(k, v) => {
            lemma_upserted_unique(s, k@, v@, after1, after2);
        },
        Action::MutateGet(k, v, op) => {
            if has_key(s, k@) {
                let b1 = r1->Flag_0;
                let b2 = r2->Flag_0;
                let x = lookup(s, k@)->Some_0;
                let v1 = choose|v1: Value|
                    applied(float_sum, x, v@, op, b1, v1) && after1 == s.update(key_index(s, k@), (k@, v1));
                let v2 = choose|v2: Value|
                    applied(float_sum, x, v@, op, b2, v2) && after2 == s.update(key_index(s, k@), (k@, v2));
                lemma_applied_unique(float_sum, x, v@, op, b1, v1, b2, v2);
            }
        },
        _ => {},
    }
}

/// The ordered map behind the store. Each key appears once, and keys and
/// values are handed out in ascending order of keys.
pub struct BTree {
    map: Dict,
}

impl View for BTree {
    type V = Seq<(Seq<char>, Value)>;

    closed spec fn view(&self) -> Seq<(Seq<char>, Value)> {
        self.map@
    }
}

impl BTree {
    /// An empty store.
    pub fn new() -> (r: BTree)
        ensures
            r@.len() == 0,
            sorted(r@),
    {
        BTree { map: Dict::new() }
    }

    /// Puts `v` under `k`; returns the value that was there, or `None`.
    pub fn insert(&mut self, k: String, v: Types) -> (r: Option<Types>)
        ensures
            opt_view(r) == lookup(old(self)@, k@),
            r is None <==> !has_key(old(self)@, k@),
            upserted(old(self)@, k@, v@, final(self)@),
    {
        self.map.insert(k, v)
    }

    /// Whether `k` is a key of the store.
    pub fn contains(&self, k: String) -> (r: bool)
        ensures
            r == has_key(self@, k@),
            sorted(self@),
    {
        self.map.contains_key(k.as_str())
    }

    /// A copy of the value under `k`, or `None`.
    pub fn get(&self, k: String) -> (r: Option<Types>)
        ensures
            opt_view(r) == lookup(self@, k@),
            sorted(self@),
    {
        self.map.get(k.as_str())
    }

    /// The number of entries.
    pub fn len(&self) -> (r: usize)
        ensures
            r == self@.len(),
            sorted(self@),
    {
        self.map.len()
    }

    /// All keys, in ascending order.
    pub fn keys(&self) -> (r: Vec<String>)
        ensures
            r@.len() == self@.len(),
            forall|i: int| 0 <= i < r@.len() ==> (#[trigger] r@[i])@ == self@[i].0,
            forall|i: int, j: int|
                0 <= i < j < r@.len() ==> crate::keys::key_lt(#[trigger] r@[i]@, #[trigger] r@[j]@),
            sorted(self@),
    {
        self.map.keys()
    }

    /// Copies of all values, in the ascending order of their keys.
    pub fn values(&self) -> (r: Vec<Types>)
        ensures
            r@.len() == self@.len(),
            forall|i: int| 0 <= i < r@.len() ==> (#[trigger] r@[i])@ == self@[i].1,
            sorted(self@),
    {
        self.map.values()
    }

    /// Removes the entry of `k`; returns its value, or `None`.
    pub fn remove(&mut self, k: String) -> (r: Option<Types>)
        ensures
            opt_view(r) == lookup(old(self)@, k@),
            removed(old(self)@, k@, final(self)@),
            sorted(final(self)@),
    {
        self.map.remove(k.as_str())
    }

    /// Removes the entry of `k`; returns it as a `KeyValue`, or `None`.
    pub fn remove_entry(&mut self, k: String) -> (r: Option<Types>)
        ensures
            r is Some <==> has_key(old(self)@, k@),
            r is Some ==> r->Some_0@ == Value::KeyValue(k@, Box::new(lookup(old(self)@, k@)->Some_0)),
            removed(old(self)@, k@, final(self)@),
            sorted(final(self)@),
    {
        match self.map.remove_entry(k.as_str()) {
            Some((key, v)) => Some(Types::KeyValue(key, Box::new(v))),
            None => None,
        }
    }

    /// Combines the value under `k` with `v` by `op`, as
    /// [`logic::apply`] does; `false`, with nothing changed and no entry
    /// made, where `k` is absent.
    pub fn get_mut<F: Fn(u64, u64) -> u64>(
        &mut self,
        k: String,
        v: Types,
        op: Operation,
        float_sum: F,
    ) -> (r: bool)
        requires
            forall|a: u64, b: u64| float_sum.requires((a, b)),
        ensures
            mutated(float_sum, old(self)@, k@, v@, op, r, final(self)@),
            sorted(final(self)@),
    {
        self.map.mutate(k.as_str(), v, op, float_sum)
    }

    /// Serves one request: applies it to the whole map at once and returns
    /// its answer. Requests served one after another thus leave the state of
    /// their sequential execution, in the order served.
    pub fn handle<F: Fn(u64, u64) -> u64>(&mut self, action: Action, float_sum: F) -> (r: Reply)
        requires
            forall|a: u64, b: u64| float_sum.requires((a, b)),
        ensures
            step(float_sum, old(self)@, action, r, final(self)@),
            sorted(final(self)@),
    {
        match action {
            Action::Insert(k, v) => Reply::Value(self.insert(k, v)),
            Action::Contains(k) => Reply::Flag(self.contains(k)),
            Action::Get(k) => Reply::Value(self.get(k)),
            Action::Len => Reply::Count(self.len()),
            Action::Keys => Reply::Keys(self.keys()),
            Action::Values => Reply::Values(self.values()),
            Action::Remove(k) => Reply::Value(self.remove(k)),
            Action::RemoveEntry(k) => Reply::Value(self.remove_entry(k)),
            Action::MutateGet(k, v, op) => Reply::Flag(self.get_mut(k, v, op, float_sum)),
        }
    }
}

} // verus!
