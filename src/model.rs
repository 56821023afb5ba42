use vstd::prelude::*;
use crate::logic::{applied, apply};
use crate::keys::{key_less, key_lt, lemma_key_lt_irreflexive, lemma_key_lt_total, lemma_key_lt_transitive};

verus! {

/// A value that can be stored in the tree.
///
/// A floating-point number is held as its IEEE-754 binary64 bit pattern.
/// Both map variants keep their entries sorted by key, so two maps with the
/// same entries compare equal.
#[derive(Debug, PartialEq)]
pub enum Types {
    Char(char),
    Integer(isize),
    UInteger(usize),
    String(String),
    Float(u64),
    Boolean(bool),
    Vector(Vec<Types>),
    HashMap(Dict),
    BTreeMap(Dict),
    KeyValue(String, Box<Types>),
    Nil,
}

/// The mathematical value of a [`Types`].
pub enum Value {
    Char(char),
    Integer(isize),
    UInteger(usize),
    Str(Seq<char>),
    Float(u64),
    Boolean(bool),
    List(Seq<Value>),
    HashMap(Seq<(Seq<char>, Value)>),
    BTreeMap(Seq<(Seq<char>, Value)>),
    KeyValue(Seq<char>, Box<Value>),
    Nil,
}

/// Whether some entry of `s` has key `k`.
pub open spec fn has_key(s: Seq<(Seq<char>, Value)>, k: Seq<char>) -> bool {
    exists|i: int| 0 <= i < s.len() && (#[trigger] s[i]).0 == k
}

/// An index at which `s` holds key `k`, where there is one.
pub open spec fn key_index(s: Seq<(Seq<char>, Value)>, k: Seq<char>) -> int {
    choose|i: int| 0 <= i < s.len() && (#[trigger] s[i]).0 == k
}

/// The value that `s` holds under `k`, if any.
pub open spec fn lookup(s: Seq<(Seq<char>, Value)>, k: Seq<char>) -> Option<Value> {
    if has_key(s, k) {
        Some(s[key_index(s, k)].1)
    } else {
        None
    }
}

/// The value of an optional [`Types`].
pub open spec fn opt_view(o: Option<Types>) -> Option<Value> {
    match o {
        Some(t) => Some(t@),
        None => None,
    }
}

/// In a sorted sequence the entry found under a key is the one at its index.
pub proof fn lemma_lookup_at(s: Seq<(Seq<char>, Value)>, n: int)
    requires
        sorted(s),
        0 <= n < s.len(),
    ensures
        key_index(s, s[n].0) == n,
        lookup(s, s[n].0) == Some(s[n].1),
{
    let k = s[n].0;
    assert(has_key(s, k));
    let i = key_index(s, k);
    if i != n {
        lemma_key_lt_irreflexive(k);
        if i < n {
            assert(key_lt(s[i].0, s[n].0));
        } else {
            assert(key_lt(s[n].0, s[i].0));
        }
    }
}

/// `after` is `s` with `v` under `k`: the entry of `k` replaced where it
/// stands, or a new entry put where the order of keys places it.
pub open spec fn upserted(
    s: Seq<(Seq<char>, Value)>,
    k: Seq<char>,
    v: Value,
    after: Seq<(Seq<char>, Value)>,
) -> bool {
    &&& sorted(after)
    &&& if has_key(s, k) {
        after == s.update(key_index(s, k), (k, v))
    } else {
        exists|i: int| 0 <= i <= s.len() && after == s.insert(i, (k, v))
    }
}

/// There is one way to put a value under a key.
pub proof fn lemma_upserted_unique(
    s: Seq<(Seq<char>, Value)>,
    k: Seq<char>,
    v: Value,
    a1: Seq<(Seq<char>, Value)>,
    a2: Seq<(Seq<char>, Value)>,
)
    requires
        upserted(s, k, v, a1),
        upserted(s, k, v, a2),
    ensures
        a1 == a2,
{
    if !has_key(s, k) {
        let i = choose|i: int| 0 <= i <= s.len() && a1 == s.insert(i, (k, v));
        let j = choose|j: int| 0 <= j <= s.len() && a2 == s.insert(j, (k, v));
        if i < j {
            lemma_insert_order(s, k, v, a1, a2, i, j);
        } else if j < i {
            lemma_insert_order(s, k, v, a2, a1, j, i);
        }
    }
}

/// The view of a map is its stored entries, viewed one by one.
pub proof fn lemma_items(d: Dict)
    ensures
        d.items().len() == d@.len(),
        forall|i: int| 0 <= i < d@.len() ==> #[trigger] d@[i] == (d.items()[i].0@, d.items()[i].1@),
{
    lemma_view_entries(d.entries@);
}

/// After putting `v0` under `k0`, `k0` holds `v0` and every other key holds
/// what it held before.
pub proof fn lemma_upserted_lookup(
    s: Seq<(Seq<char>, Value)>,
    k0: Seq<char>,
    v0: Value,
    after: Seq<(Seq<char>, Value)>,
    k: Seq<char>,
)
    requires
        sorted(s),
        upserted(s, k0, v0, after),
    ensures
        lookup(after, k) == if k == k0 {
            Some(v0)
        } else {
            lookup(s, k)
        },
{
    if has_key(s, k0) {
        let idx = key_index(s, k0);
        if k == k0 {
            lemma_lookup_at(after, idx);
        } else if has_key(s, k) {
            let j = key_index(s, k);
            assert(after[j] == s[j]);
            lemma_lookup_at(s, j);
            lemma_lookup_at(after, j);
        } else {
            assert forall|i: int| 0 <= i < after.len() implies (#[trigger] after[i]).0 != k by {
                if i != idx {
                    assert(after[i] == s[i]);
                }
            }
        }
    } else {
        let p = choose|p: int| 0 <= p <= s.len() && after == s.insert(p, (k0, v0));
        if k == k0 {
            lemma_lookup_at(after, p);
        } else if has_key(s, k) {
            let j = key_index(s, k);
            let jj = if j < p {
                j
            } else {
                j + 1
            };
            assert(after[jj] == s[j]);
            lemma_lookup_at(s, j);
            lemma_lookup_at(after, jj);
        } else {
            assert forall|i: int| 0 <= i < after.len() implies (#[trigger] after[i]).0 != k by {
                if i < p {
                    assert(after[i] == s[i]);
                } else if i > p {
                    assert(after[i] == s[i - 1]);
                }
            }
        }
    }
}

/// Two insertions of one entry that both leave the keys sorted stand at one index.
proof fn lemma_insert_order(
    s: Seq<(Seq<char>, Value)>,
    k: Seq<char>,
    v: Value,
    a1: Seq<(Seq<char>, Value)>,
    a2: Seq<(Seq<char>, Value)>,
    i: int,
    j: int,
)
    requires
        0 <= i <= j <= s.len(),
        a1 == s.insert(i, (k, v)),
        a2 == s.insert(j, (k, v)),
        sorted(a1),
        sorted(a2),
    ensures
        i == j,
{
    if i < j {
        assert(a1[i].0 == k && a1[i + 1].0 == s[i].0);
        assert(key_lt(a1[i].0, a1[i + 1].0));
        assert(a2[i].0 == s[i].0 && a2[j].0 == k);
        assert(key_lt(a2[i].0, a2[j].0));
        lemma_key_lt_total(k, s[i].0);
    }
}

/// `after` is `s` without the entry of `k`, if it had one.
pub open spec fn removed(s: Seq<(Seq<char>, Value)>, k: Seq<char>, after: Seq<(Seq<char>, Value)>) -> bool {
    if has_key(s, k) {
        after == s.remove(key_index(s, k))
    } else {
        after == s
    }
}

/// What mutating the entry of `k` does: where `s` has no such entry, `r` is
/// false and nothing changes; else the value of the entry becomes what
/// [`apply`] leaves, and `r` is what it reports.
pub open spec fn mutated<F: Fn(u64, u64) -> u64>(
    float_sum: F,
    s: Seq<(Seq<char>, Value)>,
    k: Seq<char>,
    operand: Value,
    op: Operation,
    r: bool,
    after: Seq<(Seq<char>, Value)>,
) -> bool {
    if has_key(s, k) {
        exists|v: Value|
            applied(float_sum, lookup(s, k)->Some_0, operand, op, r, v) && after == s.update(
                key_index(s, k),
                (k, v),
            )
    } else {
        !r && after == s
    }
}

/// Keys strictly ascending.
pub open spec fn sorted(s: Seq<(Seq<char>, Value)>) -> bool {
    forall|i: int, j: int| 0 <= i < j < s.len() ==> key_lt(#[trigger] s[i].0, #[trigger] s[j].0)
}

pub open spec fn view_list(s: Seq<Types>) -> Seq<Value>
    decreases s,
{
    if s.len() == 0 {
        Seq::empty()
    } else {
        view_list(s.drop_last()).push(view_value(s.last()))
    }
}

pub closed spec fn view_entries(s: Seq<(String, Types)>) -> Seq<(Seq<char>, Value)>
    decreases s,
{
    if s.len() == 0 {
        Seq::empty()
    } else {
        view_entries(s.drop_last()).push((s.last().0@, view_value(s.last().1)))
    }
}

pub closed spec fn view_dict(d: Dict) -> Seq<(Seq<char>, Value)>
    decreases d,
{
    view_entries(d.entries@)
}

pub open spec fn view_value(t: Types) -> Value
    decreases t,
{
    match t {
        Types::Char(c) => Value::Char(c),
        Types::Integer(n) => Value::Integer(n),
        Types::UInteger(n) => Value::UInteger(n),
        Types::String(s) => Value::Str(s@),
        Types::Float(b) => Value::Float(b),
        Types::Boolean(b) => Value::Boolean(b),
        Types::Vector(v) => Value::List(view_list(v@)),
        Types::HashMap(d) => Value::HashMap(view_dict(d)),
        Types::BTreeMap(d) => Value::BTreeMap(view_dict(d)),
        Types::KeyValue(k, v) => Value::KeyValue(k@, Box::new(view_value(*v))),
        Types::Nil => Value::Nil,
    }
}

impl View for Types {
    type V = Value;

    open spec fn view(&self) -> Value {
        view_value(*self)
    }
}

/// How a stored value is combined with an operand.
#[derive(Debug, Clone, Copy, PartialEq, Eq, Structural)]
pub enum Operation {
    /// Sum, concatenation, append or upsert, by the kinds of the two values.
    Add,
    /// The operand takes the place of the stored value.
    Replace,
}

/// A string-keyed map whose entries are kept sorted by key.
///
/// It is a sorted `Vec` rather than std's `BTreeMap` or `HashMap`: vstd
/// specifies those two only for keys whose order or hash it models, and
/// `String` is not among them, so nothing about their contents could be
/// proved here.
#[derive(Debug, PartialEq)]
pub struct Dict {
    entries: Vec<(String, Types)>,
}

proof fn lemma_view_list(s: Seq<Types>)
    ensures
        view_list(s).len() == s.len(),
        forall|i: int| 0 <= i < s.len() ==> #[trigger] view_list(s)[i] == view_value(s[i]),
    decreases s.len(),
{
    if s.len() > 0 {
        lemma_view_list(s.drop_last());
    }
}

/// The value of a list, read element by element.
pub proof fn lemma_list_view(v: Vec<Types>)
    ensures
        view_list(v@).len() == v@.len(),
        forall|i: int| 0 <= i < v@.len() ==> #[trigger] view_list(v@)[i] == v@[i]@,
{
    lemma_view_list(v@);
}

impl Clone for Types {
    fn clone(&self) -> (r: Self)
        ensures
            r@ == self@,
        decreases self,
    {
        match self {
            Types::Char(c) => Types::Char(*c),
            Types::Integer(n) => Types::Integer(*n),
            Types::UInteger(n) => Types::UInteger(*n),
            Types::String(s) => Types::String(s.clone()),
            Types::Float(b) => Types::Float(*b),
            Types::Boolean(b) => Types::Boolean(*b),
            Types::Vector(v) => {
                let mut w: Vec<Types> = Vec::new();
                let mut i: usize = 0;
                while i < v.len()
                    invariant
                        *self == Types::Vector(*v),
                        i <= v@.len(),
                        w@.len() == i,
                        forall|j: int| 0 <= j < i ==> (#[trigger] w@[j])@ == v@[j]@,
                    decreases v@.len() - i,
                {
                    proof {
                        assert(decreases_to!(*self => (*self)->Vector_0));
                        assert(decreases_to!((*self)->Vector_0 => (*self)->Vector_0[i as int]));
                        assert(decreases_to!(*self => v[i as int]));
                    }
                    let e = v[i].clone();
                    w.push(e);
                    i = i + 1;
                }
                proof {
                    lemma_view_list(w@);
                    lemma_view_list(v@);
                    assert(view_list(w@) =~= view_list(v@));
                }
                Types::Vector(w)
            },
            Types::HashMap(d) => Types::HashMap(d.clone()),
            Types::BTreeMap(d) => Types::BTreeMap(d.clone()),
            Types::KeyValue(k, v) => {
                let inner: &Types = v;
                Types::KeyValue(k.clone(), Box::new(inner.clone()))
            },
            Types::Nil => Types::Nil,
        }
    }
}

impl Clone for Dict {
    fn clone(&self) -> (r: Self)
        ensures
            r@ == self@,
        decreases self,
    {
        proof {
            use_type_invariant(self);
            lemma_view_entries(self.entries@);
        }
        let mut w: Vec<(String, Types)> = Vec::new();
        let mut i: usize = 0;
        while i < self.entries.len()
            invariant
                i <= self.entries@.len(),
                w@.len() == i,
                forall|j: int| 0 <= j < i ==> (#[trigger] w@[j]).0@ == self.entries@[j].0@ && w@[j].1@ == self.entries@[j].1@,
            decreases self.entries@.len() - i,
        {
            proof {
                assert(decreases_to!(*self => self.entries[i as int].1));
            }
            let k = self.entries[i].0.clone();
            let v = self.entries[i].1.clone();
            w.push((k, v));
            i = i + 1;
        }
        proof {
            lemma_view_entries(w@);
            assert(view_entries(w@) =~= view_entries(self.entries@));
        }
        Dict { entries: w }
    }
}

proof fn lemma_view_entries(s: Seq<(String, Types)>)
    ensures
        view_entries(s).len() == s.len(),
        forall|i: int|
            0 <= i < s.len() ==> #[trigger] view_entries(s)[i] == (s[i].0@, view_value(s[i].1)),
    decreases s.len(),
{
    if s.len() > 0 {
        lemma_view_entries(s.drop_last());
    }
}

impl View for Dict {
    type V = Seq<(Seq<char>, Value)>;

    open spec fn view(&self) -> Seq<(Seq<char>, Value)> {
        view_dict(*self)
    }
}

impl Dict {
    #[verifier::type_invariant]
    closed spec fn inv(&self) -> bool {
        sorted(self@)
    }

    pub fn new() -> (r: Dict)
        ensures
            r@.len() == 0,
            sorted(r@),
    {
        proof {
            lemma_view_entries(Seq::empty());
        }
        Dict { entries: Vec::new() }
    }

    pub fn len(&self) -> (r: usize)
        ensures
            r == self@.len(),
            sorted(self@),
    {
        proof {
            use_type_invariant(self);
            lemma_view_entries(self.entries@);
        }
        self.entries.len()
    }

    /// Whether `k` is a key of the map.
    pub fn contains_key(&self, k: &str) -> (r: bool)
        ensures
            r == has_key(self@, k@),
            sorted(self@),
    {
        proof {
            use_type_invariant(self);
        }
        match self.search(k) {
            Ok(_) => true,
            Err(p) => {
                proof {
                    assert forall|j: int| 0 <= j < self@.len() implies (#[trigger] self@[j]).0 != k@ by {
                        lemma_key_lt_irreflexive(k@);
                    }
                }
                false
            },
        }
    }

    /// A copy of the value under `k`, if any.
    pub fn get(&self, k: &str) -> (r: Option<Types>)
        ensures
            opt_view(r) == lookup(self@, k@),
            sorted(self@),
    {
        proof {
            use_type_invariant(self);
            lemma_view_entries(self.entries@);
        }
        match self.search(k) {
            Ok(i) => {
                proof {
                    lemma_lookup_at(self@, i as int);
                }
                Some(self.entries[i].1.clone())
            },
            Err(p) => {
                proof {
                    assert forall|j: int| 0 <= j < self@.len() implies (#[trigger] self@[j]).0 != k@ by {
                        lemma_key_lt_irreflexive(k@);
                    }
                }
                None
            },
        }
    }

    /// Puts `v` under `k`, and returns what was there before.
    pub fn insert(&mut self, k: String, v: Types) -> (r: Option<Types>)
        ensures
            opt_view(r) == lookup(old(self)@, k@),
            upserted(old(self)@, k@, v@, final(self)@),
    {
        proof {
            use_type_invariant(&*self);
            lemma_view_entries(self.entries@);
        }
        let ghost s = self@;
        let ghost kv = (k@, v@);
        match self.search(k.as_str()) {
            Ok(i) => {
                proof {
                    lemma_lookup_at(s, i as int);
                }
                let mut entries = self.take_entries();
                let ghost before = entries@;
                let (_, prev) = entries.remove(i);
                entries.insert(i, (k, v));
                proof {
                    let t = entries@;
                    assert(t =~= before.update(i as int, t[i as int]));
                    lemma_view_entries(t);
                    assert(view_entries(t) =~= s.update(i as int, kv));
                    assert(sorted(view_entries(t)));
                    assert(has_key(s, k@));
                }
                *self = Dict { entries };
                Some(prev)
            },
            Err(p) => {
                proof {
                    assert forall|j: int| 0 <= j < s.len() implies (#[trigger] s[j]).0 != k@ by {
                        lemma_key_lt_irreflexive(k@);
                    }
                }
                let mut entries = self.take_entries();
                entries.insert(p, (k, v));
                proof {
                    lemma_view_entries(entries@);
                    let t = view_entries(entries@);
                    assert(t =~= s.insert(p as int, kv));
                    assert(!has_key(s, k@));
                    assert forall|a: int, b: int| 0 <= a < b < t.len() implies key_lt(#[trigger] t[a].0, #[trigger] t[b].0) by {
                        if b < p {
                            assert(t[a] == s[a] && t[b] == s[b]);
                        } else if b == p {
                            assert(t[a] == s[a]);
                        } else if a < p {
                            assert(t[a] == s[a] && t[b] == s[b - 1]);
                            lemma_key_lt_transitive(s[a].0, k@, s[b - 1].0);
                        } else if a == p {
                            assert(t[b] == s[b - 1]);
                        } else {
                            assert(t[a] == s[a - 1] && t[b] == s[b - 1]);
                        }
                    }
                }
                *self = Dict { entries };
                None
            },
        }
    }

    /// Takes the entry under `k` out of the map, if there is one.
    pub fn remove_entry(&mut self, k: &str) -> (r: Option<(String, Types)>)
        ensures
            match r {
                Some((key, v)) => {
                    &&& key@ == k@
                    &&& lookup(old(self)@, k@) == Some(v@)
                },
                None => !has_key(old(self)@, k@),
            },
            removed(old(self)@, k@, final(self)@),
            sorted(final(self)@),
    {
        proof {
            use_type_invariant(&*self);
            lemma_view_entries(self.entries@);
        }
        let ghost s = self@;
        match self.search(k) {
            Ok(i) => {
                proof {
                    lemma_lookup_at(s, i as int);
                }
                let mut entries = self.take_entries();
                let e = entries.remove(i);
                proof {
                    lemma_view_entries(entries@);
                    let t = view_entries(entries@);
                    assert(t =~= s.remove(i as int));
                    assert(has_key(s, k@));
                    assert forall|a: int, b: int| 0 <= a < b < t.len() implies key_lt(#[trigger] t[a].0, #[trigger] t[b].0) by {
                        if b < i {
                            assert(t[a] == s[a] && t[b] == s[b]);
                        } else if a < i {
                            assert(t[a] == s[a] && t[b] == s[b + 1]);
                        } else {
                            assert(t[a] == s[a + 1] && t[b] == s[b + 1]);
                        }
                    }
                }
                *self = Dict { entries };
                Some(e)
            },
            Err(p) => {
                proof {
                    assert forall|j: int| 0 <= j < s.len() implies (#[trigger] s[j]).0 != k@ by {
                        lemma_key_lt_irreflexive(k@);
                    }
                }
                None
            },
        }
    }

    /// Takes the value under `k` out of the map, if there is one.
    pub fn remove(&mut self, k: &str) -> (r: Option<Types>)
        ensures
            opt_view(r) == lookup(old(self)@, k@),
            removed(old(self)@, k@, final(self)@),
            sorted(final(self)@),
    {
        match self.remove_entry(k) {
            Some((_, v)) => Some(v),
            None => None,
        }
    }

    /// The keys, in ascending order.
    pub fn keys(&self) -> (r: Vec<String>)
        ensures
            r@.len() == self@.len(),
            forall|i: int| 0 <= i < r@.len() ==> (#[trigger] r@[i])@ == self@[i].0,
            forall|i: int, j: int| 0 <= i < j < r@.len() ==> key_lt(#[trigger] r@[i]@, #[trigger] r@[j]@),
            sorted(self@),
    {
        proof {
            use_type_invariant(self);
            lemma_view_entries(self.entries@);
        }
        let mut r: Vec<String> = Vec::new();
        let mut i: usize = 0;
        while i < self.entries.len()
            invariant
                i <= self.entries@.len(),
                r@.len() == i,
                forall|j: int| 0 <= j < i ==> (#[trigger] r@[j])@ == self.entries@[j].0@,
            decreases self.entries@.len() - i,
        {
            r.push(self.entries[i].0.clone());
            i = i + 1;
        }
        proof {
            assert forall|a: int, b: int| 0 <= a < b < r@.len() implies key_lt(#[trigger] r@[a]@, #[trigger] r@[b]@) by {
                assert(r@[a]@ == self@[a].0 && r@[b]@ == self@[b].0);
            }
        }
        r
    }

    /// Copies of the values, in the order of their keys.
    pub fn values(&self) -> (r: Vec<Types>)
        ensures
            r@.len() == self@.len(),
            forall|i: int| 0 <= i < r@.len() ==> (#[trigger] r@[i])@ == self@[i].1,
            sorted(self@),
    {
        proof {
            use_type_invariant(self);
            lemma_view_entries(self.entries@);
        }
        let mut r: Vec<Types> = Vec::new();
        let mut i: usize = 0;
        while i < self.entries.len()
            invariant
                i <= self.entries@.len(),
                r@.len() == i,
                forall|j: int| 0 <= j < i ==> (#[trigger] r@[j])@ == self.entries@[j].1@,
            decreases self.entries@.len() - i,
        {
            r.push(self.entries[i].1.clone());
            i = i + 1;
        }
        r
    }

    /// Combines the value under `k` with `operand` by `op` (see
    /// [`apply`]); reports `false` and changes nothing where `k` is absent.
    pub fn mutate<F: Fn(u64, u64) -> u64>(
        &mut self,
        k: &str,
        operand: Types,
        op: Operation,
        float_sum: F,
    ) -> (r: bool)
        requires
            forall|a: u64, b: u64| float_sum.requires((a, b)),
        ensures
            mutated(float_sum, old(self)@, k@, operand@, op, r, final(self)@),
            sorted(final(self)@),
    {
        proof {
            use_type_invariant(&*self);
            lemma_view_entries(self.entries@);
        }
        let ghost s = self@;
        match self.search(k) {
            Ok(i) => {
                let mut entries = self.take_entries();
                let ghost before = entries@;
                let (key, mut value) = entries.remove(i);
                proof {
                    lemma_view_entries(before);
                    assert(value@ == s[i as int].1);
                }
                let r = apply(&mut value, operand, op, float_sum);
                entries.insert(i, (key, value));
                proof {
                    let t = entries@;
                    assert(t =~= before.update(i as int, t[i as int]));
                    lemma_view_entries(t);
                    assert(view_entries(t) =~= s.update(i as int, (s[i as int].0, value@)));
                    assert(sorted(view_entries(t)));
                    lemma_lookup_at(s, i as int);
                    assert(has_key(s, k@));
                    assert(applied(float_sum, lookup(s, k@)->Some_0, operand@, op, r, value@));
                }
                *self = Dict { entries };
                r
            },
            Err(p) => {
                proof {
                    assert forall|j: int| 0 <= j < s.len() implies (#[trigger] s[j]).0 != k@ by {
                        lemma_key_lt_irreflexive(k@);
                    }
                }
                false
            },
        }
    }

    /// The entries as stored, in ascending order of keys.
    pub closed spec fn items(&self) -> Seq<(String, Types)> {
        self.entries@
    }

    /// The stored entries, moved out.
    pub fn into_entries(self) -> (r: Vec<(String, Types)>)
        ensures
            r@ == self.items(),
    {
        let Dict { entries } = self;
        entries
    }

    /// Moves the entries out, leaving the map empty.
    fn take_entries(&mut self) -> (r: Vec<(String, Types)>)
        ensures
            r@ == old(self).entries@,
            final(self)@.len() == 0,
    {
        let mut d = Dict::new();
        std::mem::swap(self, &mut d);
        let Dict { entries } = d;
        entries
    }

    /// Finds `k`: `Ok` with its index, or `Err` with the index at which it
    /// would be inserted.
    fn search(&self, k: &str) -> (r: Result<usize, usize>)
        ensures
            match r {
                Ok(i) => i < self@.len() && self@[i as int].0 == k@,
                Err(p) => {
                    &&& p <= self@.len()
                    &&& forall|j: int| 0 <= j < p ==> key_lt(#[trigger] self@[j].0, k@)
                    &&& forall|j: int| p <= j < self@.len() ==> key_lt(k@, #[trigger] self@[j].0)
                },
            },
    {
        proof {
            use_type_invariant(self);
            lemma_view_entries(self.entries@);
        }
        let ghost s = self@;
        let mut lo: usize = 0;
        let mut hi: usize = self.entries.len();
        while lo < hi
            invariant
                s == self@,
                sorted(s),
                s.len() == self.entries@.len(),
                forall|i: int| 0 <= i < s.len() ==> #[trigger] s[i] == (self.entries@[i].0@, view_value(self.entries@[i].1)),
                lo <= hi <= s.len(),
                forall|j: int| 0 <= j < lo ==> key_lt(#[trigger] s[j].0, k@),
                forall|j: int| hi <= j < s.len() ==> key_lt(k@, #[trigger] s[j].0),
            decreases hi - lo,
        {
            let mid: usize = lo + (hi - lo) / 2;
            let key: &str = self.entries[mid].0.as_str();
            if key_less(key, k) {
                assert forall|j: int| 0 <= j < mid + 1 implies key_lt(#[trigger] s[j].0, k@) by {
                    if j < mid {
                        lemma_key_lt_transitive(s[j].0, s[mid as int].0, k@);
                    }
                }
                lo = mid + 1;
            } else if key_less(k, key) {
                assert forall|j: int| mid <= j < s.len() implies key_lt(k@, #[trigger] s[j].0) by {
                    if j > mid {
                        lemma_key_lt_transitive(k@, s[mid as int].0, s[j].0);
                    }
                }
                hi = mid;
            } else {
                proof {
                    lemma_key_lt_total(key@, k@);
                }
                return Ok(mid);
            }
        }
        Err(lo)
    }
}

} // verus!
