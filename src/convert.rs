use vstd::prelude::*;
use crate::model::{has_key, key_index, lemma_items, lemma_lookup_at, lemma_upserted_lookup, lookup, sorted, Dict, Types, Value};
use crate::keys::{key_lt, lemma_key_lt_irreflexive, lemma_key_lt_total};
use vstd::std_specs::convert::{FromSpec, TryFromSpec};

verus! {

/// The variant of a value.
#[derive(Debug, Clone, Copy, PartialEq, Eq, Structural)]
pub enum Kind {
    Char,
    Integer,
    UInteger,
    String,
    Float,
    Boolean,
    Vector,
    HashMap,
    BTreeMap,
    KeyValue,
    Nil,
}

/// A value was not of the variant that a conversion asked for.
#[derive(Debug, Clone, Copy, PartialEq, Eq, Structural)]
pub struct ConversionError {
    pub expected: Kind,
    pub found: Kind,
}

pub open spec fn kind_of(v: Value) -> Kind {
    match v {
        Value::Char(_) => Kind::Char,
        Value::Integer(_) => Kind::Integer,
        Value::UInteger(_) => Kind::UInteger,
        Value::Str(_) => Kind::String,
        Value::Float(_) => Kind::Float,
        Value::Boolean(_) => Kind::Boolean,
        Value::List(_) => Kind::Vector,
        Value::HashMap(_) => Kind::HashMap,
        Value::BTreeMap(_) => Kind::BTreeMap,
        Value::KeyValue(_, _) => Kind::KeyValue,
        Value::Nil => Kind::Nil,
    }
}

impl Types {
    /// The variant of this value.
    pub fn kind(&self) -> (r: Kind)
        ensures
            r == kind_of(self@),
    {
        match self {
            Types::Char(_) => Kind::Char,
            Types::Integer(_) => Kind::Integer,
            Types::UInteger(_) => Kind::UInteger,
            Types::String(_) => Kind::String,
            Types::Float(_) => Kind::Float,
            Types::Boolean(_) => Kind::Boolean,
            Types::Vector(_) => Kind::Vector,
            Types::HashMap(_) => Kind::HashMap,
            Types::BTreeMap(_) => Kind::BTreeMap,
            Types::KeyValue(_, _) => Kind::KeyValue,
            Types::Nil => Kind::Nil,
        }
    }
}

impl From<char> for Types {
    fn from(t: char) -> (r: Types) {
        Types::Char(t)
    }
}

impl vstd::std_specs::convert::FromSpecImpl<char> for Types {
    open spec fn obeys_from_spec() -> bool {
        true
    }

    open spec fn from_spec(t: char) -> Types {
        Types::Char(t)
    }
}

impl From<isize> for Types {
    fn from(t: isize) -> (r: Types) {
        Types::Integer(t)
    }
}

impl vstd::std_specs::convert::FromSpecImpl<isize> for Types {
    open spec fn obeys_from_spec() -> bool {
        true
    }

    open spec fn from_spec(t: isize) -> Types {
        Types::Integer(t)
    }
}

impl From<i32> for Types {
    fn from(t: i32) -> (r: Types) {
        Types::Integer(t as isize)
    }
}

impl vstd::std_specs::convert::FromSpecImpl<i32> for Types {
    open spec fn obeys_from_spec() -> bool {
        true
    }

    open spec fn from_spec(t: i32) -> Types {
        Types::Integer(t as isize)
    }
}

impl From<i64> for Types {
    fn from(t: i64) -> (r: Types) {
        Types::Integer(t as isize)
    }
}

impl vstd::std_specs::convert::FromSpecImpl<i64> for Types {
    open spec fn obeys_from_spec() -> bool {
        true
    }

    open spec fn from_spec(t: i64) -> Types {
        Types::Integer(t as isize)
    }
}

impl<'a> From<&'a str> for Types {
    fn from(t: &'a str) -> (r: Types)
        ensures
            r@ == Value::Str(t@),
    {
        Types::String(t.to_owned())
    }
}

/// A `String` cannot be built in specifications, so the conversion is
/// described by the `ensures` of `from` alone: a string value with the
/// characters of `t`.
impl<'a> vstd::std_specs::convert::FromSpecImpl<&'a str> for Types {
    open spec fn obeys_from_spec() -> bool {
        false
    }

    open spec fn from_spec(t: &'a str) -> Types {
        choose|r: Types| r@ == Value::Str(t@)
    }
}

impl From<usize> for Types {
    fn from(t: usize) -> (r: Types) {
        Types::UInteger(t)
    }
}

impl vstd::std_specs::convert::FromSpecImpl<usize> for Types {
    open spec fn obeys_from_spec() -> bool {
        true
    }

    open spec fn from_spec(t: usize) -> Types {
        Types::UInteger(t)
    }
}

impl From<String> for Types {
    fn from(t: String) -> (r: Types) {
        Types::String(t)
    }
}

impl vstd::std_specs::convert::FromSpecImpl<String> for Types {
    open spec fn obeys_from_spec() -> bool {
        true
    }

    open spec fn from_spec(t: String) -> Types {
        Types::String(t)
    }
}

impl From<bool> for Types {
    fn from(t: bool) -> (r: Types) {
        Types::Boolean(t)
    }
}

impl vstd::std_specs::convert::FromSpecImpl<bool> for Types {
    open spec fn obeys_from_spec() -> bool {
        true
    }

    open spec fn from_spec(t: bool) -> Types {
        Types::Boolean(t)
    }
}

impl From<Vec<Types>> for Types {
    fn from(t: Vec<Types>) -> (r: Types) {
        Types::Vector(t)
    }
}

impl vstd::std_specs::convert::FromSpecImpl<Vec<Types>> for Types {
    open spec fn obeys_from_spec() -> bool {
        true
    }

    open spec fn from_spec(t: Vec<Types>) -> Types {
        Types::Vector(t)
    }
}

impl From<(String, Types)> for Types {
    fn from(t: (String, Types)) -> (r: Types) {
        Types::KeyValue(t.0, Box::new(t.1))
    }
}

impl vstd::std_specs::convert::FromSpecImpl<(String, Types)> for Types {
    open spec fn obeys_from_spec() -> bool {
        true
    }

    open spec fn from_spec(t: (String, Types)) -> Types {
        Types::KeyValue(t.0, Box::new(t.1))
    }
}

impl From<Option<Types>> for Types {
    fn from(t: Option<Types>) -> (r: Types) {
        match t {
            Some(v) => v,
            None => Types::Nil,
        }
    }
}

impl vstd::std_specs::convert::FromSpecImpl<Option<Types>> for Types {
    open spec fn obeys_from_spec() -> bool {
        true
    }

    open spec fn from_spec(t: Option<Types>) -> Types {
        match t {
            Some(v) => v,
            None => Types::Nil,
        }
    }
}

impl TryFrom<Types> for char {
    type Error = ConversionError;

    fn try_from(t: Types) -> (r: Result<char, ConversionError>) {
        match t {
            Types::Char(n) => Ok(n),
            other => Err(ConversionError { expected: Kind::Char, found: other.kind() }),
        }
    }
}

impl vstd::std_specs::convert::TryFromSpecImpl<Types> for char {
    open spec fn obeys_try_from_spec() -> bool {
        true
    }

    open spec fn try_from_spec(t: Types) -> Result<char, ConversionError> {
        match t {
            Types::Char(n) => Ok(n),
            other => Err(ConversionError { expected: Kind::Char, found: kind_of(other@) }),
        }
    }
}

impl TryFrom<Types> for isize {
    type Error = ConversionError;

    fn try_from(t: Types) -> (r: Result<isize, ConversionError>) {
        match t {
            Types::Integer(n) => Ok(n),
            other => Err(ConversionError { expected: Kind::Integer, found: other.kind() }),
        }
    }
}

impl vstd::std_specs::convert::TryFromSpecImpl<Types> for isize {
    open spec fn obeys_try_from_spec() -> bool {
        true
    }

    open spec fn try_from_spec(t: Types) -> Result<isize, ConversionError> {
        match t {
            Types::Integer(n) => Ok(n),
            other => Err(ConversionError { expected: Kind::Integer, found: kind_of(other@) }),
        }
    }
}

impl TryFrom<Types> for usize {
    type Error = ConversionError;

    fn try_from(t: Types) -> (r: Result<usize, ConversionError>) {
        match t {
            Types::UInteger(n) => Ok(n),
            other => Err(ConversionError { expected: Kind::UInteger, found: other.kind() }),
        }
    }
}

impl vstd::std_specs::convert::TryFromSpecImpl<Types> for usize {
    open spec fn obeys_try_from_spec() -> bool {
        true
    }

    open spec fn try_from_spec(t: Types) -> Result<usize, ConversionError> {
        match t {
            Types::UInteger(n) => Ok(n),
            other => Err(ConversionError { expected: Kind::UInteger, found: kind_of(other@) }),
        }
    }
}

impl TryFrom<Types> for String {
    type Error = ConversionError;

    fn try_from(t: Types) -> (r: Result<String, ConversionError>) {
        match t {
            Types::String(n) => Ok(n),
            other => Err(ConversionError { expected: Kind::String, found: other.kind() }),
        }
    }
}

impl vstd::std_specs::convert::TryFromSpecImpl<Types> for String {
    open spec fn obeys_try_from_spec() -> bool {
        true
    }

    open spec fn try_from_spec(t: Types) -> Result<String, ConversionError> {
        match t {
            Types::String(n) => Ok(n),
            other => Err(ConversionError { expected: Kind::String, found: kind_of(other@) }),
        }
    }
}

impl TryFrom<Types> for bool {
    type Error = ConversionError;

    fn try_from(t: Types) -> (r: Result<bool, ConversionError>) {
        match t {
            Types::Boolean(n) => Ok(n),
            other => Err(ConversionError { expected: Kind::Boolean, found: other.kind() }),
        }
    }
}

impl vstd::std_specs::convert::TryFromSpecImpl<Types> for bool {
    open spec fn obeys_try_from_spec() -> bool {
        true
    }

    open spec fn try_from_spec(t: Types) -> Result<bool, ConversionError> {
        match t {
            Types::Boolean(n) => Ok(n),
            other => Err(ConversionError { expected: Kind::Boolean, found: kind_of(other@) }),
        }
    }
}

impl TryFrom<Types> for Vec<Types> {
    type Error = ConversionError;

    fn try_from(t: Types) -> (r: Result<Vec<Types>, ConversionError>) {
        match t {
            Types::Vector(n) => Ok(n),
            other => Err(ConversionError { expected: Kind::Vector, found: other.kind() }),
        }
    }
}

impl vstd::std_specs::convert::TryFromSpecImpl<Types> for Vec<Types> {
    open spec fn obeys_try_from_spec() -> bool {
        true
    }

    open spec fn try_from_spec(t: Types) -> Result<Vec<Types>, ConversionError> {
        match t {
            Types::Vector(n) => Ok(n),
            other => Err(ConversionError { expected: Kind::Vector, found: kind_of(other@) }),
        }
    }
}

impl TryFrom<Types> for (String, Types) {
    type Error = ConversionError;

    fn try_from(t: Types) -> (r: Result<(String, Types), ConversionError>) {
        match t {
            Types::KeyValue(k, v) => Ok((k, *v)),
            other => Err(ConversionError { expected: Kind::KeyValue, found: other.kind() }),
        }
    }
}

impl vstd::std_specs::convert::TryFromSpecImpl<Types> for (String, Types) {
    open spec fn obeys_try_from_spec() -> bool {
        true
    }

    open spec fn try_from_spec(t: Types) -> Result<(String, Types), ConversionError> {
        match t {
            Types::KeyValue(k, v) => Ok((k, *v)),
            other => Err(ConversionError { expected: Kind::KeyValue, found: kind_of(other@) }),
        }
    }
}

/// The views of key/value pairs.
pub open spec fn pairs_view(s: Seq<(String, Types)>) -> Seq<(Seq<char>, Value)> {
    s.map_values(|e: (String, Types)| (e.0@, e.1@))
}

/// The value that the last pair with key `k` gives it, if any pair does.
pub open spec fn last_value(s: Seq<(Seq<char>, Value)>, k: Seq<char>) -> Option<Value>
    decreases s.len(),
{
    if s.len() == 0 {
        None
    } else if s.last().0 == k {
        Some(s.last().1)
    } else {
        last_value(s.drop_last(), k)
    }
}

/// In pairs with keys in ascending order, the last pair of a key is its only one.
pub proof fn lemma_last_value_sorted(s: Seq<(Seq<char>, Value)>, k: Seq<char>)
    requires
        sorted(s),
    ensures
        last_value(s, k) == lookup(s, k),
    decreases s.len(),
{
    if s.len() > 0 {
        let n = s.len() - 1;
        let t = s.drop_last();
        if s.last().0 == k {
            lemma_lookup_at(s, n);
        } else {
            lemma_last_value_sorted(t, k);
            if has_key(t, k) {
                let j = key_index(t, k);
                lemma_lookup_at(t, j);
                lemma_lookup_at(s, j);
            } else {
                assert forall|i: int| 0 <= i < s.len() implies (#[trigger] s[i]).0 != k by {
                    if i < n {
                        assert(s[i] == t[i]);
                    }
                }
            }
        }
    }
}

/// Two sequences with keys in ascending order that hold the same value under
/// every key are equal.
pub proof fn lemma_sorted_lookup_eq(a: Seq<(Seq<char>, Value)>, b: Seq<(Seq<char>, Value)>)
    requires
        sorted(a),
        sorted(b),
        forall|k: Seq<char>| #[trigger] lookup(a, k) == lookup(b, k),
    ensures
        a == b,
    decreases a.len() + b.len(),
{
    if a.len() == 0 && b.len() > 0 {
        lemma_lookup_at(b, 0);
        assert(lookup(a, b[0].0) == lookup(b, b[0].0));
    } else if b.len() == 0 && a.len() > 0 {
        lemma_lookup_at(a, 0);
        assert(lookup(a, a[0].0) == lookup(b, a[0].0));
    } else if a.len() > 0 && b.len() > 0 {
        let na = a.len() - 1;
        let nb = b.len() - 1;
        let ka = a[na].0;
        let kb = b[nb].0;
        lemma_lookup_at(a, na);
        lemma_lookup_at(b, nb);
        assert(lookup(b, ka) == lookup(a, ka));
        assert(lookup(a, kb) == lookup(b, kb));
        let j = key_index(b, ka);
        let i = key_index(a, kb);
        lemma_lookup_at(b, j);
        lemma_lookup_at(a, i);
        lemma_key_lt_irreflexive(ka);
        lemma_key_lt_total(ka, kb);
        if j < nb {
            assert(key_lt(ka, kb));
            if i < na {
                assert(key_lt(kb, ka));
            }
        }
        assert(j == nb);
        assert(a.last() == b.last());
        let ta = a.drop_last();
        let tb = b.drop_last();
        assert forall|k: Seq<char>| #[trigger] lookup(ta, k) == lookup(tb, k) by {
            lemma_drop_last_lookup(a, k);
            lemma_drop_last_lookup(b, k);
        }
        lemma_sorted_lookup_eq(ta, tb);
        assert(a =~= ta.push(a.last()));
        assert(b =~= tb.push(b.last()));
    }
}

/// Without its last entry, a sorted sequence holds what it held under every
/// other key, and nothing under the last key.
proof fn lemma_drop_last_lookup(s: Seq<(Seq<char>, Value)>, k: Seq<char>)
    requires
        sorted(s),
        s.len() > 0,
    ensures
        lookup(s.drop_last(), k) == if k == s.last().0 {
            None
        } else {
            lookup(s, k)
        },
{
    let n = s.len() - 1;
    let t = s.drop_last();
    if has_key(t, k) {
        let j = key_index(t, k);
        lemma_lookup_at(t, j);
        lemma_lookup_at(s, j);
        if k == s.last().0 {
            assert(key_lt(s[j].0, s[n].0));
            lemma_key_lt_irreflexive(k);
        }
    } else if k != s.last().0 {
        assert forall|i: int| 0 <= i < s.len() implies (#[trigger] s[i]).0 != k by {
            if i < n {
                assert(s[i] == t[i]);
            }
        }
    }
}

/// A map built from pairs whose keys ascend holds exactly those pairs, in
/// their order: converting it back gives the keys and values put in.
pub proof fn lemma_map_round_trip(entries: Seq<(String, Types)>, r: Types)
    requires
        sorted(pairs_view(entries)),
        match r@ {
            Value::HashMap(m) => sorted(m) && forall|k: Seq<char>|
                #[trigger] lookup(m, k) == last_value(pairs_view(entries), k),
            Value::BTreeMap(m) => sorted(m) && forall|k: Seq<char>|
                #[trigger] lookup(m, k) == last_value(pairs_view(entries), k),
            _ => false,
        },
    ensures
        pairs_view(map_items(r)) == pairs_view(entries),
{
    let p = pairs_view(entries);
    match r {
        Types::HashMap(d) => lemma_dict_holds(d, p),
        Types::BTreeMap(d) => lemma_dict_holds(d, p),
        _ => {},
    }
}

proof fn lemma_dict_holds(d: Dict, p: Seq<(Seq<char>, Value)>)
    requires
        sorted(p),
        sorted(d@),
        forall|k: Seq<char>| #[trigger] lookup(d@, k) == last_value(p, k),
    ensures
        pairs_view(d.items()) == p,
{
    assert forall|k: Seq<char>| #[trigger] lookup(d@, k) == lookup(p, k) by {
        lemma_last_value_sorted(p, k);
    }
    lemma_sorted_lookup_eq(d@, p);
    lemma_items(d);
    assert(pairs_view(d.items()) =~= d@);
}

/// The stored entries of a map value; empty for any other value.
pub open spec fn map_items(t: Types) -> Seq<(String, Types)> {
    match t {
        Types::HashMap(d) => d.items(),
        Types::BTreeMap(d) => d.items(),
        _ => Seq::empty(),
    }
}

impl Types {
    /// A `Vector` of the elements of `v`, each converted into a value.
    pub fn from_vec<T>(v: Vec<T>) -> (r: Types) where Types: From<T>
        requires
            <Types as FromSpec<T>>::obeys_from_spec(),
        ensures
            match r {
                Types::Vector(w) => w@.len() == v@.len() && forall|i: int|
                    0 <= i < v@.len() ==> #[trigger] w@[i] == <Types as FromSpec<T>>::from_spec(v@[i]),
                _ => false,
            },
    {
        let ghost orig = v@;
        let mut rest = v;
        let mut backwards: Vec<T> = Vec::new();
        while rest.len() > 0
            invariant
                rest@.len() + backwards@.len() == orig.len(),
                forall|i: int| 0 <= i < rest@.len() ==> rest@[i] == orig[i],
                forall|i: int|
                    0 <= i < backwards@.len() ==> #[trigger] backwards@[i] == orig[orig.len() - 1 - i],
            decreases rest@.len(),
        {
            let e = rest.pop().unwrap();
            backwards.push(e);
        }
        let mut out: Vec<Types> = Vec::new();
        while backwards.len() > 0
            invariant
                <Types as FromSpec<T>>::obeys_from_spec(),
                out@.len() + backwards@.len() == orig.len(),
                forall|i: int|
                    0 <= i < backwards@.len() ==> #[trigger] backwards@[i] == orig[orig.len() - 1 - i],
                forall|i: int|
                    0 <= i < out@.len() ==> #[trigger] out@[i] == <Types as FromSpec<T>>::from_spec(orig[i]),
            decreases backwards@.len(),
        {
            let e = backwards.pop().unwrap();
            out.push(Types::from(e));
        }
        Types::Vector(out)
    }

    /// A `KeyValue` of the pair's key and its value converted.
    pub fn from_pair<T>(kv: (String, T)) -> (r: Types) where Types: From<T>
        requires
            <Types as FromSpec<T>>::obeys_from_spec(),
        ensures
            r == Types::KeyValue(kv.0, Box::new(<Types as FromSpec<T>>::from_spec(kv.1))),
    {
        let (k, v) = kv;
        Types::KeyValue(k, Box::new(Types::from(v)))
    }

    /// `Nil` for an absent value, else the value converted.
    pub fn from_option<T>(o: Option<T>) -> (r: Types) where Types: From<T>
        requires
            <Types as FromSpec<T>>::obeys_from_spec(),
        ensures
            r == match o {
                Some(v) => <Types as FromSpec<T>>::from_spec(v),
                None => Types::Nil,
            },
    {
        match o {
            Some(v) => Types::from(v),
            None => Types::Nil,
        }
    }

    /// The key of a `KeyValue` and its value converted to `T`; a mismatch
    /// where this is not a `KeyValue`, or the value's own error.
    pub fn try_into_pair<T: TryFrom<Types, Error = ConversionError>>(self) -> (r: Result<
        (String, T),
        ConversionError,
    >)
        requires
            T::obeys_try_from_spec(),
        ensures
            match self {
                Types::KeyValue(k, v) => match T::try_from_spec(*v) {
                    Ok(x) => r == Ok::<(String, T), ConversionError>((k, x)),
                    Err(e) => r == Err::<(String, T), ConversionError>(e),
                },
                _ => r == Err::<(String, T), ConversionError>(
                    ConversionError { expected: Kind::KeyValue, found: kind_of(self@) },
                ),
            },
    {
        match self {
            Types::KeyValue(k, v) => match T::try_from(*v) {
                Ok(x) => Ok((k, x)),
                Err(e) => Err(e),
            },
            other => Err(ConversionError { expected: Kind::KeyValue, found: other.kind() }),
        }
    }

    /// A `HashMap` or `BTreeMap` value (as `kind` says) holding the given
    /// pairs; where a key comes more than once, its last pair wins.
    pub fn from_map(entries: Vec<(String, Types)>, kind: Kind) -> (r: Types)
        requires
            kind == Kind::HashMap || kind == Kind::BTreeMap,
        ensures
            kind_of(r@) == kind,
            match r@ {
                Value::HashMap(m) => sorted(m) && forall|k: Seq<char>|
                    #[trigger] lookup(m, k) == last_value(pairs_view(entries@), k),
                Value::BTreeMap(m) => sorted(m) && forall|k: Seq<char>|
                    #[trigger] lookup(m, k) == last_value(pairs_view(entries@), k),
                _ => false,
            },
    {
        let mut d = Dict::new();
        let mut i: usize = 0;
        while i < entries.len()
            invariant
                i <= entries@.len(),
                sorted(d@),
                forall|k: Seq<char>|
                    #[trigger] lookup(d@, k) == last_value(pairs_view(entries@.subrange(0, i as int)), k),
            decreases entries@.len() - i,
        {
            let ghost before = d@;
            let key = entries[i].0.clone();
            let value = entries[i].1.clone();
            let ghost kv = (key@, value@);
            d.insert(key, value);
            proof {
                let pre = pairs_view(entries@.subrange(0, i as int));
                let post = pairs_view(entries@.subrange(0, i + 1));
                assert(post.drop_last() =~= pre);
                assert(post.last() == kv);
                assert forall|k: Seq<char>| #[trigger] lookup(d@, k) == last_value(post, k) by {
                    lemma_upserted_lookup(before, kv.0, kv.1, d@, k);
                }
            }
            i = i + 1;
        }
        proof {
            assert(entries@.subrange(0, entries@.len() as int) =~= entries@);
        }
        if kind == Kind::HashMap {
            Types::HashMap(d)
        } else {
            Types::BTreeMap(d)
        }
    }

    /// The entries of a `HashMap` or `BTreeMap` value (as `expected` says),
    /// each value converted to `T`, in ascending order of keys. Fails as a
    /// whole, with the error of the first value that does not convert, or
    /// with a mismatch where this is not a map of the expected kind.
    pub fn try_into_map<T: TryFrom<Types, Error = ConversionError>>(self, expected: Kind) -> (r: Result<
        Vec<(String, T)>,
        ConversionError,
    >)
        requires
            T::obeys_try_from_spec(),
            expected == Kind::HashMap || expected == Kind::BTreeMap,
        ensures
            kind_of(self@) != expected ==> r == Err::<Vec<(String, T)>, ConversionError>(
                ConversionError { expected, found: kind_of(self@) },
            ),
            kind_of(self@) == expected ==> match r {
                Ok(out) => {
                    &&& out@.len() == map_items(self).len()
                    &&& forall|i: int|
                        0 <= i < out@.len() ==> (#[trigger] out@[i]).0 == map_items(self)[i].0
                            && T::try_from_spec(map_items(self)[i].1) == Ok::<T, ConversionError>(out@[i].1)
                },
                Err(e) => exists|i: int|
                    0 <= i < map_items(self).len() && T::try_from_spec(#[trigger] map_items(self)[i].1)
                        == Err::<T, ConversionError>(e) && forall|j: int|
                        0 <= j < i ==> T::try_from_spec(#[trigger] map_items(self)[j].1) is Ok,
            },
    {
        let found = self.kind();
        if found != expected {
            return Err(ConversionError { expected, found });
        }
        let ghost input = self;
        let d = match self {
            Types::HashMap(d) => d,
            Types::BTreeMap(d) => d,
            _ => {
                return Err(ConversionError { expected, found });
            },
        };
        let ghost orig = map_items(input);
        let mut rest = d.into_entries();
        let mut backwards: Vec<(String, Types)> = Vec::new();
        while rest.len() > 0
            invariant
                rest@.len() + backwards@.len() == orig.len(),
                forall|i: int| 0 <= i < rest@.len() ==> rest@[i] == orig[i],
                forall|i: int|
                    0 <= i < backwards@.len() ==> #[trigger] backwards@[i] == orig[orig.len() - 1 - i],
            decreases rest@.len(),
        {
            let e = rest.pop().unwrap();
            backwards.push(e);
        }
        let mut out: Vec<(String, T)> = Vec::new();
        while backwards.len() > 0
            invariant
                T::obeys_try_from_spec(),
                self == input,
                orig == map_items(input),
                kind_of(input@) == expected,
                out@.len() + backwards@.len() == orig.len(),
                forall|i: int|
                    0 <= i < backwards@.len() ==> #[trigger] backwards@[i] == orig[orig.len() - 1 - i],
                forall|i: int|
                    0 <= i < out@.len() ==> (#[trigger] out@[i]).0 == orig[i].0 && T::try_from_spec(orig[i].1)
                        == Ok::<T, ConversionError>(out@[i].1),
            decreases backwards@.len(),
        {
            let (k, v) = backwards.pop().unwrap();
            assert((k, v) == orig[out@.len() as int]);
            match T::try_from(v) {
                Ok(x) => out.push((k, x)),
                Err(err) => {
                    proof {
                        let i = out@.len() as int;
                        assert(T::try_from_spec(orig[i].1) == Err::<T, ConversionError>(err));
                        assert forall|j: int| 0 <= j < i implies T::try_from_spec(#[trigger] orig[j].1) is Ok by {
                            assert(T::try_from_spec(orig[j].1) == Ok::<T, ConversionError>(out@[j].1));
                        }
                    }
                    return Err(err);
                },
            }
        }
        Ok(out)
    }

    /// The elements of a `Vector`, each converted to `T`. Fails as a whole,
    /// with the error of the first element that does not convert, or with a
    /// mismatch where this is not a `Vector`.
    pub fn try_into_vec<T: TryFrom<Types, Error = ConversionError>>(self) -> (r: Result<
        Vec<T>,
        ConversionError,
    >)
        requires
            T::obeys_try_from_spec(),
        ensures
            match self {
                Types::Vector(v) => match r {
                    Ok(out) => {
                        &&& out@.len() == v@.len()
                        &&& forall|i: int|
                            0 <= i < v@.len() ==> T::try_from_spec(#[trigger] v@[i]) == Ok::<
                                T,
                                ConversionError,
                            >(out@[i])
                    },
                    Err(e) => exists|i: int|
                        0 <= i < v@.len() && T::try_from_spec(#[trigger] v@[i]) == Err::<T, ConversionError>(e)
                            && forall|j: int| 0 <= j < i ==> T::try_from_spec(#[trigger] v@[j]) is Ok,
                },
                _ => r == Err::<Vec<T>, ConversionError>(
                    ConversionError { expected: Kind::Vector, found: kind_of(self@) },
                ),
            },
    {
        let ghost input = self;
        match self {
            Types::Vector(v) => {
                let ghost orig = v@;
                let mut rest = v;
                let mut backwards: Vec<Types> = Vec::new();
                while rest.len() > 0
                    invariant
                        input == Types::Vector(v) && v@ == orig && self == input,
                        rest@.len() + backwards@.len() == orig.len(),
                        forall|i: int| 0 <= i < rest@.len() ==> rest@[i] == orig[i],
                        forall|i: int|
                            0 <= i < backwards@.len() ==> #[trigger] backwards@[i] == orig[orig.len() - 1 - i],
                    decreases rest@.len(),
                {
                    let e = rest.pop().unwrap();
                    backwards.push(e);
                }
                let mut out: Vec<T> = Vec::new();
                while backwards.len() > 0
                    invariant
                        T::obeys_try_from_spec(),
                        input == Types::Vector(v) && v@ == orig && self == input,
                        out@.len() + backwards@.len() == orig.len(),
                        forall|i: int|
                            0 <= i < backwards@.len() ==> #[trigger] backwards@[i] == orig[orig.len() - 1 - i],
                        forall|i: int|
                            0 <= i < out@.len() ==> T::try_from_spec(#[trigger] orig[i]) == Ok::<
                                T,
                                ConversionError,
                            >(out@[i]),
                    decreases backwards@.len(),
                {
                    let e = backwards.pop().unwrap();
                    assert(e == orig[out@.len() as int]);
                    match T::try_from(e) {
                        Ok(x) => out.push(x),
                        Err(err) => {
                            proof {
                                let i = out@.len() as int;
                                assert(T::try_from_spec(v@[i]) == Err::<T, ConversionError>(err));
                                assert forall|j: int| 0 <= j < i implies T::try_from_spec(#[trigger] orig[j]) is Ok by {
                                    assert(T::try_from_spec(orig[j]) == Ok::<T, ConversionError>(out@[j]));
                                }
                            }
                            return Err(err);
                        },
                    }
                }
                Ok(out)
            },
            other => Err(ConversionError { expected: Kind::Vector, found: other.kind() }),
        }
    }
}

/// Each conversion into a value is undone by the conversion back.
pub proof fn lemma_round_trip(c: char, n: isize, u: usize, s: String, b: bool, l: Vec<Types>, kv: (String, Types))
    ensures
        <char as TryFromSpec<Types>>::try_from_spec(<Types as FromSpec<char>>::from_spec(c)) == Ok::<char, ConversionError>(c),
        <isize as TryFromSpec<Types>>::try_from_spec(<Types as FromSpec<isize>>::from_spec(n)) == Ok::<isize, ConversionError>(n),
        <usize as TryFromSpec<Types>>::try_from_spec(<Types as FromSpec<usize>>::from_spec(u)) == Ok::<usize, ConversionError>(u),
        <String as TryFromSpec<Types>>::try_from_spec(<Types as FromSpec<String>>::from_spec(s)) == Ok::<String, ConversionError>(s),
        <bool as TryFromSpec<Types>>::try_from_spec(<Types as FromSpec<bool>>::from_spec(b)) == Ok::<bool, ConversionError>(b),
        <Vec<Types> as TryFromSpec<Types>>::try_from_spec(<Types as FromSpec<Vec<Types>>>::from_spec(l)) == Ok::<Vec<Types>, ConversionError>(l),
        <(String, Types) as TryFromSpec<Types>>::try_from_spec(<Types as FromSpec<(String, Types)>>::from_spec(kv)) == Ok::<(String, Types), ConversionError>(kv),
{
}

/// An absent value becomes `Nil`; a present one is itself.
pub proof fn lemma_option_into_value(v: Types)
    ensures
        <Types as FromSpec<Option<Types>>>::from_spec(None) == Types::Nil,
        <Types as FromSpec<Option<Types>>>::from_spec(Some(v)) == v,
{
}

} // verus!
