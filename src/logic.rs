use vstd::prelude::*;
use vstd::string::StringExecFns;
use crate::model::{lemma_upserted_unique, upserted, Operation, Types, Value};

verus! {

/// Whether `Add` is defined on a stored value `x` and an operand `v`, the
/// sum of two integers included only where it fits the integer type.
pub open spec fn addable(x: Value, v: Value) -> bool {
    match (x, v) {
        (Value::Integer(a), Value::Integer(b)) => isize::MIN <= a + b <= isize::MAX,
        (Value::UInteger(a), Value::UInteger(b)) => a + b <= usize::MAX,
        (Value::Float(_), Value::Float(_)) => true,
        (Value::Str(_), Value::Str(_)) => true,
        (Value::List(_), _) => true,
        (Value::HashMap(_), Value::KeyValue(_, _)) => true,
        (Value::BTreeMap(_), Value::KeyValue(_, _)) => true,
        _ => false,
    }
}

/// `after` is what `Add` makes of `x` and `v`; two floats are summed by
/// `float_sum`, on their bit patterns.
pub open spec fn added<F: Fn(u64, u64) -> u64>(float_sum: F, x: Value, v: Value, after: Value) -> bool {
    match (x, v) {
        (Value::Integer(a), Value::Integer(b)) => after == Value::Integer((a + b) as isize),
        (Value::UInteger(a), Value::UInteger(b)) => after == Value::UInteger((a + b) as usize),
        (Value::Float(a), Value::Float(b)) => exists|z: u64|
            float_sum.ensures((a, b), z) && after == Value::Float(z),
        (Value::Str(a), Value::Str(b)) => after == Value::Str(a + b),
        (Value::List(a), Value::List(b)) => after == Value::List(a + b),
        (Value::List(a), w) => after == Value::List(a.push(w)),
        (Value::HashMap(m), Value::KeyValue(k, w)) => match after {
            Value::HashMap(m2) => upserted(m, k, *w, m2),
            _ => false,
        },
        (Value::BTreeMap(m), Value::KeyValue(k, w)) => match after {
            Value::BTreeMap(m2) => upserted(m, k, *w, m2),
            _ => false,
        },
        _ => after == x,
    }
}

/// Adds `v` to `x` in place: integers and floats sum, strings concatenate,
/// a list takes the elements of a list or else the operand as one element,
/// a map takes a key/value pair. Returns `Some(Boolean(true))` when `x` was
/// changed, `None` (with `x` unchanged) for any other pair or when an integer
/// sum would overflow. Two floats, held as bit patterns, are summed by
/// `float_sum`.
pub fn add<F: Fn(u64, u64) -> u64>(x: &mut Types, v: Types, float_sum: F) -> (r: Option<Types>)
    requires
        forall|a: u64, b: u64| float_sum.requires((a, b)),
    ensures
        r is Some <==> addable(old(x)@, v@),
        r is Some ==> r == Some(Types::Boolean(true)),
        r is Some ==> added(float_sum, old(x)@, v@, final(x)@),
        r is None ==> final(x)@ == old(x)@,
{
    let mut cur = Types::Nil;
    std::mem::swap(x, &mut cur);
    let ghost before = cur@;
    let ghost operand = v@;
    let (next, done): (Types, bool) = match (cur, v) {
        (Types::Integer(a), Types::Integer(b)) => match a.checked_add(b) {
            Some(c) => (Types::Integer(c), true),
            None => (Types::Integer(a), false),
        },
        (Types::UInteger(a), Types::UInteger(b)) => match a.checked_add(b) {
            Some(c) => (Types::UInteger(c), true),
            None => (Types::UInteger(a), false),
        },
        (Types::Float(a), Types::Float(b)) => (Types::Float(float_sum(a, b)), true),
        (Types::String(a), Types::String(b)) => {
            (Types::String(a.concat(b.as_str())), true)
        },
        (Types::Vector(a), Types::Vector(b)) => {
            let mut l = a;
            let mut m = b;
            let ghost la = l@;
            let ghost lb = m@;
            l.append(&mut m);
            proof {
                crate::model::lemma_list_view(l);
                crate::model::lemma_list_view(a);
                crate::model::lemma_list_view(b);
                assert(crate::model::view_list(l@) =~= crate::model::view_list(la) + crate::model::view_list(lb));
            }
            (Types::Vector(l), true)
        },
        (Types::HashMap(d), Types::KeyValue(k, w)) => {
            let mut m = d;
            m.insert(k, *w);
            (Types::HashMap(m), true)
        },
        (Types::BTreeMap(d), Types::KeyValue(k, w)) => {
            let mut m = d;
            m.insert(k, *w);
            (Types::BTreeMap(m), true)
        },
        (Types::Vector(a), w) => {
            let mut l = a;
            let ghost la = l@;
            l.push(w);
            proof {
                crate::model::lemma_list_view(l);
                crate::model::lemma_list_view(a);
                assert(crate::model::view_list(l@) =~= crate::model::view_list(la).push(w@));
            }
            (Types::Vector(l), true)
        },
        (c, _) => (c, false),
    };
    *x = next;
    if done {
        Some(Types::Boolean(true))
    } else {
        None
    }
}

/// Combines `existing` with `operand` in place: `Replace` always puts
/// `operand` there and reports success; `Add` behaves as [`add`] and reports
/// whether it changed `existing`.
pub fn apply<F: Fn(u64, u64) -> u64>(
    existing: &mut Types,
    operand: Types,
    op: Operation,
    float_sum: F,
) -> (r: bool)
    requires
        forall|a: u64, b: u64| float_sum.requires((a, b)),
    ensures
        applied(float_sum, old(existing)@, operand@, op, r, final(existing)@),
{
    match op {
        Operation::Replace => {
            *existing = operand;
            true
        },
        Operation::Add => crate::logic::add(existing, operand, float_sum).is_some(),
    }
}

/// What `apply` does: `r` is its report and `after` the value left in place.
pub open spec fn applied<F: Fn(u64, u64) -> u64>(
    float_sum: F,
    x: Value,
    v: Value,
    op: Operation,
    r: bool,
    after: Value,
) -> bool {
    match op {
        Operation::Replace => r && after == v,
        Operation::Add => {
            &&& r == addable(x, v)
            &&& r ==> added(float_sum, x, v, after)
            &&& !r ==> after == x
        },
    }
}

/// Whether `float_sum` gives one result for each pair of arguments.
pub open spec fn deterministic<F: Fn(u64, u64) -> u64>(float_sum: F) -> bool {
    forall|a: u64, b: u64, y: u64, z: u64|
        float_sum.ensures((a, b), y) && float_sum.ensures((a, b), z) ==> y == z
}

/// Combining a value with an operand has one outcome, given a float
/// addition with one result per pair.
pub proof fn lemma_applied_unique<F: Fn(u64, u64) -> u64>(
    float_sum: F,
    x: Value,
    v: Value,
    op: Operation,
    r1: bool,
    after1: Value,
    r2: bool,
    after2: Value,
)
    requires
        deterministic(float_sum),
        applied(float_sum, x, v, op, r1, after1),
        applied(float_sum, x, v, op, r2, after2),
    ensures
        r1 == r2,
        after1 == after2,
{
    if op == Operation::Add && r1 {
        match (x, v) {
            (Value::HashMap(m), Value::KeyValue(k, w)) => {
                let m1 = after1->HashMap_0;
                let m2 = after2->HashMap_0;
                lemma_upserted_unique(m, k, *w, m1, m2);
            },
            (Value::BTreeMap(m), Value::KeyValue(k, w)) => {
                let m1 = after1->BTreeMap_0;
                let m2 = after2->BTreeMap_0;
                lemma_upserted_unique(m, k, *w, m1, m2);
            },
            _ => {},
        }
    }
}

} // verus!
