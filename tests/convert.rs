use observable_btree::convert::{ConversionError, Kind};
use observable_btree::model::Types;

#[test]
fn scalars_round_trip() {
    assert_eq!(char::try_from(Types::from('q')), Ok('q'));
    assert_eq!(isize::try_from(Types::from(-42isize)), Ok(-42));
    assert_eq!(usize::try_from(Types::from(42usize)), Ok(42));
    assert_eq!(String::try_from(Types::from("s".to_string())), Ok("s".to_string()));
    assert_eq!(bool::try_from(Types::from(true)), Ok(true));
    let l = vec![Types::Integer(1), Types::Nil];
    assert_eq!(Vec::<Types>::try_from(Types::from(l.clone())), Ok(l));
    let kv = ("k".to_string(), Types::Char('v'));
    assert_eq!(<(String, Types)>::try_from(Types::from(kv.clone())), Ok(kv));
}

#[test]
fn small_integers_become_integer() {
    assert_eq!(Types::from(5), Types::Integer(5));
    assert_eq!(Types::from(-7i32), Types::Integer(-7));
}

#[test]
fn option_maps_absence_to_nil() {
    assert_eq!(Types::from(None::<Types>), Types::Nil);
    assert_eq!(Types::from(Some(Types::Boolean(false))), Types::Boolean(false));
}

#[test]
fn mismatch_reports_both_variants() {
    assert_eq!(
        isize::try_from(Types::UInteger(3)),
        Err(ConversionError { expected: Kind::Integer, found: Kind::UInteger })
    );
    assert_eq!(
        String::try_from(Types::Nil),
        Err(ConversionError { expected: Kind::String, found: Kind::Nil })
    );
    assert_eq!(
        char::try_from(Types::Float(0)),
        Err(ConversionError { expected: Kind::Char, found: Kind::Float })
    );
    assert_eq!(
        bool::try_from(Types::Vector(vec![])),
        Err(ConversionError { expected: Kind::Boolean, found: Kind::Vector })
    );
    assert_eq!(
        usize::try_from(Types::Integer(1)),
        Err(ConversionError { expected: Kind::UInteger, found: Kind::Integer })
    );
    assert_eq!(
        Vec::<Types>::try_from(Types::Char('c')),
        Err(ConversionError { expected: Kind::Vector, found: Kind::Char })
    );
    assert_eq!(
        <(String, Types)>::try_from(Types::Boolean(true)),
        Err(ConversionError { expected: Kind::KeyValue, found: Kind::Boolean })
    );
}

#[test]
fn kind_names_the_variant() {
    assert_eq!(Types::Nil.kind(), Kind::Nil);
    assert_eq!(Types::KeyValue("a".to_string(), Box::new(Types::Nil)).kind(), Kind::KeyValue);
    assert_eq!(Types::Float(0).kind(), Kind::Float);
}

#[test]
fn vector_converts_element_by_element() {
    let v = Types::Vector(vec![Types::Integer(1), Types::Integer(-2)]);
    assert_eq!(v.try_into_vec::<isize>(), Ok(vec![1, -2]));
    let empty = Types::Vector(vec![]);
    assert_eq!(empty.try_into_vec::<char>(), Ok(vec![]));
}

#[test]
fn vector_conversion_fails_as_a_whole() {
    let v = Types::Vector(vec![Types::Integer(1), Types::Char('x'), Types::UInteger(3)]);
    assert_eq!(
        v.try_into_vec::<isize>(),
        Err(ConversionError { expected: Kind::Integer, found: Kind::Char })
    );
    assert_eq!(
        Types::Nil.try_into_vec::<isize>(),
        Err(ConversionError { expected: Kind::Vector, found: Kind::Nil })
    );
    let names = Types::Vector(vec![Types::from("a".to_string()), Types::from("b".to_string())]);
    assert_eq!(names.try_into_vec::<String>(), Ok(vec!["a".to_string(), "b".to_string()]));
}

fn pairs(items: &[(&str, Types)]) -> Vec<(String, Types)> {
    items.iter().map(|(k, v)| (k.to_string(), v.clone())).collect()
}

#[test]
fn map_from_pairs_keeps_last_value_in_key_order() {
    let m = Types::from_map(
        pairs(&[("b", Types::Integer(1)), ("a", Types::Integer(2)), ("b", Types::Integer(3))]),
        Kind::BTreeMap,
    );
    assert_eq!(m.kind(), Kind::BTreeMap);
    assert_eq!(
        m.try_into_map::<isize>(Kind::BTreeMap),
        Ok(vec![("a".to_string(), 2), ("b".to_string(), 3)])
    );
    let h = Types::from_map(pairs(&[("x", Types::Boolean(true))]), Kind::HashMap);
    assert_eq!(h.kind(), Kind::HashMap);
    assert_eq!(h.try_into_map::<bool>(Kind::HashMap), Ok(vec![("x".to_string(), true)]));
    let empty = Types::from_map(vec![], Kind::HashMap);
    assert_eq!(empty.try_into_map::<bool>(Kind::HashMap), Ok(vec![]));
}

#[test]
fn map_conversion_fails_as_a_whole() {
    let m = Types::from_map(
        pairs(&[("c", Types::Char('x')), ("a", Types::Integer(1)), ("b", Types::Nil)]),
        Kind::HashMap,
    );
    assert_eq!(
        m.try_into_map::<isize>(Kind::HashMap),
        Err(ConversionError { expected: Kind::Integer, found: Kind::Nil })
    );
    let b = Types::from_map(pairs(&[("a", Types::Integer(1))]), Kind::BTreeMap);
    assert_eq!(
        b.try_into_map::<isize>(Kind::HashMap),
        Err(ConversionError { expected: Kind::HashMap, found: Kind::BTreeMap })
    );
    assert_eq!(
        Types::Integer(1).try_into_map::<isize>(Kind::BTreeMap),
        Err(ConversionError { expected: Kind::BTreeMap, found: Kind::Integer })
    );
}

#[test]
fn str_and_i64_convert() {
    assert_eq!(Types::from("hi"), Types::String("hi".to_string()));
    assert_eq!(Types::from(-9_000_000_000i64), Types::Integer(-9_000_000_000));
}

#[test]
fn generic_containers_convert_elements() {
    assert_eq!(
        Types::from_vec(vec![1usize, 2]),
        Types::Vector(vec![Types::UInteger(1), Types::UInteger(2)])
    );
    assert_eq!(Types::from_vec(Vec::<char>::new()), Types::Vector(vec![]));
    assert_eq!(
        Types::from_pair(("k".to_string(), 'v')),
        Types::KeyValue("k".to_string(), Box::new(Types::Char('v')))
    );
    assert_eq!(Types::from_option(Some(true)), Types::Boolean(true));
    assert_eq!(Types::from_option(None::<bool>), Types::Nil);
}

#[test]
fn pair_converts_its_value() {
    let kv = Types::KeyValue("k".to_string(), Box::new(Types::UInteger(4)));
    assert_eq!(kv.clone().try_into_pair::<usize>(), Ok(("k".to_string(), 4)));
    assert_eq!(
        kv.try_into_pair::<bool>(),
        Err(ConversionError { expected: Kind::Boolean, found: Kind::UInteger })
    );
    assert_eq!(
        Types::Nil.try_into_pair::<bool>(),
        Err(ConversionError { expected: Kind::KeyValue, found: Kind::Nil })
    );
}
