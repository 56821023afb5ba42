use observable_btree::logic::{add, apply};
use observable_btree::model::{Dict, Operation, Types};
use observable_btree::{Action, BTree, Reply};

fn float_sum(a: u64, b: u64) -> u64 {
    (f64::from_bits(a) + f64::from_bits(b)).to_bits()
}

#[test]
fn test_insert_contains() {
    let mut btree = BTree::new();

    let ins = btree.insert("hello".to_string(), Types::from(5));
    assert!(ins.is_none());

    let cont = btree.contains("hello".to_string());
    assert!(cont);
}

#[test]
fn test_insert_get() {
    let mut btree = BTree::new();

    let ins = btree.insert("hello".to_string(), Types::from(5));
    assert!(ins.is_none());

    let get = btree.get("hello".to_string());
    let get_int = get.unwrap();
    assert_eq!(get_int, Types::Integer(5));
}

#[test]
fn test_insert_len() {
    let mut btree = BTree::new();

    let ins = btree.insert("hello".to_string(), Types::from(5));
    assert!(ins.is_none());

    let len = btree.len();
    assert_eq!(len, 1);
}

#[test]
fn test_keys_values() {
    let mut btree = BTree::new();

    let ins = btree.insert("hello".to_string(), Types::from(546));
    assert!(ins.is_none());

    let ins = btree.insert("wow".to_string(), Types::from(5));
    assert!(ins.is_none());

    let ins = btree.insert("what?".to_string(), Types::from(7));
    assert!(ins.is_none());

    let ins = btree.insert("wow".to_string(), Types::from(15));
    assert_eq!(ins, Some(Types::Integer(5)));

    let cont = btree.keys();
    assert_eq!(
        cont,
        vec!["hello".to_string(), "what?".to_string(), "wow".to_string()]
    );

    let values = btree.values();
    assert_eq!(
        values,
        vec![Types::Integer(546), Types::Integer(7), Types::Integer(15)]
    );
}

#[test]
fn test_remove() {
    let mut btree = BTree::new();

    let ins = btree.insert("hello".to_string(), Types::from(5));
    assert!(ins.is_none());

    let remove = btree.remove("hello".to_string());
    let remove_int = remove.unwrap();
    assert_eq!(remove_int, Types::Integer(5));
}

#[test]
fn test_remove_entry() {
    let mut btree = BTree::new();

    let ins = btree.insert("hello".to_string(), Types::from(5));
    assert!(ins.is_none());

    let remove = btree.remove_entry("hello".to_string());
    let remove_kv = remove.unwrap();
    assert_eq!(
        remove_kv,
        Types::KeyValue("hello".to_string(), Box::new(Types::Integer(5)))
    );
}

#[test]
fn test_insert_getmut() {
    let mut btree = BTree::new();

    let ins = btree.insert("hello".to_string(), Types::from(5));
    assert!(ins.is_none());

    let get_mut = btree.get_mut("hello".to_string(), Types::from(5), Operation::Add, float_sum);
    assert!(get_mut);

    let get = btree.get("hello".to_string());
    let get_int = get.unwrap();
    assert_eq!(get_int, Types::Integer(10));

    let get_mut = btree.get_mut("hello".to_string(), Types::from(4), Operation::Replace, float_sum);
    assert!(get_mut);

    let get = btree.get("hello".to_string());
    let get_int = get.unwrap();
    assert_eq!(get_int, Types::Integer(4));
}

#[test]
fn end_to_end_scenario() {
    let mut btree = BTree::new();
    assert_eq!(btree.insert("hello".to_string(), Types::from(546)), None);
    assert_eq!(btree.insert("wow".to_string(), Types::from(5)), None);
    assert_eq!(btree.insert("what?".to_string(), Types::from(7)), None);
    assert_eq!(
        btree.keys(),
        vec!["hello".to_string(), "what?".to_string(), "wow".to_string()]
    );
    assert_eq!(
        btree.values(),
        vec![Types::Integer(546), Types::Integer(7), Types::Integer(5)]
    );
    assert_eq!(btree.remove("hello".to_string()), Some(Types::Integer(546)));
    assert_eq!(
        btree.remove_entry("wow".to_string()),
        Some(Types::KeyValue("wow".to_string(), Box::new(Types::Integer(5))))
    );
    assert_eq!(btree.keys(), vec!["what?".to_string()]);
}

#[test]
fn first_insert_returns_absent() {
    let mut btree = BTree::new();
    assert_eq!(btree.insert("k".to_string(), Types::Nil), None);
    assert_eq!(btree.insert("k".to_string(), Types::Boolean(true)), Some(Types::Nil));
    assert_eq!(btree.insert("j".to_string(), Types::Nil), None);
    assert_eq!(btree.len(), 2);
}

#[test]
fn keys_sorted_and_values_aligned() {
    let mut btree = BTree::new();
    for (k, v) in [("pear", 1), ("apple", 2), ("Zebra", 3), ("", 4), ("app", 5), ("é", 6)] {
        assert_eq!(btree.insert(k.to_string(), Types::from(v)), None);
    }
    let keys = btree.keys();
    let values = btree.values();
    let mut sorted = keys.clone();
    sorted.sort();
    assert_eq!(keys, sorted);
    assert_eq!(keys, vec!["", "Zebra", "app", "apple", "pear", "é"]);
    for (k, v) in keys.iter().zip(values.iter()) {
        assert_eq!(btree.get(k.clone()).as_ref(), Some(v));
    }
}

#[test]
fn mutate_missing_key_fails_and_creates_nothing() {
    let mut btree = BTree::new();
    assert!(!btree.get_mut("missing".to_string(), Types::from(5), Operation::Add, float_sum));
    assert!(!btree.contains("missing".to_string()));
    assert_eq!(btree.len(), 0);
    assert!(!btree.get_mut("missing".to_string(), Types::from(5), Operation::Replace, float_sum));
    assert_eq!(btree.len(), 0);
}

#[test]
fn add_five_to_five_gives_ten() {
    let mut btree = BTree::new();
    btree.insert("k".to_string(), Types::from(5));
    assert!(btree.get_mut("k".to_string(), Types::from(5), Operation::Add, float_sum));
    assert_eq!(btree.get("k".to_string()), Some(Types::Integer(10)));
}

#[test]
fn replace_succeeds_across_variants() {
    let mut btree = BTree::new();
    btree.insert("k".to_string(), Types::from(5));
    let replacements = vec![
        Types::String("text".to_string()),
        Types::Nil,
        Types::Vector(vec![Types::Char('x')]),
        Types::HashMap(Dict::new()),
        Types::Float(2.5f64.to_bits()),
        Types::UInteger(3),
    ];
    for x in replacements {
        assert!(btree.get_mut("k".to_string(), x.clone(), Operation::Replace, float_sum));
        assert_eq!(btree.get("k".to_string()), Some(x));
    }
}

#[test]
fn add_sums_and_concatenates() {
    let mut x = Types::UInteger(7);
    assert_eq!(add(&mut x, Types::UInteger(8), float_sum), Some(Types::Boolean(true)));
    assert_eq!(x, Types::UInteger(15));

    let mut x = Types::Integer(-3);
    assert_eq!(add(&mut x, Types::Integer(1), float_sum), Some(Types::Boolean(true)));
    assert_eq!(x, Types::Integer(-2));

    let mut x = Types::String("ab".to_string());
    assert_eq!(add(&mut x, Types::String("cd".to_string()), float_sum), Some(Types::Boolean(true)));
    assert_eq!(x, Types::String("abcd".to_string()));

    let mut x = Types::Float(1.5f64.to_bits());
    assert_eq!(add(&mut x, Types::Float(2.25f64.to_bits()), float_sum), Some(Types::Boolean(true)));
    assert_eq!(x, Types::Float(3.75f64.to_bits()));
}

#[test]
fn add_to_list_splices_or_appends() {
    let mut x = Types::Vector(vec![Types::Integer(1)]);
    assert!(apply(&mut x, Types::Vector(vec![Types::Integer(2), Types::Integer(3)]), Operation::Add, float_sum));
    assert_eq!(x, Types::Vector(vec![Types::Integer(1), Types::Integer(2), Types::Integer(3)]));

    assert!(apply(&mut x, Types::Char('z'), Operation::Add, float_sum));
    assert_eq!(
        x,
        Types::Vector(vec![Types::Integer(1), Types::Integer(2), Types::Integer(3), Types::Char('z')])
    );
}

#[test]
fn add_key_value_upserts_into_maps() {
    let mut x = Types::BTreeMap(Dict::new());
    let kv = |k: &str, v: isize| Types::KeyValue(k.to_string(), Box::new(Types::Integer(v)));
    assert!(apply(&mut x, kv("b", 1), Operation::Add, float_sum));
    assert!(apply(&mut x, kv("a", 2), Operation::Add, float_sum));
    assert!(apply(&mut x, kv("b", 3), Operation::Add, float_sum));
    match &x {
        Types::BTreeMap(d) => {
            assert_eq!(d.len(), 2);
            assert_eq!(d.keys(), vec!["a".to_string(), "b".to_string()]);
            assert_eq!(d.get("b"), Some(Types::Integer(3)));
            assert_eq!(d.get("a"), Some(Types::Integer(2)));
        }
        _ => panic!("the map variant changed"),
    }

    let mut h = Types::HashMap(Dict::new());
    assert!(apply(&mut h, kv("b", 1), Operation::Add, float_sum));
    assert!(apply(&mut h, kv("a", 2), Operation::Add, float_sum));
    let mut other = Types::HashMap(Dict::new());
    assert!(apply(&mut other, kv("a", 2), Operation::Add, float_sum));
    assert!(apply(&mut other, kv("b", 1), Operation::Add, float_sum));
    assert_eq!(h, other);
}

#[test]
fn unsupported_add_leaves_value_unchanged() {
    let cases = vec![
        (Types::Integer(1), Types::UInteger(1)),
        (Types::Char('a'), Types::Char('b')),
        (Types::Boolean(true), Types::Boolean(false)),
        (Types::Nil, Types::Nil),
        (Types::String("a".to_string()), Types::Char('b')),
        (Types::HashMap(Dict::new()), Types::Integer(1)),
        (Types::Integer(isize::MAX), Types::Integer(1)),
        (Types::UInteger(usize::MAX), Types::UInteger(1)),
    ];
    for (before, operand) in cases {
        let mut x = before.clone();
        assert_eq!(add(&mut x, operand.clone(), float_sum), None);
        assert_eq!(x, before);
        assert!(!apply(&mut x, operand, Operation::Add, float_sum));
        assert_eq!(x, before);
    }
}

#[test]
fn handle_answers_each_action() {
    let mut btree = BTree::new();
    match btree.handle(Action::Insert("a".to_string(), Types::from(1)), float_sum) {
        Reply::Value(None) => {}
        _ => panic!("insert"),
    }
    match btree.handle(Action::Contains("a".to_string()), float_sum) {
        Reply::Flag(true) => {}
        _ => panic!("contains"),
    }
    match btree.handle(Action::MutateGet("a".to_string(), Types::from(2), Operation::Add), float_sum) {
        Reply::Flag(true) => {}
        _ => panic!("mutate"),
    }
    match btree.handle(Action::Get("a".to_string()), float_sum) {
        Reply::Value(Some(Types::Integer(3))) => {}
        _ => panic!("get"),
    }
    match btree.handle(Action::Len, float_sum) {
        Reply::Count(1) => {}
        _ => panic!("len"),
    }
    match btree.handle(Action::Keys, float_sum) {
        Reply::Keys(ks) => assert_eq!(ks, vec!["a".to_string()]),
        _ => panic!("keys"),
    }
    match btree.handle(Action::Values, float_sum) {
        Reply::Values(vs) => assert_eq!(vs, vec![Types::Integer(3)]),
        _ => panic!("values"),
    }
    match btree.handle(Action::RemoveEntry("a".to_string()), float_sum) {
        Reply::Value(Some(kv)) => {
            assert_eq!(kv, Types::KeyValue("a".to_string(), Box::new(Types::Integer(3))))
        }
        _ => panic!("remove_entry"),
    }
    match btree.handle(Action::Remove("a".to_string()), float_sum) {
        Reply::Value(None) => {}
        _ => panic!("remove"),
    }
}

#[test]
fn empty_store_edges() {
    let mut btree = BTree::new();
    assert_eq!(btree.len(), 0);
    assert!(btree.keys().is_empty());
    assert!(btree.values().is_empty());
    assert_eq!(btree.get("".to_string()), None);
    assert_eq!(btree.remove("x".to_string()), None);
    assert_eq!(btree.remove_entry("x".to_string()), None);
    assert_eq!(btree.insert("".to_string(), Types::Nil), None);
    assert!(btree.contains("".to_string()));
}
