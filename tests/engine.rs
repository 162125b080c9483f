use rustdeepdiff::compare::generate_diff;
use rustdeepdiff::value::{find_key, keys_distinct, values_equal};
use rustdeepdiff::{format_path, Number, PathComponent, Value, ValueKind};

fn num(n: i128) -> Value {
    Value::Number(Number::from_i128(n))
}

fn text(s: &str) -> Value {
    Value::Str(s.to_string())
}

fn map(entries: Vec<(&str, Value)>) -> Value {
    Value::Mapping(entries.into_iter().map(|(k, v)| (k.to_string(), v)).collect())
}

fn nested() -> Value {
    map(vec![
        ("a", num(1)),
        ("b", Value::Sequence(vec![num(1), text("x"), Value::Null])),
        ("c", map(vec![("d", Value::Bool(true))])),
        ("e", Value::UnorderedSet(vec![num(1), num(2)])),
    ])
}

#[test]
fn identity_gives_empty_diff() {
    let samples = vec![
        Value::Null,
        Value::Bool(false),
        num(7),
        text("hello"),
        Value::Sequence(vec![]),
        Value::UnorderedSet(vec![num(3), text("y")]),
        nested(),
    ];
    for x in samples.iter() {
        let d = generate_diff(x, x);
        assert!(d.is_empty());
    }
}

#[test]
fn mapping_against_sequence_is_one_type_change() {
    let old = map(vec![("a", num(1))]);
    let new = Value::Sequence(vec![num(1), num(2)]);
    let d = generate_diff(&old, &new);
    assert_eq!(d.type_changes.len(), 1);
    let t = &d.type_changes[0];
    assert_eq!(format_path(&t.path), "root");
    assert_eq!(t.old_type, ValueKind::Mapping);
    assert_eq!(t.new_type, ValueKind::Sequence);
    assert!(std::ptr::eq(t.old_value, &old));
    assert!(std::ptr::eq(t.new_value, &new));
    assert!(d.values_changed.is_empty());
    assert!(d.dictionary_item_added.is_empty());
    assert!(d.dictionary_item_removed.is_empty());
    assert!(d.iterable_item_added.is_empty());
    assert!(d.iterable_item_removed.is_empty());
}

#[test]
fn nested_type_change_stops_descent() {
    let old = map(vec![("k", map(vec![("z", num(1))]))]);
    let new = map(vec![("k", Value::Sequence(vec![num(1)]))]);
    let d = generate_diff(&old, &new);
    assert_eq!(d.type_changes.len(), 1);
    assert_eq!(format_path(&d.type_changes[0].path), "root['k']");
    assert!(d.values_changed.is_empty());
    assert!(d.dictionary_item_removed.is_empty());
    assert!(d.iterable_item_added.is_empty());
}

#[test]
fn mapping_keys_are_partitioned() {
    let old = map(vec![("a", num(1)), ("b", num(2))]);
    let new = map(vec![("b", num(2)), ("c", num(3))]);
    let d = generate_diff(&old, &new);
    assert_eq!(d.dictionary_item_removed.len(), 1);
    assert_eq!(format_path(&d.dictionary_item_removed[0].path), "root['a']");
    assert!(values_equal(d.dictionary_item_removed[0].value, &num(1)));
    assert_eq!(d.dictionary_item_added.len(), 1);
    assert_eq!(format_path(&d.dictionary_item_added[0].path), "root['c']");
    assert!(values_equal(d.dictionary_item_added[0].value, &num(3)));
    assert!(d.values_changed.is_empty());
    assert!(d.type_changes.is_empty());
}

#[test]
fn sequence_tail_removed() {
    let old = Value::Sequence(vec![num(1), num(2), num(3)]);
    let new = Value::Sequence(vec![num(1), num(2)]);
    let d = generate_diff(&old, &new);
    assert_eq!(d.iterable_item_removed.len(), 1);
    assert_eq!(format_path(&d.iterable_item_removed[0].path), "root[2]");
    assert!(values_equal(d.iterable_item_removed[0].value, &num(3)));
    assert!(d.iterable_item_added.is_empty());
    assert!(d.values_changed.is_empty());
    assert!(d.type_changes.is_empty());
    assert!(d.dictionary_item_added.is_empty());
    assert!(d.dictionary_item_removed.is_empty());
}

#[test]
fn sequence_tail_added() {
    let old = Value::Sequence(vec![num(1)]);
    let new = Value::Sequence(vec![num(1), text("p"), text("q")]);
    let d = generate_diff(&old, &new);
    assert_eq!(d.iterable_item_added.len(), 2);
    assert_eq!(format_path(&d.iterable_item_added[0].path), "root[1]");
    assert_eq!(format_path(&d.iterable_item_added[1].path), "root[2]");
    assert!(values_equal(d.iterable_item_added[1].value, &text("q")));
    assert!(d.iterable_item_removed.is_empty());
}

#[test]
fn sequence_insertion_shifts_every_later_position() {
    let old = Value::Sequence(vec![num(1), num(2)]);
    let new = Value::Sequence(vec![num(0), num(1), num(2)]);
    let d = generate_diff(&old, &new);
    assert_eq!(d.values_changed.len(), 2);
    assert_eq!(format_path(&d.values_changed[0].path), "root[0]");
    assert_eq!(format_path(&d.values_changed[1].path), "root[1]");
    assert_eq!(d.iterable_item_added.len(), 1);
    assert_eq!(format_path(&d.iterable_item_added[0].path), "root[2]");
}

#[test]
fn set_changes_as_a_whole() {
    let old = Value::UnorderedSet(vec![num(1), num(2), num(3)]);
    let new = Value::UnorderedSet(vec![num(1), num(2), num(4)]);
    let d = generate_diff(&old, &new);
    assert_eq!(d.values_changed.len(), 1);
    let c = &d.values_changed[0];
    assert_eq!(format_path(&c.path), "root");
    assert!(std::ptr::eq(c.old_value, &old));
    assert!(std::ptr::eq(c.new_value, &new));
    assert!(d.iterable_item_added.is_empty());
    assert!(d.iterable_item_removed.is_empty());
    assert!(d.dictionary_item_added.is_empty());
    assert!(d.dictionary_item_removed.is_empty());
    assert!(d.type_changes.is_empty());
}

#[test]
fn set_order_does_not_matter() {
    let old = Value::UnorderedSet(vec![num(1), num(2), num(3)]);
    let new = Value::UnorderedSet(vec![num(3), num(1), num(2)]);
    assert!(generate_diff(&old, &new).is_empty());
    let smaller = Value::UnorderedSet(vec![num(3), num(1)]);
    assert_eq!(generate_diff(&old, &smaller).values_changed.len(), 1);
}

#[test]
fn scalar_leaf_change() {
    let old = text("a");
    let new = text("b");
    let d = generate_diff(&old, &new);
    assert_eq!(d.values_changed.len(), 1);
    let c = &d.values_changed[0];
    assert_eq!(format_path(&c.path), "root");
    assert!(values_equal(c.old_value, &text("a")));
    assert!(values_equal(c.new_value, &text("b")));
    assert!(d.type_changes.is_empty());
}

#[test]
fn integer_and_float_of_same_value_are_equal() {
    // 1.0 as a binary float: 2^52 * 2^-52
    let one_float = Value::Number(Number::new(4503599627370496, -52));
    let one_int = num(1);
    let d = generate_diff(&one_int, &one_float);
    assert!(d.is_empty());
    let half = Value::Number(Number::new(1, -1));
    assert_eq!(generate_diff(&one_int, &half).values_changed.len(), 1);
}

#[test]
fn number_canonical_form() {
    let n = Number::new(12, 0);
    assert_eq!(n.mantissa(), 3);
    assert_eq!(n.exponent(), 2);
    let z = Number::new(0, 9);
    assert_eq!(z.mantissa(), 0);
    assert_eq!(z.exponent(), 0);
    let m = Number::new(-40, -3);
    assert_eq!(m.mantissa(), -5);
    assert_eq!(m.exponent(), 0);
    assert_eq!(Number::from_i128(i128::MIN).mantissa(), -1);
    assert_eq!(Number::from_i128(i128::MIN).exponent(), 127);
}

#[test]
fn nested_change_is_addressed_by_full_path() {
    let old = map(vec![("x", Value::Sequence(vec![num(1), map(vec![("y", num(2))])]))]);
    let new = map(vec![("x", Value::Sequence(vec![num(1), map(vec![("y", num(3))])]))]);
    let d = generate_diff(&old, &new);
    assert_eq!(d.values_changed.len(), 1);
    assert_eq!(format_path(&d.values_changed[0].path), "root['x'][1]['y']");
    assert!(values_equal(d.values_changed[0].old_value, &num(2)));
    assert!(values_equal(d.values_changed[0].new_value, &num(3)));
    assert!(d.type_changes.is_empty());
    assert!(d.dictionary_item_added.is_empty());
    assert!(d.dictionary_item_removed.is_empty());
    assert!(d.iterable_item_added.is_empty());
    assert!(d.iterable_item_removed.is_empty());
}

#[test]
fn no_path_in_two_categories() {
    let old = map(vec![
        ("a", num(1)),
        ("b", Value::Sequence(vec![num(1), num(2), num(3)])),
        ("c", text("s")),
        ("d", Value::Null),
        ("e", Value::UnorderedSet(vec![num(1)])),
    ]);
    let new = map(vec![
        ("b", Value::Sequence(vec![num(5)])),
        ("c", num(4)),
        ("d", Value::Null),
        ("e", Value::UnorderedSet(vec![num(2)])),
        ("f", Value::Bool(true)),
    ]);
    let d = generate_diff(&old, &new);
    let mut paths: Vec<String> = Vec::new();
    paths.extend(d.values_changed.iter().map(|c| format_path(&c.path)));
    paths.extend(d.type_changes.iter().map(|c| format_path(&c.path)));
    paths.extend(d.dictionary_item_added.iter().map(|c| format_path(&c.path)));
    paths.extend(d.dictionary_item_removed.iter().map(|c| format_path(&c.path)));
    paths.extend(d.iterable_item_added.iter().map(|c| format_path(&c.path)));
    paths.extend(d.iterable_item_removed.iter().map(|c| format_path(&c.path)));
    assert_eq!(paths.len(), 7);
    let mut sorted = paths.clone();
    sorted.sort();
    sorted.dedup();
    assert_eq!(sorted.len(), paths.len());
    assert_eq!(d.type_changes.len(), 1);
    assert_eq!(format_path(&d.type_changes[0].path), "root['c']");
}

#[test]
fn path_rendering() {
    assert_eq!(format_path(&[]), "root");
    let p = vec![
        PathComponent::Key("name".to_string()),
        PathComponent::Index(0),
        PathComponent::Index(1234),
    ];
    assert_eq!(format_path(&p), "root['name'][0][1234]");
    assert_eq!(format_path(&p), "root['name'][0][1234]");
}

#[test]
fn mapping_equality_ignores_entry_order() {
    let a = map(vec![("p", num(1)), ("q", num(2))]);
    let b = map(vec![("q", num(2)), ("p", num(1))]);
    assert!(values_equal(&a, &b));
    let s1 = Value::UnorderedSet(vec![a]);
    let s2 = Value::UnorderedSet(vec![b]);
    assert!(generate_diff(&s1, &s2).is_empty());
    assert!(!values_equal(&num(1), &text("1")));
}

#[test]
fn key_lookup_and_uniqueness() {
    let entries = vec![
        ("a".to_string(), num(1)),
        ("b".to_string(), num(2)),
        ("a".to_string(), num(3)),
    ];
    assert_eq!(find_key(&entries, &"a".to_string()), Some(0));
    assert_eq!(find_key(&entries, &"b".to_string()), Some(1));
    assert_eq!(find_key(&entries, &"z".to_string()), None);
    assert!(!keys_distinct(&entries));
    assert!(keys_distinct(&entries[..2].iter().map(|(k, _)| (k.clone(), Value::Null)).collect()));
    assert!(keys_distinct(&Vec::new()));
}

#[test]
fn value_kinds() {
    assert_eq!(Value::Null.kind(), ValueKind::Null);
    assert_eq!(text("s").kind(), ValueKind::Str);
    assert_eq!(Value::UnorderedSet(vec![]).kind(), ValueKind::UnorderedSet);
    let empty_seq = Value::Sequence(vec![]);
    let empty_map = Value::Mapping(vec![]);
    let d = generate_diff(&empty_seq, &empty_map);
    assert_eq!(d.type_changes.len(), 1);
}
