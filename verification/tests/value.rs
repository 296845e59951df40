use markdoc::model::node::{Node, Type};
use markdoc::model::slots::Slots;
use markdoc::model::value::{decimal_digits, decimal_text, Attributes, Expression, Number, Value};
use markdoc::text::{same_text, slice, trim};

fn attributes(entries: Vec<(&str, Value)>) -> Attributes {
    let owned: Vec<(String, Value)> =
        entries.into_iter().map(|(key, value)| (key.to_string(), value)).collect();
    Attributes::from(owned)
}

#[test]
fn values_are_written_literally() {
    let none = Slots::new();
    assert_eq!(Value::from("text").to_text(&none), "text");
    assert_eq!(Value::from(12).to_text(&none), "12");
    assert_eq!(Value::from(-7).to_text(&none), "-7");
    assert_eq!(Value::from(0).to_text(&none), "0");
    assert_eq!(Value::from(i32::MIN).to_text(&none), "-2147483648");
    assert_eq!(Value::from(i32::MAX).to_text(&none), "2147483647");
    assert_eq!(Value::from(true).to_text(&none), "true");
    assert_eq!(Value::from(false).to_text(&none), "false");
    assert_eq!(Value::Null.to_text(&none), "[OBJECT]");
    assert_eq!(Value::Undefined.to_text(&none), "[OBJECT]");
    assert_eq!(Value::from(vec![Value::Null]).to_text(&none), "[OBJECT]");
    assert_eq!(Value::Hash(Attributes::new()).to_text(&none), "[OBJECT]");
    let mut expression: Value = Expression::Variable('$', vec!["a".into()]).into();
    assert_eq!(expression.to_text(&none), "[OBJECT]");
    assert_eq!(expression.settled(&none), None);
    let mut slots = Slots::new();
    slots.adopt(&mut expression);
    assert_eq!(expression, Value::Expression(Some(0), Expression::Variable('$', vec!["a".into()])));
    assert_eq!(expression.to_text(&slots), "[OBJECT]");
    assert_eq!(expression.settled(&slots), Some(&Value::Undefined));
    slots.write(Some(0), "shown".into());
    assert_eq!(expression.to_text(&slots), "shown");
    assert_eq!(expression.settled(&slots), Some(&Value::from("shown")));
    assert_eq!(Value::Null.settled(&slots), Some(&Value::Null));
    assert_eq!(expression.resolved(&slots, |value| value.clone()), Value::from("shown"));
    assert_eq!(expression.resolved(&none, |value| value.clone()), Value::Undefined);
    assert!(Value::from(true).resolved(&slots, |value| matches!(value, Value::Boolean(true))));
}

#[test]
fn copies_of_an_expression_share_its_slot() {
    let mut slots = Slots::new();
    let mut first: Value = Expression::Variable('$', vec!["a".into()]).into();
    slots.adopt(&mut first);
    let copy = first.clone();
    assert_eq!(copy.settled(&slots), Some(&Value::Undefined));
    slots.write(Some(0), 7.into());
    assert_eq!(first.settled(&slots), Some(&Value::from(7)));
    assert_eq!(copy.settled(&slots), Some(&Value::from(7)));
    assert_eq!(copy.to_text(&slots), "7");
    slots.write(Some(5), 1.into());
    slots.write(None, 1.into());
    assert_eq!(slots.len(), 1);
    assert_eq!(slots.read(Some(0)), Some(&Value::from(7)));
    assert_eq!(slots.read(Some(1)), None);
    assert_eq!(slots.read(None), None);
}

#[test]
fn a_slot_that_holds_its_own_expression_is_written_as_an_object() {
    let mut slots = Slots::new();
    let mut value: Value = Expression::Variable('$', vec!["a".into()]).into();
    slots.adopt(&mut value);
    slots.write(Some(0), value.clone());
    assert_eq!(value.to_text(&slots), "[OBJECT]");
    assert_eq!(value.to_text_within(&slots, 0), "[OBJECT]");
}

#[test]
fn numbers_are_exact_decimals() {
    assert_eq!(Number::from_digits(true, vec![0, 1, 2], vec![5, 0]).to_text(), "-12.5");
    assert_eq!(Number::from_digits(false, vec![], vec![]).to_text(), "0");
    assert_eq!(Number::from_digits(true, vec![0, 0], vec![0]).to_text(), "0");
    assert_eq!(Number::from_digits(false, vec![0], vec![0, 1]).to_text(), "0.01");
    assert_eq!(Number::from_digits(false, vec![4, 2], vec![]), Number::from_i32(42));
    assert_eq!(Number::from_u64(u64::MAX).to_text(), "18446744073709551615");
    assert_eq!(decimal_digits(907), vec![9, 0, 7]);
    assert_eq!(decimal_digits(0), vec![0]);
    assert_eq!(decimal_text(10), "10");
    assert_eq!(Number::from_i32(3).to_index(), Some(3));
    assert_eq!(Number::from_i32(-3).to_index(), Some(0));
    assert_eq!(Number::from_digits(false, vec![1], vec![9]).to_index(), Some(1));
    assert_eq!(Number::from_digits(false, vec![9; 40], vec![]).to_index(), None);
    assert_eq!(Number::from_u64(u64::MAX).to_index(), Some(usize::MAX));
}

#[test]
fn attributes_keep_one_entry_for_a_key() {
    let mut held = Attributes::new();
    assert!(held.is_empty());
    assert_eq!(held.insert("a".to_string(), 1.into()), None);
    assert_eq!(held.insert("b".to_string(), 2.into()), None);
    assert_eq!(held.insert("a".to_string(), 3.into()), Some(1.into()));
    assert_eq!(held.len(), 2);
    assert_eq!(held.get("a"), Some(&Value::from(3)));
    assert_eq!(held.get("c"), None);
    assert!(held.contains_key("b"));
    assert!(!held.contains_key(""));
    assert_eq!(held.position("b"), 1);
    assert_eq!(held.position("zz"), 2);
    let keys: Vec<&str> = held.entries.iter().map(|(key, _)| key.as_str()).collect();
    assert_eq!(keys, vec!["a", "b"]);
    held.extend(attributes(vec![("c", 4.into()), ("b", 5.into()), ("c", 6.into())]));
    assert_eq!(held, attributes(vec![("a", 3.into()), ("b", 5.into()), ("c", 6.into())]));
    let keys: Vec<&str> = held.entries.iter().map(|(key, _)| key.as_str()).collect();
    assert_eq!(keys, vec!["a", "b", "c"]);
}

#[test]
fn deep_get_follows_a_path() {
    let value = Value::Hash(attributes(vec![(
        "a",
        vec![Value::Hash(attributes(vec![("b", "found".into())])), 2.into()].into(),
    )]));
    assert_eq!(value.deep_get(&["a".into(), 0.into(), "b".into()]), Some(&"found".into()));
    assert_eq!(value.deep_get(&["a".into(), 1.into()]), Some(&2.into()));
    assert_eq!(value.deep_get(&[]), Some(&value));
    assert_eq!(value.deep_get(&["a".into(), 2.into()]), None);
    assert_eq!(value.deep_get(&["a".into(), (-1).into()]), value.deep_get(&["a".into(), 0.into()]));
    assert_eq!(value.deep_get(&["a".into(), "b".into()]), None);
    assert_eq!(value.deep_get(&[0.into()]), None);
    assert_eq!(value.deep_get(&["a".into(), 1.into(), "x".into()]), None);
    assert_eq!(value.deep_get(&[Value::Null]), None);
}

#[test]
fn copies_are_equal() {
    let value = Value::Hash(attributes(vec![
        ("a", vec![1.into(), "x".into(), Value::Null, Value::Undefined].into()),
        ("b", Expression::Function("f".to_string(), attributes(vec![("0", true.into())])).into()),
    ]));
    assert_eq!(value.clone(), value);
    assert_ne!(Value::Null, Value::Undefined);
    assert_ne!(Value::from("1"), Value::from(1));
    assert_ne!(
        Value::from(Expression::Variable('$', vec!["a".into()])),
        Value::from(Expression::Variable('@', vec!["a".into()]))
    );
    assert!(Value::from(1).is_call() == false);
    assert!(Value::from(Expression::Function("f".to_string(), Attributes::new())).is_call());
    assert!(Value::from(Expression::Variable('$', vec![])).is_expression());
}

#[test]
fn nodes_hold_attributes_and_children() {
    let mut node = Node::new(Type::Paragraph);
    assert_eq!(node.attribute("a"), None);
    assert_eq!(node.set_attribute("a".to_string(), 1.into()), None);
    assert_eq!(node.set_attribute("a".to_string(), 2.into()), Some(1.into()));
    node.set_attributes(attributes(vec![("b", 3.into()), ("a", 4.into())]));
    assert_eq!(node.attributes, Some(attributes(vec![("a", 4.into()), ("b", 3.into())])));
    let mut other = Node::new(Type::Paragraph);
    other.set_attributes(attributes(vec![("z", 1.into())]));
    assert_eq!(other.attribute("z"), Some(&1.into()));
    assert_eq!(node.children, None);
    node.push(4);
    node.push(2);
    assert_eq!(node.children, Some(vec![4, 2]));
}

#[test]
fn text_helpers() {
    assert_eq!(slice("héllo", 0, 3), "hé");
    assert_eq!(slice("héllo", 1, 2), "");
    assert_eq!(slice("héllo", 2, 1), "");
    assert_eq!(slice("héllo", 0, 9), "");
    assert_eq!(slice("héllo", 6, 6), "");
    assert_eq!(trim(" \t a b \n", 0, 8), "a b");
    assert_eq!(trim("   ", 0, 3), "");
    assert_eq!(trim("xaby", 1, 3), "ab");
    assert!(same_text("a", "a"));
    assert!(!same_text("a", "b"));
    assert!(!same_text("a", "ab"));
}
