use markdoc::model::node::{Document, Node, Type};
use markdoc::model::schema::{Config, Constant, FunctionSchema, Variables};
use markdoc::model::slots::Slots;
use markdoc::model::value::{Attributes, Expression, Value};
use markdoc::resolve::{resolve, resolve_attributes, resolve_node};

fn attributes(entries: Vec<(&str, Value)>) -> Attributes {
    let owned: Vec<(String, Value)> =
        entries.into_iter().map(|(key, value)| (key.to_string(), value)).collect();
    Attributes::from(owned)
}

fn config() -> Config<Constant> {
    Config {
        tags: vec![],
        nodes: vec![],
        variables: Some(Variables::Values(attributes(vec![(
            "foo",
            Value::Hash(attributes(vec![
                ("bar", "variable resolved".into()),
                ("list", vec!["zero".into(), "one".into()].into()),
            ])),
        )]))),
        functions: Some(vec![(
            "foo".to_string(),
            FunctionSchema { attributes: None, evaluate: Constant { value: "function resolved".into() } },
        )]),
    }
}

fn placed(value: Value, slots: &mut Slots) -> Value {
    let mut value = value;
    slots.adopt(&mut value);
    value
}

fn slot(value: &Value, slots: &Slots) -> Value {
    match value {
        Value::Expression(_, _) => value.settled(slots).cloned().unwrap_or(Value::Undefined),
        _ => panic!("not an expression"),
    }
}

#[test]
fn resolve_example() {
    let config = config();
    let mut slots = Slots::new();
    let array = placed(
        Value::Array(vec![
            "test".into(),
            Expression::Variable('$', vec!["foo".into(), "bar".into()]).into(),
            Expression::Function("foo".to_string(), attributes(vec![("example", "test".into())]))
                .into(),
        ]),
        &mut slots,
    );

    resolve(&array, &config, &mut slots);

    match &array {
        Value::Array(values) => match values.as_slice() {
            [_, Value::Expression(second, _), Value::Expression(third, _)] => {
                assert_eq!(slots.read(*second), Some(&Value::String("variable resolved".into())));
                assert_eq!(slots.read(*third), Some(&Value::String("function resolved".into())));
            }
            _ => panic!("wrong number of list items"),
        },
        _ => panic!("not an array"),
    }
}

#[test]
fn variable_resolution() {
    let config: Config<Constant> = Config {
        tags: vec![],
        nodes: vec![],
        variables: Some(Variables::Values(attributes(vec![(
            "foo",
            Value::Hash(attributes(vec![("bar", "resolved".into())])),
        )]))),
        functions: None,
    };
    let mut slots = Slots::new();
    let mut held = attributes(vec![(
        "x",
        Expression::Variable('$', vec!["foo".into(), "bar".into()]).into(),
    )]);
    slots.adopt_attributes(&mut held);
    resolve_attributes(&held, &config, &mut slots);
    assert_eq!(slot(held.get("x").unwrap(), &slots), Value::String("resolved".to_string()));
}

#[test]
fn resolving_a_copy_resolves_what_it_was_copied_from() {
    let config = config();
    let mut slots = Slots::new();
    let first =
        placed(Expression::Variable('$', vec!["foo".into(), "bar".into()]).into(), &mut slots);
    let copy = first.clone();
    assert_eq!(slot(&first, &slots), Value::Undefined);
    resolve(&copy, &config, &mut slots);
    assert_eq!(slot(&first, &slots), "variable resolved".into());
    assert_eq!(slot(&copy, &slots), "variable resolved".into());
    assert_eq!(first, copy);
}

#[test]
fn an_expression_without_a_slot_stays_undefined() {
    let config = config();
    let mut slots = Slots::new();
    let value: Value = Expression::Variable('$', vec!["foo".into(), "bar".into()]).into();
    resolve(&value, &config, &mut slots);
    assert_eq!(slots.len(), 0);
    assert_eq!(slot(&value, &slots), Value::Undefined);
}

#[test]
fn missing_variables_and_functions_are_undefined() {
    let config = config();
    for path in [
        vec!["nope".into()],
        vec!["foo".into(), "nope".into()],
        vec!["foo".into(), "bar".into(), "deeper".into()],
        vec![1.into()],
        vec![],
        vec!["foo".into(), "list".into(), 2.into()],
        vec!["foo".into(), "list".into(), "one".into()],
    ] {
        let mut slots = Slots::new();
        let value = placed(Expression::Variable('$', path).into(), &mut slots);
        slots.write(Some(0), "before".into());
        resolve(&value, &config, &mut slots);
        assert_eq!(slot(&value, &slots), Value::Undefined);
    }
    let mut slots = Slots::new();
    let call = placed(Expression::Function("nope".to_string(), Attributes::new()).into(), &mut slots);
    slots.write(Some(0), "before".into());
    resolve(&call, &config, &mut slots);
    assert_eq!(slot(&call, &slots), Value::Undefined);
    let empty: Config<Constant> =
        Config { tags: vec![], nodes: vec![], variables: None, functions: None };
    let value = placed(Expression::Variable('$', vec!["foo".into()]).into(), &mut slots);
    slots.write(Some(1), "before".into());
    resolve(&value, &empty, &mut slots);
    assert_eq!(slot(&value, &slots), Value::Undefined);
    let call = placed(Expression::Function("foo".to_string(), Attributes::new()).into(), &mut slots);
    slots.write(Some(2), "before".into());
    resolve(&call, &empty, &mut slots);
    assert_eq!(slot(&call, &slots), Value::Undefined);
}

#[test]
fn paths_lead_into_hashes_and_arrays() {
    let config = config();
    let mut slots = Slots::new();
    let value = placed(
        Expression::Variable('$', vec!["foo".into(), "list".into(), 1.into()]).into(),
        &mut slots,
    );
    resolve(&value, &config, &mut slots);
    assert_eq!(slot(&value, &slots), "one".into());
    let whole = placed(Expression::Variable('$', vec!["foo".into()]).into(), &mut slots);
    resolve(&whole, &config, &mut slots);
    assert_eq!(
        slot(&whole, &slots),
        Value::Hash(attributes(vec![
            ("list", vec!["zero".into(), "one".into()].into()),
            ("bar", "variable resolved".into()),
        ]))
    );
}

#[test]
fn parameters_are_resolved_before_the_call() {
    let config = config();
    let mut slots = Slots::new();
    let call = placed(
        Expression::Function(
            "foo".to_string(),
            attributes(vec![(
                "0",
                Expression::Variable('$', vec!["foo".into(), "bar".into()]).into(),
            )]),
        )
        .into(),
        &mut slots,
    );
    resolve(&call, &config, &mut slots);
    match &call {
        Value::Expression(_, Expression::Function(_, parameters)) => {
            assert_eq!(slot(parameters.get("0").unwrap(), &slots), "variable resolved".into());
        }
        _ => panic!("not a call"),
    }
    assert_eq!(slot(&call, &slots), "function resolved".into());
}

#[test]
fn resolving_twice_changes_nothing() {
    let config = config();
    let mut slots = Slots::new();
    let value = placed(
        Value::Hash(attributes(vec![
            ("a", Expression::Variable('$', vec!["foo".into(), "bar".into()]).into()),
            (
                "b",
                vec![Expression::Function(
                    "foo".to_string(),
                    attributes(vec![("0", Expression::Variable('$', vec!["nope".into()]).into())]),
                )
                .into()]
                .into(),
            ),
            ("c", 1.into()),
        ])),
        &mut slots,
    );
    assert_eq!(slots.len(), 3);
    resolve(&value, &config, &mut slots);
    let once = slots.values.clone();
    resolve(&value, &config, &mut slots);
    assert_eq!(slots.values, once);
    assert_eq!(
        once,
        vec![Value::from("variable resolved"), Value::from("function resolved"), Value::Undefined]
    );
}

#[test]
fn resolve_node_walks_the_tree() {
    let config = config();
    let mut root = Node::new(Type::Document);
    root.set_attribute("v".to_string(), Expression::Variable('$', vec!["foo".into(), "bar".into()]).into());
    root.push(1);
    root.push(2);
    let mut first = Node::new(Type::Paragraph);
    first.set_attribute("v".to_string(), Expression::Function("foo".to_string(), Attributes::new()).into());
    let mut second = Node::new(Type::Paragraph);
    second.set_attribute("v".to_string(), Expression::Variable('$', vec!["foo".into(), "bar".into()]).into());
    let mut document = Document::new(root);
    document.nodes.push(first);
    document.nodes.push(second);
    document.adopt();
    assert_eq!(document.slots.len(), 3);
    let read = |document: &Document, place: usize| {
        slot(document.nodes[place].attribute("v").unwrap(), &document.slots)
    };
    resolve_node(&mut document, 1, &config);
    assert_eq!(read(&document, 0), Value::Undefined);
    assert_eq!(read(&document, 1), "function resolved".into());
    assert_eq!(read(&document, 2), Value::Undefined);
    resolve_node(&mut document, 0, &config);
    assert_eq!(read(&document, 0), "variable resolved".into());
    assert_eq!(read(&document, 2), "variable resolved".into());
    resolve_node(&mut document, 9, &config);
    assert_eq!(document.nodes.len(), 3);
}
