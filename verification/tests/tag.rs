use markdoc::model::slots::Slots;
use markdoc::model::value::{Attributes, Expression, Value};
use markdoc::tag::{convert_attributes, convert_function, convert_value, parse, SyntaxError, Tag};

fn attributes(entries: Vec<(&str, Value)>) -> Attributes {
    let owned: Vec<(String, Value)> =
        entries.into_iter().map(|(key, value)| (key.to_string(), value)).collect();
    Attributes::from(owned)
}

fn variable(prefix: char, path: Vec<Value>) -> Value {
    Value::from(Expression::Variable(prefix, path))
}

fn function(name: &str, parameters: Vec<(&str, Value)>) -> Value {
    Value::from(Expression::Function(name.to_string(), attributes(parameters)))
}

#[test]
fn parse_basic_tag_open() {
    let output = parse("{% foo %}");
    assert_eq!(output, Tag::Open("foo".to_string(), None))
}

#[test]
fn parse_tag_open_with_attributes() {
    let output = parse("{% foo bar=1 baz=true %}");
    assert_eq!(
        output,
        Tag::Open(
            "foo".to_string(),
            Some(attributes(vec![("bar", 1.into()), ("baz", true.into())]))
        )
    )
}

#[test]
fn parse_tag_open_with_primary() {
    let output = parse("{% foo $bar %}");
    assert_eq!(
        output,
        Tag::Open(
            "foo".to_string(),
            Some(attributes(vec![("primary", variable('$', vec!["bar".into()]))]))
        )
    )
}

#[test]
fn parse_tag_open_with_primary_and_attributes() {
    let output = parse("{% foo $bar baz=true %}");
    assert_eq!(
        output,
        Tag::Open(
            "foo".to_string(),
            Some(attributes(vec![
                ("primary", variable('$', vec!["bar".into()])),
                ("baz", true.into())
            ]))
        )
    )
}

#[test]
fn parse_annotation_with_attributes() {
    let output = parse("{% foo={bar: 1} baz=\"test\" %}");
    assert_eq!(
        output,
        Tag::Annotation(attributes(vec![
            ("foo", Value::Hash(attributes(vec![("bar", 1.into())]))),
            ("baz", "test".into())
        ]))
    )
}

#[test]
fn parse_self_closing_tag() {
    let output = parse("{% foo bar=\"baz\" /%}");
    assert_eq!(
        output,
        Tag::Standalone("foo".to_string(), Some(attributes(vec![("bar", "baz".into())])))
    )
}

#[test]
fn convert_value_array() {
    let value = convert_value("[1, 2, 3]").expect("parse failed");
    assert_eq!(value, vec![1.into(), 2.into(), 3.into()].into());
}

#[test]
fn convert_value_array_with_trailing_comma() {
    let value = convert_value("[1, 2, 3, ]").expect("parse failed");
    assert_eq!(value, vec![1.into(), 2.into(), 3.into()].into());
}

#[test]
fn convert_value_hash() {
    let value = convert_value("{foo: \"bar\", baz: true}").expect("parse failed");
    assert_eq!(
        value,
        Value::Hash(attributes(vec![("foo", "bar".into()), ("baz", true.into())]))
    )
}

#[test]
fn convert_parsed_attributes() {
    let found = convert_attributes("foo=true bar=[1, 2, 3]").expect("parse failed");
    assert_eq!(
        found,
        attributes(vec![
            ("foo", true.into()),
            ("bar", vec![1.into(), 2.into(), 3.into()].into())
        ])
    )
}

#[test]
fn convert_empty_string() {
    let found = convert_attributes("foo=true bar=\"\"").expect("parse failed");
    assert_eq!(found, attributes(vec![("foo", true.into()), ("bar", "".into())]))
}

#[test]
fn convert_attribute_shortcuts() {
    let found = convert_attributes("asdf=1 #foo .bar .baz").expect("parse failed");
    assert_eq!(
        found,
        attributes(vec![
            ("asdf", 1.into()),
            ("id", "foo".into()),
            (
                "class",
                Value::Hash(attributes(vec![("bar", true.into()), ("baz", true.into())]))
            )
        ])
    )
}

#[test]
fn convert_variable() {
    let value = convert_value("$foo.bar[10].baz").expect("parse failed");
    assert_eq!(
        value,
        variable('$', vec!["foo".into(), "bar".into(), 10.into(), "baz".into()])
    )
}

#[test]
fn converting_function() {
    let value = convert_function("foo(1, bar=true, 3)").expect("parse failed");
    assert_eq!(
        value,
        function("foo", vec![("0", 1.into()), ("bar", true.into()), ("2", 3.into())])
    )
}

#[test]
fn tag_with_function_attribute_and_variable() {
    let tag = parse("{% foo bar=baz($test) %}");
    assert_eq!(
        tag,
        Tag::Open(
            "foo".to_string(),
            Some(attributes(vec![(
                "bar",
                function("baz", vec![("0", variable('$', vec!["test".into()]))])
            )]))
        )
    )
}

#[test]
fn parse_closing_tag() {
    assert_eq!(parse("{% /foo %}"), Tag::Close("foo".to_string()));
    assert_eq!(parse("{%/foo-bar%}"), Tag::Close("foo-bar".to_string()));
}

#[test]
fn parse_value_tags() {
    assert_eq!(
        parse("{% $foo.bar %}"),
        Tag::Value(variable('$', vec!["foo".into(), "bar".into()]))
    );
    assert_eq!(
        parse("{% @user[\"name\"] %}"),
        Tag::Value(variable('@', vec!["user".into(), "name".into()]))
    );
    assert_eq!(
        parse("{% sum(1, 2) %}"),
        Tag::Value(function("sum", vec![("0", 1.into()), ("1", 2.into())]))
    );
}

#[test]
fn parse_tag_without_attributes_has_none() {
    assert_eq!(parse("{% foo /%}"), Tag::Standalone("foo".to_string(), None));
    assert_ne!(parse("{% foo %}"), Tag::Open("foo".to_string(), Some(Attributes::new())));
}

#[test]
fn parse_failures_are_errors() {
    for text in ["{% foo bar= %}", "{% %}", "foo", "{% foo", "{% foo %} x", "{% /foo bar %}", ""] {
        assert_eq!(parse(text), Tag::Error(SyntaxError { text: text.to_string() }), "{}", text);
    }
}

#[test]
fn parse_literals() {
    assert_eq!(convert_value("null"), Some(Value::Null));
    assert_eq!(convert_value("true"), Some(Value::Boolean(true)));
    assert_eq!(convert_value("false"), Some(Value::Boolean(false)));
    assert_eq!(convert_value("nullable"), Some("nullable".into()));
    assert_eq!(convert_value("\"a b\""), Some("a b".into()));
    assert_eq!(convert_value("\"unterminated"), None);
    assert_eq!(convert_value("[1, 2"), None);
    assert_eq!(convert_value("[]"), Some(Value::Array(vec![])));
    assert_eq!(convert_value("{}"), Some(Value::Hash(Attributes::new())));
    assert_eq!(convert_value("{\"a b\": 1}"), Some(Value::Hash(attributes(vec![("a b", 1.into())]))));
}

#[test]
fn parse_numbers() {
    assert_eq!(convert_value("10").unwrap().to_text(&Slots::new()), "10");
    assert_eq!(convert_value("-12.50").unwrap().to_text(&Slots::new()), "-12.5");
    assert_eq!(convert_value("007").unwrap(), 7.into());
    assert_eq!(convert_value("-0").unwrap(), 0.into());
    assert_eq!(convert_value("1.0").unwrap(), 1.into());
    assert_eq!(convert_value("-3").unwrap(), (-3).into());
    assert_eq!(convert_value("12345678901234567890123").unwrap().to_text(&Slots::new()), "12345678901234567890123");
    assert_eq!(convert_value("1-2"), Some("1-2".into()));
}

#[test]
fn class_attribute_names_a_class() {
    assert_eq!(
        convert_attributes("class=\"big\" .red"),
        Some(attributes(vec![(
            "class",
            Value::Hash(attributes(vec![("big", true.into()), ("red", true.into())]))
        )]))
    );
}

#[test]
fn hash_equality_ignores_order() {
    assert_eq!(convert_value("{a: 1, b: 2}"), convert_value("{b: 2, a: 1}"));
    assert_ne!(convert_value("{a: 1, b: 2}"), convert_value("{a: 1}"));
    assert_ne!(convert_value("[1, 2]"), convert_value("[2, 1]"));
    assert_eq!(convert_value("{a: 1, a: 2}"), convert_value("{a: 2}"));
}

#[test]
fn function_rejects_other_values() {
    assert_eq!(convert_function("$foo"), None);
    assert_eq!(convert_function("[1]"), None);
    assert!(convert_function("f()").is_some());
}

#[test]
fn the_grammar_gives_no_slots_and_adopting_gives_each_expression_one() {
    let mut value = convert_value("[f($a, g($b)), $c]").expect("parse failed");
    let mut slots = Slots::new();
    slots.adopt(&mut value);
    assert_eq!(slots.len(), 5);
    let expected = Value::Array(vec![
        Value::Expression(
            Some(0),
            Expression::Function(
                "f".to_string(),
                attributes(vec![
                    ("0", Value::Expression(Some(1), Expression::Variable('$', vec!["a".into()]))),
                    (
                        "1",
                        Value::Expression(
                            Some(2),
                            Expression::Function(
                                "g".to_string(),
                                attributes(vec![(
                                    "0",
                                    Value::Expression(
                                        Some(3),
                                        Expression::Variable('$', vec!["b".into()]),
                                    ),
                                )]),
                            ),
                        ),
                    ),
                ]),
            ),
        ),
        Value::Expression(Some(4), Expression::Variable('$', vec!["c".into()])),
    ]);
    assert_eq!(value, expected);
    assert_ne!(convert_value("$c"), Some(Value::Expression(Some(0), Expression::Variable('$', vec!["c".into()]))));
    assert!(slots.values.iter().all(|held| *held == Value::Undefined));
}
