use markdoc::model::node::{Document, Node, Type};
use markdoc::model::render::Renderable;
use markdoc::model::schema::{
    Attribute, AttributeRender, Callback, Config, Constant, Schema, SchemaType, Transform,
    Variables,
};
use markdoc::model::slots::Slots;
use markdoc::model::value::{Attributes, Value};
use markdoc::parse::parse;
use markdoc::render::html::render;
use markdoc::resolve::resolve_node;
use markdoc::schema::default_nodes;
use markdoc::transform::{find_schema, transform_attributes, transform_children, transform_node};

fn attributes(entries: Vec<(&str, Value)>) -> Attributes {
    let owned: Vec<(String, Value)> =
        entries.into_iter().map(|(key, value)| (key.to_string(), value)).collect();
    Attributes::from(owned)
}

fn foo_config(value: &str) -> Config<Constant> {
    Config {
        tags: vec![(
            "foo".to_string(),
            Schema {
                render: Some("foo".to_string()),
                attributes: Some(vec![(
                    "bar".to_string(),
                    Attribute { kind: Some(SchemaType::String), ..Attribute::default() },
                )]),
                ..Schema::default()
            },
        )],
        nodes: default_nodes(),
        variables: Some(Variables::Values(attributes(vec![(
            "foo",
            Value::Hash(attributes(vec![("bar", value.into())])),
        )]))),
        functions: None,
    }
}

fn to_html<C: Callback>(input: &str, config: &Config<C>) -> String {
    let mut doc = parse(input);
    resolve_node(&mut doc, 0, config);
    let rendered = transform_node(&doc, 0, config);
    let mut out = String::new();
    render(&rendered, &doc.slots, &mut out);
    out
}

#[test]
fn html_example() {
    let config = foo_config("variable resolved");
    let output = to_html(
        r#"
# This is a test

---

This is a sample document

* This is a bulleted list
* With another list item

{% foo bar="test" %}
This is a test: {% $foo.bar %}
{% /foo %}
"#,
        &config,
    );
    let expected = r#"<h1>This is a test</h1><hr><p>This is a sample document</p><ul><li>This is a bulleted list</li><li>With another list item</li></ul><foo bar="test"><p>This is a test: variable resolved</p></foo>"#;
    assert_eq!(expected, output);
}

#[test]
fn html_rendering() {
    let config = foo_config("v");
    let output = to_html(
        "# t\n\n---\n\np\n\n* a\n* b\n\n{% foo bar=\"x\" %}p {% $foo.bar %}{% /foo %}",
        &config,
    );
    assert_eq!(
        output,
        "<h1>t</h1><hr><p>p</p><ul><li>a</li><li>b</li></ul><foo bar=\"x\"><p>p v</p></foo>"
    );
}

#[test]
fn leaf_text_is_written_as_it_is() {
    let mut out = String::new();
    render(&Renderable::String("x".to_string()), &Slots::new(), &mut out);
    assert_eq!(out, "x");
    render(&Renderable::String("<b> & \"q\"".to_string()), &Slots::new(), &mut out);
    assert_eq!(out, "x<b> & \"q\"");
    render(&Renderable::Null, &Slots::new(), &mut out);
    assert_eq!(out, "x<b> & \"q\"");
}

#[test]
fn void_elements_have_no_content() {
    for name in [
        "area", "base", "br", "col", "embed", "hr", "img", "input", "link", "meta", "param",
        "source", "track", "wbr",
    ] {
        let mut out = String::new();
        let node = Renderable::Tag {
            name: name.to_string(),
            attributes: Some(attributes(vec![("a", 1.into())])),
            children: Some(vec![Renderable::String("x".to_string())]),
        };
        render(&node, &Slots::new(), &mut out);
        assert_eq!(out, format!("<{} a=\"1\">", name));
    }
    let mut out = String::new();
    let node = Renderable::Tag {
        name: "div".to_string(),
        attributes: Some(attributes(vec![("a", true.into()), ("b", "c".into()), ("d", Value::Null)])),
        children: Some(vec![
            Renderable::Fragment(vec![
                Renderable::String("x".to_string()),
                Renderable::Tag { name: "i".to_string(), attributes: None, children: None },
            ]),
            Renderable::Null,
        ]),
    };
    render(&node, &Slots::new(), &mut out);
    assert_eq!(out, "<div a=\"true\" b=\"c\" d=\"[OBJECT]\">x<i></i></div>");
}

#[test]
fn ordered_lists_code_and_breaks() {
    let config: Config<Constant> =
        Config { tags: vec![], nodes: default_nodes(), variables: None, functions: None };
    assert_eq!(
        to_html("2. a\n3. b\n\nx `y` z\nw  \nv\n\n> q\n\n### h *e* **s**", &config),
        "<ol><li>a</li><li>b</li></ol><p>x <code></code> z w<br>v</p><blockquote><p>q</p></blockquote><h3>h <em>e</em> <strong>s</strong></h3>"
    );
    assert_eq!(
        to_html("[t](u \"T\") ![a](s)\n\n```js\nlet x;\n```\n", &config),
        "<p><a href=\"u\" title=\"T\">t</a> <img src=\"s\"></p><pre data-language=\"js\">let x;\n</pre>"
    );
    assert_eq!(
        to_html("| a |\n|---|\n| 1 |\n", &config),
        "<table><thead><tr><th>a</th></tr></thead><tbody><tr><td>1</td></tr></tbody></table>"
    );
}

#[test]
fn nodes_without_schema_become_nothing() {
    let config: Config<Constant> =
        Config { tags: vec![], nodes: vec![], variables: None, functions: None };
    let doc = parse("# Heading");
    assert_eq!(transform_node(&doc, 0, &config), Renderable::Null);
    assert_eq!(transform_node(&doc, 1, &config), Renderable::Null);
    assert_eq!(transform_node(&doc, 99, &config), Renderable::Null);
    let defaults: Config<Constant> =
        Config { tags: vec![], nodes: default_nodes(), variables: None, functions: None };
    let unknown = parse("{% nope %}x{% /nope %}");
    assert!(find_schema(&unknown.nodes[1], &defaults).is_none());
    assert_eq!(transform_node(&unknown, 1, &defaults), Renderable::Null);
    assert_eq!(to_html("a {% nope /%} b", &defaults), "<p>a  b</p>");
}

#[test]
fn schema_lookup_prefers_the_tag() {
    let config = foo_config("v");
    let mut node = Node::new(Type::Paragraph);
    assert_eq!(find_schema(&node, &config).unwrap().render, Some("p".to_string()));
    node.tag = Some("foo".to_string());
    assert_eq!(find_schema(&node, &config).unwrap().render, Some("foo".to_string()));
    node.tag = Some("other".to_string());
    assert_eq!(find_schema(&node, &config).unwrap().render, Some("p".to_string()));
    node.kind = Type::Nop;
    assert!(find_schema(&node, &config).is_none());
}

#[test]
fn attributes_follow_the_rules() {
    let config: Config<Constant> =
        Config { tags: vec![], nodes: default_nodes(), variables: None, functions: None };
    let mut node = Node::new(Type::Fence);
    assert_eq!(transform_attributes(&node, &config), None);
    node.set_attribute("content".to_string(), "c".into());
    node.set_attribute("process".to_string(), true.into());
    assert_eq!(transform_attributes(&node, &config), None);
    node.set_attribute("language".to_string(), "js".into());
    node.set_attribute("extra".to_string(), 1.into());
    assert_eq!(
        transform_attributes(&node, &config),
        Some(attributes(vec![("data-language", "js".into())]))
    );
    let bare = Node::new(Type::Nop);
    assert_eq!(transform_attributes(&bare, &config), None);
}

#[test]
fn children_are_transformed_in_order() {
    let config: Config<Constant> =
        Config { tags: vec![], nodes: default_nodes(), variables: None, functions: None };
    let doc = parse("a\n\nb");
    assert_eq!(
        transform_children(&doc, 0, &config),
        Some(vec![
            Renderable::Tag {
                name: "p".to_string(),
                attributes: None,
                children: Some(vec![Renderable::Fragment(vec![Renderable::String("a".to_string())])]),
            },
            Renderable::Tag {
                name: "p".to_string(),
                attributes: None,
                children: Some(vec![Renderable::Fragment(vec![Renderable::String("b".to_string())])]),
            },
        ])
    );
    let leaf = doc.nodes.iter().position(|n| n.kind == Type::Text).unwrap();
    assert_eq!(transform_children(&doc, leaf, &config), None);
    assert_eq!(transform_children(&doc, 99, &config), None);
}

struct Upper;

impl Callback for Upper {
    fn transform(
        &self,
        node: &Node,
        attributes: Option<Attributes>,
        children: Option<Vec<Renderable>>,
        _slots: &Slots,
        config: &Config<Upper>,
    ) -> Renderable {
        assert!(find_schema(node, config).is_some());
        Renderable::Tag { name: format!("x-{}", node.tag.clone().unwrap_or_default()), attributes, children }
    }

    fn evaluate(&self, parameters: &Attributes, slots: &Slots, config: &Config<Upper>) -> Value {
        assert!(config.functions.is_some());
        Value::String(parameters.get("0").map(|v| v.to_text(slots).to_uppercase()).unwrap_or_default())
    }

    fn variable(&self, path: &[Value]) -> Value {
        Value::String(path.iter().map(|v| v.to_text(&Slots::new())).collect::<Vec<_>>().join("/"))
    }
}

#[test]
fn callbacks_of_the_user() {
    let config = Config {
        tags: vec![(
            "card".to_string(),
            Schema {
                render: None,
                attributes: Some(vec![(
                    "title".to_string(),
                    Attribute { kind: None, render: AttributeRender::Name("data-title".to_string()), required: false },
                )]),
                self_closing: false,
                transform: Some(Transform::Custom(Upper)),
            },
        )],
        nodes: default_nodes(),
        variables: Some(Variables::Resolver(Upper)),
        functions: Some(vec![(
            "upper".to_string(),
            markdoc::model::schema::FunctionSchema { attributes: None, evaluate: Upper },
        )]),
    };
    assert_eq!(
        to_html("{% card title=upper(\"hi\") %}\n{% $a.b[1] %} {% missing(1) %}\n{% /card %}", &config),
        "<x-card data-title=\"HI\"><p>a/b/1 </p></x-card>"
    );
    let _ = Document::new(Node::new(Type::Document));
}

#[test]
fn default_schemas() {
    let nodes = default_nodes::<Constant>();
    assert_eq!(nodes.len(), 24);
    let of = |kind: Type| nodes.iter().find(|(held, _)| *held == kind).map(|(_, schema)| schema);
    assert_eq!(of(Type::Paragraph).unwrap().render, Some("p".to_string()));
    assert_eq!(of(Type::Strike).unwrap().render, Some("s".to_string()));
    assert_eq!(of(Type::TableHeadCell).unwrap().render, Some("th".to_string()));
    assert_eq!(of(Type::Inline).unwrap().render, None);
    assert!(of(Type::Inline).unwrap().transform.is_none());
    assert!(matches!(of(Type::Heading).unwrap().transform, Some(Transform::Heading)));
    assert!(matches!(of(Type::List).unwrap().transform, Some(Transform::List)));
    assert!(matches!(of(Type::Text).unwrap().transform, Some(Transform::Text)));
    assert!(of(Type::Code).unwrap().transform.is_none());
    assert_eq!(of(Type::Code).unwrap().render, Some("code".to_string()));
    assert!(matches!(of(Type::SoftBreak).unwrap().transform, Some(Transform::SoftBreak)));
    assert!(of(Type::Nop).is_none());
    assert!(of(Type::Error).is_none());
    assert!(of(Type::Tag(true)).is_none());
    let fence = of(Type::Fence).unwrap().attributes.as_ref().unwrap();
    let names: Vec<&str> = fence.iter().map(|(name, _)| name.as_str()).collect();
    assert_eq!(names, vec!["content", "language", "process"]);
    assert!(matches!(fence[0].1.render, AttributeRender::False));
    assert!(fence[0].1.required);
    assert!(matches!(&fence[1].1.render, AttributeRender::Name(name) if name == "data-language"));
    assert!(matches!(fence[2].1.kind, Some(SchemaType::Boolean)));
    let document = of(Type::Document).unwrap().attributes.as_ref().unwrap();
    assert_eq!(document[0].0, "frontmatter");
    assert!(matches!(document[0].1.render, AttributeRender::False));
    let mut kinds: Vec<String> = nodes.iter().map(|(kind, _)| format!("{:?}", kind)).collect();
    kinds.sort();
    kinds.dedup();
    assert_eq!(kinds.len(), 24);
}

#[test]
fn code_is_an_element_without_children() {
    let config: Config<Constant> =
        Config { tags: vec![], nodes: default_nodes(), variables: None, functions: None };
    let mut node = Node::new(Type::Code);
    node.set_attribute("content".to_string(), "x".into());
    let document = Document::new(node);
    assert_eq!(
        transform_node(&document, 0, &config),
        Renderable::Tag { name: "code".to_string(), attributes: None, children: None }
    );
}
