use markdoc::model::node::{Document, Node, Type};
use markdoc::model::value::{Expression, Value};
use markdoc::parse::{extract_frontmatter, parse};

const SAMPLES: [&str; 14] = [
    "",
    "# Heading",
    "plain *text* with `code` and **more**\nsecond line",
    "- a\n- b\n  - c\n",
    "- a\n\n- b\n",
    "| a | b |\n|---|---|\n| 1 | 2 |\n",
    "{% foo %}\ntext {% bar /%} more\n{% /foo %}",
    "{% /missing %}",
    "a {% b %}c{% /b %} d",
    "> quote {% $x %}\n\n```js {% .c %}\ncode {% t /%}\n```\n",
    "---\ntitle\n---\n# H {% #id %}",
    "{% foo bar= %} and {% %}",
    "[![i](u)](l)",
    "*a ![i](u) b*\n\n    was code {% x a=1 a=2 .c .c %}",
];

fn children<'a>(document: &'a Document, node: &Node) -> Vec<&'a Node> {
    match &node.children {
        Some(list) => list.iter().map(|place| &document.nodes[*place]).collect(),
        None => vec![],
    }
}

#[test]
fn the_root_is_a_document() {
    for input in SAMPLES {
        let doc = parse(input);
        assert!(!doc.nodes.is_empty());
        assert_eq!(doc.nodes[0].kind, Type::Document, "{:?}", input);
        assert_eq!(doc.root().unwrap().kind, Type::Document);
        assert_eq!(doc.len(), doc.nodes.len());
        assert!(doc.node(doc.len()).is_none());
    }
}

#[test]
fn every_tag_has_a_name() {
    let mut tags = 0;
    for input in SAMPLES {
        let doc = parse(input);
        for node in &doc.nodes {
            if let Type::Tag(_) = node.kind {
                tags += 1;
                assert!(!node.tag.as_ref().expect("tag").is_empty(), "{:?}", input);
            } else {
                assert_eq!(node.tag, None, "{:?}", input);
            }
        }
    }
    assert_eq!(tags, 6);
}

#[test]
fn inline_content_stands_in_containers() {
    for input in SAMPLES {
        let doc = parse(input);
        for node in &doc.nodes {
            if node.kind.has_inline() {
                for (index, child) in children(&doc, node).iter().enumerate() {
                    assert!(!child.kind.is_inline(), "{:?}", input);
                    assert!(index == 0 || child.kind != Type::Inline, "{:?}", input);
                }
            }
        }
    }
}

#[test]
fn inline_content_after_a_block_opens_a_container_again() {
    let doc = parse("a ![i](s) b");
    let paragraph = &doc.nodes[1];
    assert_eq!(paragraph.kind, Type::Paragraph);
    let kinds: Vec<Type> = children(&doc, paragraph).iter().map(|node| node.kind).collect();
    assert_eq!(kinds, vec![Type::Inline, Type::Image, Type::Inline]);
}

#[test]
fn children_follow_their_parents() {
    for input in SAMPLES {
        let doc = parse(input);
        for (place, node) in doc.nodes.iter().enumerate() {
            for child in node.children.iter().flatten() {
                assert!(place < *child && *child < doc.nodes.len(), "{:?}", input);
            }
        }
    }
}

#[test]
fn frontmatter_comes_out_again() {
    for (frontmatter, rest) in [("a: 1", "\nbody"), ("", ""), (" - x\n--\n", "---"), ("é", "\n# ü")] {
        let text = format!("---\n{}\n---{}", frontmatter, rest);
        let expected = format!("\n{}\n", frontmatter);
        assert_eq!(extract_frontmatter(&text), Some((expected.as_str(), rest)));
        let doc = parse(&text);
        assert_eq!(
            doc.nodes[0].attribute("frontmatter").unwrap().to_text(&doc.slots),
            frontmatter.trim_matches(|c: char| c.is_ascii_whitespace() || c == '\u{b}')
        );
    }
}

fn collect(value: &Value, places: &mut Vec<usize>) {
    match value {
        Value::Expression(place, expression) => {
            places.push(place.expect("placed"));
            match expression {
                Expression::Variable(_, path) => path.iter().for_each(|v| collect(v, places)),
                Expression::Function(_, held) => {
                    held.entries.iter().for_each(|(_, v)| collect(v, places))
                }
            }
        }
        Value::Hash(held) => held.entries.iter().for_each(|(_, v)| collect(v, places)),
        Value::Array(items) => items.iter().for_each(|v| collect(v, places)),
        _ => {}
    }
}

#[test]
fn every_expression_of_a_tree_has_a_slot_of_its_own() {
    let doc = parse("{% a x=$p y=f($q) %}{% $r %}\n\n# t {% z=$s %}");
    let mut places = Vec::new();
    for node in &doc.nodes {
        for (_, value) in node.attributes.iter().flat_map(|held| held.entries.iter()) {
            collect(value, &mut places);
        }
    }
    assert_eq!(places, vec![0, 1, 2, 3, 4]);
    assert_eq!(doc.slots.len(), 5);
}

fn unique(value: &Value) -> bool {
    let keys_of = |held: &markdoc::model::value::Attributes| {
        let mut keys: Vec<&String> = held.entries.iter().map(|(key, _)| key).collect();
        let count = keys.len();
        keys.sort();
        keys.dedup();
        keys.len() == count && held.entries.iter().all(|(_, inner)| unique(inner))
    };
    match value {
        Value::Hash(held) => keys_of(held),
        Value::Array(items) => items.iter().all(unique),
        Value::Expression(_, Expression::Function(_, held)) => keys_of(held),
        Value::Expression(_, Expression::Variable(_, path)) => path.iter().all(unique),
        _ => true,
    }
}

#[test]
fn keys_are_unique() {
    let inputs = [
        "{% t a=1 b=2 a=3 x={k: 1, k: 2, m: [{p: 1, p: 2}]} y=f(1, 0=2, z=1, z=2) .c .c class=d %}",
        "# h {% a=1 %} {% a=2 level=7 %}",
        "```js {% language=1 content=2 language=3 %}\nx\n```",
    ];
    for input in inputs {
        let doc = parse(input);
        for node in &doc.nodes {
            if let Some(held) = &node.attributes {
                assert!(unique(&Value::Hash(held.clone())), "{:?}", input);
            }
        }
    }
    let doc = parse(inputs[0]);
    let tag = doc.nodes.iter().find(|node| node.tag.is_some()).unwrap();
    assert_eq!(tag.attribute("a"), Some(&Value::from(3)));
}
