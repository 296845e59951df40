use markdoc::model::node::{Document, ErrorLevel, Node, Type};
use markdoc::model::value::{Attributes, Expression, Value};
use markdoc::parse::{convert_events, event_type, extract_frontmatter, parse};
use markdoc::scan::{scan_markdoc_tag_end, scan_tag_end_at};
use markdoc::tokenize::{tokenize, CodeBlockKind, EventTag, Token};

fn kids<'a>(document: &'a Document, node: &Node) -> Vec<&'a Node> {
    match &node.children {
        Some(list) => list.iter().map(|place| &document.nodes[*place]).collect(),
        None => vec![],
    }
}

fn only<'a>(document: &'a Document, node: &Node) -> &'a Node {
    let list = kids(document, node);
    assert_eq!(list.len(), 1);
    list[0]
}

fn attribute(node: &Node, key: &str) -> Value {
    node.attribute(key).expect(key).clone()
}

fn has_attributes(node: &Node, expected: Vec<(&str, Value)>) {
    let owned: Vec<(String, Value)> =
        expected.into_iter().map(|(key, value)| (key.to_string(), value)).collect();
    assert_eq!(node.attributes, Some(Attributes::from(owned)));
}

#[test]
fn basic_heading() {
    let doc = parse("# Heading");
    let root = &doc.nodes[0];
    assert_eq!(root.kind, Type::Document);
    assert_eq!(root.location, Some(0..9));
    let heading = only(&doc, root);
    assert_eq!(heading.kind, Type::Heading);
    has_attributes(heading, vec![("level", 1.into())]);
    assert_eq!(heading.location, Some(0..9));
    let inline = only(&doc, heading);
    assert_eq!(inline.kind, Type::Inline);
    assert_eq!(inline.location, None);
    let text = only(&doc, inline);
    assert_eq!(text.kind, Type::Text);
    has_attributes(text, vec![("content", "Heading".into())]);
    assert_eq!(text.location, Some(2..9));
    assert_eq!(text.children, None);
}

#[test]
fn heading_with_annotation() {
    let doc = parse("# Heading {% foo=true %}");
    let heading = only(&doc, &doc.nodes[0]);
    assert_eq!(heading.kind, Type::Heading);
    has_attributes(heading, vec![("level", 1.into()), ("foo", true.into())]);
    let inline = only(&doc, heading);
    let text = only(&doc, inline);
    has_attributes(text, vec![("content", "Heading ".into())]);
}

#[test]
fn fenced_code_with_inline_annotation() {
    let doc = parse("```javascript {% foo=2 %}\nThis is a test\n```");
    let fence = only(&doc, &doc.nodes[0]);
    assert_eq!(fence.kind, Type::Fence);
    has_attributes(
        fence,
        vec![
            ("foo", 2.into()),
            ("language", "javascript".into()),
            ("content", "This is a test\n".into()),
        ],
    );
    let text = only(&doc, fence);
    assert_eq!(text.kind, Type::Text);
    has_attributes(text, vec![("content", "This is a test\n".into())]);
    assert_eq!(text.location, Some(26..41));
}

#[test]
fn fenced_code_holds_tags_of_its_body() {
    let doc = parse("intro\n\n```\na {% $b %} c\n```\n");
    let fence = kids(&doc, &doc.nodes[0])[1];
    assert_eq!(fence.kind, Type::Fence);
    assert_eq!(attribute(fence, "content"), "a {% $b %} c\n".into());
    assert_eq!(fence.attribute("language"), None);
    let parts = kids(&doc, fence);
    assert_eq!(parts.len(), 3);
    assert_eq!(parts[0].kind, Type::Text);
    assert_eq!(attribute(parts[0], "content"), "a ".into());
    assert_eq!(parts[0].location, Some(11..13));
    assert_eq!(parts[1].kind, Type::Text);
    assert_eq!(
        attribute(parts[1], "content"),
        Value::Expression(Some(0), Expression::Variable('$', vec!["b".into()]))
    );
    assert_eq!(doc.slots.len(), 1);
    assert_eq!(parts[1].location, Some(13..21));
    assert_eq!(attribute(parts[2], "content"), " c\n".into());
}

#[test]
fn unmatched_close() {
    let doc = parse("{% /missing %}");
    let node = only(&doc, &doc.nodes[0]);
    assert!(matches!(node.kind, Type::Tag(_)));
    assert_eq!(node.tag, Some("missing".to_string()));
    let errors = node.errors.as_ref().expect("errors");
    assert_eq!(errors.len(), 1);
    assert_eq!(errors[0].id, "missing-opening");
    assert_eq!(errors[0].level, ErrorLevel::Critical);
    assert_eq!(errors[0].message, "Tag 'missing' is missing opening");
    assert_eq!(errors[0].location, Some(0..14));
    assert_eq!(node.location, Some(0..14));
}

#[test]
fn matched_close_leaves_one_tag() {
    let doc = parse("{% foo %}\ntext\n{% /foo %}\n");
    let tags: Vec<&Node> = doc.nodes.iter().filter(|n| matches!(n.kind, Type::Tag(_))).collect();
    assert_eq!(tags.len(), 1);
    assert_eq!(tags[0].tag, Some("foo".to_string()));
    assert_eq!(tags[0].errors, None);
    assert_eq!(tags[0].kind, Type::Tag(false));
    let paragraph = only(&doc, tags[0]);
    assert_eq!(paragraph.kind, Type::Paragraph);
    assert!(doc.nodes.iter().all(|n| n.errors.is_none()));
}

#[test]
fn inline_tag_stays_in_its_paragraph() {
    let doc = parse("a {% b %}c{% /b %} d");
    let paragraph = only(&doc, &doc.nodes[0]);
    assert_eq!(paragraph.kind, Type::Paragraph);
    let inline = only(&doc, paragraph);
    let parts = kids(&doc, inline);
    assert_eq!(parts.len(), 3);
    assert_eq!(parts[1].kind, Type::Tag(true));
    assert_eq!(parts[1].tag, Some("b".to_string()));
    assert_eq!(attribute(only(&doc, parts[1]), "content"), "c".into());
    assert_eq!(attribute(parts[2], "content"), " d".into());
}

#[test]
fn syntax_error_becomes_error_node() {
    let doc = parse("a {% foo bar= %} b");
    let inline = only(&doc, only(&doc, &doc.nodes[0]));
    let parts = kids(&doc, inline);
    assert_eq!(parts[1].kind, Type::Error);
    let errors = parts[1].errors.as_ref().expect("errors");
    assert_eq!(errors.len(), 1);
    assert_eq!(errors[0].id, "syntax-error");
    assert_eq!(errors[0].level, ErrorLevel::Critical);
    assert_eq!(errors[0].message, "Syntax error in tag '{% foo bar= %}'");
    assert_eq!(errors[0].location, Some(2..16));
}

#[test]
fn frontmatter_is_kept_on_the_root() {
    let doc = parse("---\ntitle: x\n---\n# H");
    let root = &doc.nodes[0];
    has_attributes(root, vec![("frontmatter", "title: x".into())]);
    assert_eq!(root.location, Some(0..20));
    let heading = only(&doc, root);
    assert_eq!(heading.kind, Type::Heading);
    assert_eq!(heading.location, Some(17..20));
}

#[test]
fn extract_frontmatter_splits_at_the_dashes() {
    assert_eq!(extract_frontmatter("---\nfm\n---\nbody"), Some(("\nfm\n", "\nbody")));
    assert_eq!(extract_frontmatter("------"), Some(("", "")));
    assert_eq!(extract_frontmatter("---\nfm\n"), None);
    assert_eq!(extract_frontmatter("body\n---\nx\n---\n"), None);
    assert_eq!(extract_frontmatter(""), None);
    assert_eq!(extract_frontmatter("--- a --- b --- c"), Some((" a ", " b --- c")));
}

#[test]
fn lists_links_and_images() {
    let doc = parse("3. a\n\n[t](http://x \"T\") ![i](y.png)");
    let top = kids(&doc, &doc.nodes[0]);
    assert_eq!(top[0].kind, Type::List);
    has_attributes(top[0], vec![("ordered", true.into()), ("number", 3.into())]);
    let inside = kids(&doc, top[1]);
    assert_eq!(inside.len(), 2);
    assert_eq!(inside[0].kind, Type::Inline);
    let parts = kids(&doc, inside[0]);
    assert_eq!(parts[0].kind, Type::Link);
    has_attributes(parts[0], vec![("href", "http://x".into()), ("title", "T".into())]);
    assert_eq!(inside[1].kind, Type::Image);
    has_attributes(inside[1], vec![("src", "y.png".into())]);
}

#[test]
fn tables_get_a_body_and_head_cells() {
    let doc = parse("| a | b |\n|---|---|\n| 1 | 2 |\n");
    let table = only(&doc, &doc.nodes[0]);
    assert_eq!(table.kind, Type::Table);
    let parts = kids(&doc, table);
    assert_eq!(parts.len(), 2);
    assert_eq!(parts[0].kind, Type::TableHead);
    let head_row = only(&doc, parts[0]);
    assert_eq!(head_row.kind, Type::TableRow);
    assert!(kids(&doc, head_row).iter().all(|n| n.kind == Type::TableHeadCell));
    assert_eq!(parts[1].kind, Type::TableBody);
    assert_eq!(parts[1].location, None);
    let row = only(&doc, parts[1]);
    assert_eq!(row.kind, Type::TableRow);
    let cells = kids(&doc, row);
    assert_eq!(cells.len(), 2);
    assert!(cells.iter().all(|n| n.kind == Type::TableCell));
}

#[test]
fn adjacent_text_is_joined_but_not_a_lone_space() {
    let mut doc = Document::new(Node::new(Type::Document));
    let mut nodes = vec![0];
    let events = vec![
        (Token::Text("a".to_string()), 0..1),
        (Token::Text("b".to_string()), 1..2),
        (Token::Text(" ".to_string()), 2..3),
        (Token::Text("c".to_string()), 3..4),
        (Token::Text("d".to_string()), 4..5),
    ];
    convert_events("ab cd", &mut doc, &mut nodes, events, 10, false);
    let parts = kids(&doc, &doc.nodes[0]);
    let texts: Vec<String> = parts.iter().map(|n| attribute(n, "content").to_text(&doc.slots)).collect();
    assert_eq!(texts, vec!["ab", " ", "cd"]);
    assert_eq!(parts[0].location, Some(10..11));
    assert_eq!(nodes, vec![0]);
}

#[test]
fn annotation_goes_to_the_parent_of_the_inline_container() {
    let mut doc = Document::new(Node::new(Type::Document));
    let mut nodes = vec![0];
    let events = vec![
        (Token::Start(EventTag::Paragraph), 0..9),
        (Token::Text("a".to_string()), 0..1),
        (Token::MarkdocTag("{% .x %}".to_string(), true), 1..9),
        (Token::End(EventTag::Paragraph), 0..9),
    ];
    convert_events("a{% .x %}", &mut doc, &mut nodes, events, 0, true);
    let paragraph = only(&doc, &doc.nodes[0]);
    assert_eq!(paragraph.kind, Type::Paragraph);
    let class = attribute(paragraph, "class");
    assert_eq!(
        class,
        Value::Hash(Attributes::from(vec![("x".to_string(), Value::Boolean(true))]))
    );
    assert_eq!(nodes, vec![0]);
}

#[test]
fn event_kinds() {
    assert_eq!(event_type(&Token::Start(EventTag::Heading(2))), Type::Heading);
    assert_eq!(
        event_type(&Token::End(EventTag::CodeBlock(CodeBlockKind::Indented))),
        Type::Fence
    );
    assert_eq!(event_type(&Token::Start(EventTag::Strikethrough)), Type::Strike);
    assert_eq!(event_type(&Token::Start(EventTag::Other)), Type::Nop);
    assert_eq!(event_type(&Token::MarkdocTag("x".to_string(), true)), Type::Tag(true));
    assert_eq!(event_type(&Token::MarkdocTag("x".to_string(), false)), Type::Tag(false));
    assert_eq!(event_type(&Token::Other), Type::Nop);
    assert_eq!(event_type(&Token::Rule), Type::Rule);
}

#[test]
fn kinds_of_nodes() {
    for kind in [Type::Paragraph, Type::Heading, Type::Item, Type::TableCell] {
        assert!(kind.has_inline());
        assert!(!kind.is_inline());
    }
    for kind in [
        Type::Emphasis,
        Type::Strong,
        Type::Strike,
        Type::Link,
        Type::Text,
        Type::Code,
        Type::SoftBreak,
        Type::HardBreak,
        Type::Tag(true),
    ] {
        assert!(kind.is_inline());
        assert!(!kind.has_inline());
    }
    for kind in [Type::Document, Type::Image, Type::Tag(false), Type::Inline, Type::TableHeadCell] {
        assert!(!kind.is_inline());
        assert!(!kind.has_inline());
    }
    assert_eq!(Type::default(), Type::Nop);
}

#[test]
fn scanning_for_the_end_of_a_tag() {
    assert_eq!(scan_markdoc_tag_end(b"{% foo %} rest"), Some(9));
    assert_eq!(scan_markdoc_tag_end(b"{% a=\"%}\" %}x"), Some(12));
    assert_eq!(scan_markdoc_tag_end(b"{% foo"), None);
    assert_eq!(scan_markdoc_tag_end(b" {% foo %}"), None);
    assert_eq!(scan_markdoc_tag_end(b"{%%}"), Some(4));
    assert_eq!(scan_tag_end_at(b"ab{% c %}", 2), Some(9));
    assert_eq!(scan_tag_end_at(b"ab{% c %}", 3), None);
    assert_eq!(scan_tag_end_at(b"ab", 7), None);
}

#[test]
fn tokenize_cuts_tags_out_of_text() {
    let events = tokenize("a {% foo_bar a=[1, 2] b=\"*x*\" %} b *c*");
    let shapes: Vec<String> = events.iter().map(|(event, range)| format!("{:?} {:?}", event, range)).collect();
    assert_eq!(
        shapes,
        vec![
            "Start(Paragraph) 0..38",
            "Text(\"a \") 0..2",
            "MarkdocTag(\"{% foo_bar a=[1, 2] b=\\\"*x*\\\" %}\", true) 2..32",
            "Text(\" b \") 32..35",
            "Start(Emphasis) 35..38",
            "Text(\"c\") 36..37",
            "End(Emphasis) 35..38",
            "End(Paragraph) 0..38",
        ]
    );
}

#[test]
fn tokenize_moves_block_tags_out_of_paragraphs() {
    let events = tokenize("{% foo %}\ntext\n{% /foo %}\n\nx {% bar /%}\n");
    let shapes: Vec<String> = events.iter().map(|(event, _)| format!("{:?}", event)).collect();
    assert_eq!(
        shapes,
        vec![
            "MarkdocTag(\"{% foo %}\", false)",
            "Start(Paragraph)",
            "Text(\"text\")",
            "End(Paragraph)",
            "MarkdocTag(\"{% /foo %}\", false)",
            "Start(Paragraph)",
            "Text(\"x \")",
            "MarkdocTag(\"{% bar /%}\", true)",
            "End(Paragraph)",
        ]
    );
}

#[test]
fn fence_language_is_the_first_word_outside_tags() {
    let doc = parse("``` {% a=1 %} js rest\ncode\n```");
    let fence = only(&doc, &doc.nodes[0]);
    has_attributes(
        fence,
        vec![("language", "js".into()), ("a", 1.into()), ("content", "code\n".into())],
    );
    let doc = parse("```js{% .x %}\ncode\n```");
    let fence = only(&doc, &doc.nodes[0]);
    assert_eq!(attribute(fence, "language"), "js".into());
    assert!(fence.attribute("class").is_some());
    let doc = parse("```\ncode\n```");
    let fence = only(&doc, &doc.nodes[0]);
    has_attributes(fence, vec![("content", "code\n".into())]);
    let doc = parse("```{% a=1 %}\n```");
    let fence = only(&doc, &doc.nodes[0]);
    has_attributes(fence, vec![("a", 1.into()), ("content", "".into())]);
    let doc = parse("```js");
    let fence = only(&doc, &doc.nodes[0]);
    has_attributes(fence, vec![("language", "js".into())]);
}
