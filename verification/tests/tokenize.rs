use markdoc::tokenize::{
    tag_from_parts, token_from_parts, tokenize, CodeBlockKind, Element, EventTag, Shape, Token,
};

fn link() -> (String, String) {
    ("to".to_string(), "title".to_string())
}

#[test]
fn elements_are_made_of_their_parts() {
    let info = Some("js".to_string());
    let make = |block, inline| tag_from_parts(block, inline, 3, Some(7), info.clone(), link());
    assert_eq!(make(Element::Paragraph, Element::Other), EventTag::Paragraph);
    assert_eq!(make(Element::Heading, Element::Other), EventTag::Heading(3));
    assert_eq!(make(Element::BlockQuote, Element::Other), EventTag::BlockQuote);
    assert_eq!(
        make(Element::CodeBlock, Element::Other),
        EventTag::CodeBlock(CodeBlockKind::Fenced("js".to_string()))
    );
    assert_eq!(
        tag_from_parts(Element::CodeBlock, Element::Other, 0, None, None, link()),
        EventTag::CodeBlock(CodeBlockKind::Indented)
    );
    assert_eq!(make(Element::List, Element::Other), EventTag::List(Some(7)));
    assert_eq!(
        tag_from_parts(Element::List, Element::Other, 0, None, None, link()),
        EventTag::List(None)
    );
    assert_eq!(make(Element::Item, Element::Other), EventTag::Item);
    assert_eq!(make(Element::Table, Element::Other), EventTag::Table);
    assert_eq!(make(Element::Other, Element::TableHead), EventTag::TableHead);
    assert_eq!(make(Element::Other, Element::TableRow), EventTag::TableRow);
    assert_eq!(make(Element::Other, Element::TableCell), EventTag::TableCell);
    assert_eq!(make(Element::Other, Element::Emphasis), EventTag::Emphasis);
    assert_eq!(make(Element::Other, Element::Strong), EventTag::Strong);
    assert_eq!(make(Element::Other, Element::Strikethrough), EventTag::Strikethrough);
    assert_eq!(
        make(Element::Other, Element::Link),
        EventTag::Link("to".to_string(), "title".to_string())
    );
    assert_eq!(
        make(Element::Other, Element::Image),
        EventTag::Image("to".to_string(), "title".to_string())
    );
    assert_eq!(make(Element::Other, Element::Other), EventTag::Other);
    assert_eq!(make(Element::Item, Element::Strong), EventTag::Item);
}

#[test]
fn events_are_made_of_their_parts() {
    let make = |shape| token_from_parts(shape, EventTag::Item, "text".to_string());
    assert_eq!(make(Shape::Start), Token::Start(EventTag::Item));
    assert_eq!(make(Shape::End), Token::End(EventTag::Item));
    assert_eq!(make(Shape::Text), Token::Text("text".to_string()));
    assert_eq!(make(Shape::Code), Token::Code("text".to_string()));
    assert_eq!(make(Shape::SoftBreak), Token::SoftBreak);
    assert_eq!(make(Shape::HardBreak), Token::HardBreak);
    assert_eq!(make(Shape::Rule), Token::Rule);
    assert_eq!(make(Shape::Other), Token::Other);
}

#[test]
fn every_part_of_an_event_is_read() {
    let events = tokenize(
        "## h\n\n3. i\n\n> q\n\n[t](u \"T\") ![a](s) `c` *e* **s**  \nx\ny\n\n---\n\n```js\nk\n```\n\n    indented\n\n<b>\n\n| a |\n|---|\n| 1 |\n",
    );
    let shapes: Vec<String> = events.iter().map(|(event, _)| format!("{:?}", event)).collect();
    assert_eq!(
        shapes,
        vec![
            "Start(Heading(2))",
            "Text(\"h\")",
            "End(Heading(2))",
            "Start(List(Some(3)))",
            "Start(Item)",
            "Text(\"i\")",
            "End(Item)",
            "End(List(Some(3)))",
            "Start(BlockQuote)",
            "Start(Paragraph)",
            "Text(\"q\")",
            "End(Paragraph)",
            "End(BlockQuote)",
            "Start(Paragraph)",
            "Start(Link(\"u\", \"T\"))",
            "Text(\"t\")",
            "End(Link(\"u\", \"T\"))",
            "Text(\" \")",
            "Start(Image(\"s\", \"\"))",
            "Text(\"a\")",
            "End(Image(\"s\", \"\"))",
            "Text(\" \")",
            "Code(\"c\")",
            "Text(\" \")",
            "Start(Emphasis)",
            "Text(\"e\")",
            "End(Emphasis)",
            "Text(\" \")",
            "Start(Strong)",
            "Text(\"s\")",
            "End(Strong)",
            "HardBreak",
            "Text(\"x\")",
            "SoftBreak",
            "Text(\"y\")",
            "End(Paragraph)",
            "Rule",
            "Start(CodeBlock(Fenced(\"js\")))",
            "Text(\"k\\n\")",
            "End(CodeBlock(Fenced(\"js\")))",
            "Start(Paragraph)",
            "Text(\"indented\\n\")",
            "End(Paragraph)",
            "Other",
            "Start(Table)",
            "Start(TableHead)",
            "Start(TableCell)",
            "Text(\"a\")",
            "End(TableCell)",
            "End(TableHead)",
            "Start(TableRow)",
            "Start(TableCell)",
            "Text(\"1\")",
            "End(TableCell)",
            "End(TableRow)",
            "End(Table)",
        ]
    );
}

#[test]
fn indented_code_is_off_and_ranges_lie_in_the_text() {
    for input in [
        "    code {% $x %}\n",
        "a\n\n    b\n    c\n\nd",
        "# h\n\n- i\n\n      deep\n",
        "",
        "{% a %}\n    x\n{% /a %}",
    ] {
        let events = tokenize(input);
        for (event, range) in &events {
            assert!(range.start <= range.end && range.end <= input.len(), "{:?}", input);
            assert!(!matches!(
                event,
                Token::Start(EventTag::CodeBlock(CodeBlockKind::Indented))
                    | Token::End(EventTag::CodeBlock(CodeBlockKind::Indented))
            ));
        }
    }
    let shapes: Vec<String> =
        tokenize("    code {% $x %}\n").iter().map(|(event, _)| format!("{:?}", event)).collect();
    assert_eq!(
        shapes,
        vec![
            "Start(Paragraph)",
            "Text(\"code \")",
            "MarkdocTag(\"{% $x %}\", true)",
            "Text(\"\\n\")",
            "End(Paragraph)",
        ]
    );
}

#[test]
fn as_many_elements_end_as_start() {
    for input in [
        "# h\n\na *b **c** d*\n\n- i\n- j\n\n> q\n",
        "*a\n{% x /%}\nb*",
        "{% a %}\ntext\n{% /a %}\n",
        "| a | b |\n|---|---|\n| 1 | {% $x %} |\n",
        "    was code\n\n```js {% y=1 %}\nlet x;\n```\n",
        "[![i](u)](l) {% b %}in{% /b %}",
    ] {
        let mut depth: i64 = 0;
        for (event, _) in &tokenize(input) {
            match event {
                Token::Start(_) => depth += 1,
                Token::End(_) => depth -= 1,
                _ => {}
            }
            assert!(depth >= 0, "{:?}", input);
        }
        assert_eq!(depth, 0, "{:?}", input);
    }
}

#[test]
fn every_end_closes_what_was_started_last() {
    for input in [
        "# h\n\na *b **c** d* [l ![i](u)](v)\n\n1. i\n   - j\n\n> q\n>\n> r\n",
        "| a | b |\n|---|---|\n| 1 | 2 |\n",
        "```js\nlet x;\n```\n\n~~s~~ `c`\n",
        "",
    ] {
        let mut open: Vec<EventTag> = Vec::new();
        for (event, _) in tokenize(input) {
            match event {
                Token::Start(tag) => open.push(tag),
                Token::End(tag) => assert_eq!(open.pop(), Some(tag), "{:?}", input),
                _ => {}
            }
        }
        assert!(open.is_empty(), "{:?}", input);
    }
}

#[test]
fn a_block_tag_splits_its_paragraph_whatever_is_open() {
    let shapes: Vec<String> =
        tokenize("*a\n{% x /%}\nb*").iter().map(|(event, _)| format!("{:?}", event)).collect();
    assert_eq!(
        shapes,
        vec![
            "Start(Paragraph)",
            "Start(Emphasis)",
            "Text(\"a\")",
            "End(Paragraph)",
            "MarkdocTag(\"{% x /%}\", false)",
            "Start(Paragraph)",
            "Text(\"b\")",
            "End(Emphasis)",
            "End(Paragraph)",
        ]
    );
}
