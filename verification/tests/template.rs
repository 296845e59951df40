use markdoc::template::parse;
use markdoc::tokenize::Token;

fn shapes(input: &str) -> Vec<String> {
    parse(input).iter().map(|(event, range)| format!("{:?} {:?}", event, range)).collect()
}

#[test]
fn basic_template_parsing() {
    assert_eq!(
        shapes("this is a {% foo blah=\"asdf\" %}test{% /foo %} of template parsing"),
        vec![
            "Text(\"this is a \") 0..10",
            "MarkdocTag(\"{% foo blah=\\\"asdf\\\" %}\", true) 10..31",
            "Text(\"test\") 31..35",
            "MarkdocTag(\"{% /foo %}\", true) 35..45",
            "Text(\" of template parsing\") 45..65",
        ]
    );
}

#[test]
fn template_parsing_with_block_tag() {
    assert_eq!(
        shapes("this is a test\n{% foo blah=\"asdf\" %}\ntest\n{% /foo %}\n"),
        vec![
            "Text(\"this is a test\") 0..14",
            "MarkdocTag(\"{% foo blah=\\\"asdf\\\" %}\", true) 15..36",
            "Text(\"\\ntest\") 36..41",
            "MarkdocTag(\"{% /foo %}\", true) 42..52",
            "Text(\"\\n\") 52..53",
        ]
    );
}

#[test]
fn template_without_tags_is_one_text() {
    assert_eq!(shapes("plain {% text"), vec!["Text(\"plain {% text\") 0..13"]);
    assert_eq!(shapes(""), vec!["Text(\"\") 0..0"]);
    assert!(matches!(parse("x")[0].0, Token::Text(_)));
}

#[test]
fn template_keeps_text_of_other_scripts() {
    assert_eq!(
        shapes("é {% a %} ü"),
        vec!["Text(\"é \") 0..3", "MarkdocTag(\"{% a %}\", true) 3..10", "Text(\" ü\") 10..13"]
    );
}
