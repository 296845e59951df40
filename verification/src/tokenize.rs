//! Markdown events: what the tree is built from.

use std::ops::Range;
use vstd::prelude::*;
use vstd::string::*;

verus! {

/// The kind of a code block.
#[derive(Debug, PartialEq)]
pub enum CodeBlockKind {
    Indented,
    /// A fenced block; the text is what follows the opening fence on its line.
    Fenced(String),
}

/// An element that holds other elements.
#[derive(Debug, PartialEq)]
pub enum EventTag {
    Paragraph,
    /// A heading and its level, from 1 to 6.
    Heading(u8),
    BlockQuote,
    CodeBlock(CodeBlockKind),
    /// A list; an ordered one holds the number of its first item.
    List(Option<u64>),
    Item,
    Table,
    TableHead,
    TableRow,
    TableCell,
    Emphasis,
    Strong,
    Strikethrough,
    /// A link: its destination and its title.
    Link(String, String),
    /// An image: its source and its title.
    Image(String, String),
    /// Any other element.
    Other,
}

/// One step of a walk through a Markdown document.
#[derive(Debug, PartialEq)]
pub enum Token {
    Start(EventTag),
    End(EventTag),
    Text(String),
    Code(String),
    SoftBreak,
    HardBreak,
    Rule,
    /// An embedded tag: its text, `{%` and `%}` included, and whether it stands inline.
    MarkdocTag(String, bool),
    /// Anything else.
    Other,
}

/// The events of a document, each with the byte range of the source that it comes from.
pub type Events = Vec<(Token, Range<usize>)>;

/// What an `EventTag` holds.
pub enum EventTagModel {
    Paragraph,
    Heading(u8),
    BlockQuote,
    Indented,
    Fenced(Seq<char>),
    List(Option<u64>),
    Item,
    Table,
    TableHead,
    TableRow,
    TableCell,
    Emphasis,
    Strong,
    Strikethrough,
    Link(Seq<char>, Seq<char>),
    Image(Seq<char>, Seq<char>),
    Other,
}

/// What a `Token` holds.
pub enum TokenModel {
    Start(EventTagModel),
    End(EventTagModel),
    Text(Seq<char>),
    Code(Seq<char>),
    SoftBreak,
    HardBreak,
    Rule,
    MarkdocTag(Seq<char>, bool),
    Other,
}

impl View for EventTag {
    type V = EventTagModel;

    open spec fn view(&self) -> EventTagModel {
        match self {
            EventTag::Paragraph => EventTagModel::Paragraph,
            EventTag::Heading(level) => EventTagModel::Heading(*level),
            EventTag::BlockQuote => EventTagModel::BlockQuote,
            EventTag::CodeBlock(CodeBlockKind::Indented) => EventTagModel::Indented,
            EventTag::CodeBlock(CodeBlockKind::Fenced(info)) => EventTagModel::Fenced(info@),
            EventTag::List(start) => EventTagModel::List(*start),
            EventTag::Item => EventTagModel::Item,
            EventTag::Table => EventTagModel::Table,
            EventTag::TableHead => EventTagModel::TableHead,
            EventTag::TableRow => EventTagModel::TableRow,
            EventTag::TableCell => EventTagModel::TableCell,
            EventTag::Emphasis => EventTagModel::Emphasis,
            EventTag::Strong => EventTagModel::Strong,
            EventTag::Strikethrough => EventTagModel::Strikethrough,
            EventTag::Link(destination, title) => EventTagModel::Link(destination@, title@),
            EventTag::Image(source, title) => EventTagModel::Image(source@, title@),
            EventTag::Other => EventTagModel::Other,
        }
    }
}

impl View for Token {
    type V = TokenModel;

    open spec fn view(&self) -> TokenModel {
        match self {
            Token::Start(tag) => TokenModel::Start(tag@),
            Token::End(tag) => TokenModel::End(tag@),
            Token::Text(text) => TokenModel::Text(text@),
            Token::Code(text) => TokenModel::Code(text@),
            Token::SoftBreak => TokenModel::SoftBreak,
            Token::HardBreak => TokenModel::HardBreak,
            Token::Rule => TokenModel::Rule,
            Token::MarkdocTag(text, inline) => TokenModel::MarkdocTag(text@, *inline),
            Token::Other => TokenModel::Other,
        }
    }
}

impl Clone for EventTag {
    fn clone(&self) -> (copy: EventTag)
        ensures
            copy@ == self@,
    {
        match self {
            EventTag::Paragraph => EventTag::Paragraph,
            EventTag::Heading(level) => EventTag::Heading(*level),
            EventTag::BlockQuote => EventTag::BlockQuote,
            EventTag::CodeBlock(CodeBlockKind::Indented) => EventTag::CodeBlock(
                CodeBlockKind::Indented,
            ),
            EventTag::CodeBlock(CodeBlockKind::Fenced(info)) => EventTag::CodeBlock(
                CodeBlockKind::Fenced(info.clone()),
            ),
            EventTag::List(start) => EventTag::List(*start),
            EventTag::Item => EventTag::Item,
            EventTag::Table => EventTag::Table,
            EventTag::TableHead => EventTag::TableHead,
            EventTag::TableRow => EventTag::TableRow,
            EventTag::TableCell => EventTag::TableCell,
            EventTag::Emphasis => EventTag::Emphasis,
            EventTag::Strong => EventTag::Strong,
            EventTag::Strikethrough => EventTag::Strikethrough,
            EventTag::Link(destination, title) => EventTag::Link(destination.clone(), title.clone()),
            EventTag::Image(source, title) => EventTag::Image(source.clone(), title.clone()),
            EventTag::Other => EventTag::Other,
        }
    }
}

impl Clone for Token {
    fn clone(&self) -> (copy: Token)
        ensures
            copy@ == self@,
    {
        match self {
            Token::Start(tag) => Token::Start(tag.clone()),
            Token::End(tag) => Token::End(tag.clone()),
            Token::Text(text) => Token::Text(text.clone()),
            Token::Code(text) => Token::Code(text.clone()),
            Token::SoftBreak => Token::SoftBreak,
            Token::HardBreak => Token::HardBreak,
            Token::Rule => Token::Rule,
            Token::MarkdocTag(text, inline) => Token::MarkdocTag(text.clone(), *inline),
            Token::Other => Token::Other,
        }
    }
}

/// The models of a list of events, one for one, each with its range.
pub open spec fn events_model(events: Seq<(Token, Range<usize>)>) -> Seq<
    (TokenModel, Range<usize>),
> {
    Seq::new(events.len(), |i: int| (events[i].0@, events[i].1))
}

/// An event of the Markdown tokenizer, `pulldown_cmark::Event`. Nothing is
/// known of what one holds but what the functions below tell of it.
#[verifier::external_type_specification]
#[verifier::external_body]
pub struct ExMarkdownEvent<'a>(pulldown_cmark::Event<'a>);

/// The variants of the tokenizer's events.
#[derive(Clone, Copy, Debug, PartialEq, Eq, Structural)]
pub enum Shape {
    Start,
    End,
    Text,
    Code,
    SoftBreak,
    HardBreak,
    Rule,
    Other,
}

/// The variants of the tokenizer's elements.
#[derive(Clone, Copy, Debug, PartialEq, Eq, Structural)]
pub enum Element {
    Paragraph,
    Heading,
    BlockQuote,
    CodeBlock,
    List,
    Item,
    Table,
    TableHead,
    TableRow,
    TableCell,
    Emphasis,
    Strong,
    Strikethrough,
    Link,
    Image,
    Other,
}

/// Which variant of `pulldown_cmark::Event` an event is. Nothing is claimed of the answer.
#[verifier::external_body]
fn shape_of(event: &pulldown_cmark::Event) -> Shape {
    match event {
        pulldown_cmark::Event::Start(_) => Shape::Start,
        pulldown_cmark::Event::End(_) => Shape::End,
        pulldown_cmark::Event::Text(_) => Shape::Text,
        pulldown_cmark::Event::Code(_) => Shape::Code,
        pulldown_cmark::Event::SoftBreak => Shape::SoftBreak,
        pulldown_cmark::Event::HardBreak => Shape::HardBreak,
        pulldown_cmark::Event::Rule => Shape::Rule,
        _ => Shape::Other,
    }
}

/// Which block variant of `pulldown_cmark::Tag` the element of a start or
/// end event is; `Other` for any other. Nothing is claimed of the answer.
#[verifier::external_body]
fn block_of(event: &pulldown_cmark::Event) -> Element {
    match event {
        pulldown_cmark::Event::Start(tag) | pulldown_cmark::Event::End(tag) => match tag {
            pulldown_cmark::Tag::Paragraph => Element::Paragraph,
            pulldown_cmark::Tag::Heading(..) => Element::Heading,
            pulldown_cmark::Tag::BlockQuote => Element::BlockQuote,
            pulldown_cmark::Tag::CodeBlock(_) => Element::CodeBlock,
            pulldown_cmark::Tag::List(_) => Element::List,
            pulldown_cmark::Tag::Item => Element::Item,
            pulldown_cmark::Tag::Table(_) => Element::Table,
            _ => Element::Other,
        },
        _ => Element::Other,
    }
}

/// Which table or inline variant of `pulldown_cmark::Tag` the element of a
/// start or end event is; `Other` for any other. Nothing is claimed of the answer.
#[verifier::external_body]
fn inline_of(event: &pulldown_cmark::Event) -> Element {
    match event {
        pulldown_cmark::Event::Start(tag) | pulldown_cmark::Event::End(tag) => match tag {
            pulldown_cmark::Tag::TableHead => Element::TableHead,
            pulldown_cmark::Tag::TableRow => Element::TableRow,
            pulldown_cmark::Tag::TableCell => Element::TableCell,
            pulldown_cmark::Tag::Emphasis => Element::Emphasis,
            pulldown_cmark::Tag::Strong => Element::Strong,
            pulldown_cmark::Tag::Strikethrough => Element::Strikethrough,
            pulldown_cmark::Tag::Link(..) => Element::Link,
            pulldown_cmark::Tag::Image(..) => Element::Image,
            _ => Element::Other,
        },
        _ => Element::Other,
    }
}

/// The text that a `Text` or `Code` event of `pulldown_cmark` holds, and no
/// text for any other event. Nothing is claimed of the answer.
#[verifier::external_body]
fn text_of(event: &pulldown_cmark::Event) -> String {
    match event {
        pulldown_cmark::Event::Text(text) => text.to_string(),
        pulldown_cmark::Event::Code(text) => text.to_string(),
        _ => String::new(),
    }
}

/// The level that a `Tag::Heading` of `pulldown_cmark` holds, as its number
/// from 1 to 6, and 0 for any other event. Nothing is claimed of the answer.
#[verifier::external_body]
fn level_of(event: &pulldown_cmark::Event) -> u8 {
    match event {
        pulldown_cmark::Event::Start(pulldown_cmark::Tag::Heading(level, ..)) => *level as u8,
        pulldown_cmark::Event::End(pulldown_cmark::Tag::Heading(level, ..)) => *level as u8,
        _ => 0,
    }
}

/// The number of the first item that a `Tag::List` of `pulldown_cmark`
/// holds. Nothing is claimed of the answer.
#[verifier::external_body]
fn list_start_of(event: &pulldown_cmark::Event) -> Option<u64> {
    match event {
        pulldown_cmark::Event::Start(pulldown_cmark::Tag::List(start)) => *start,
        pulldown_cmark::Event::End(pulldown_cmark::Tag::List(start)) => *start,
        _ => None,
    }
}

/// The text that a `CodeBlockKind::Fenced` of `pulldown_cmark` holds, and
/// nothing for an indented block or another event. Nothing is claimed of the answer.
#[verifier::external_body]
fn info_of(event: &pulldown_cmark::Event) -> Option<String> {
    match event {
        pulldown_cmark::Event::Start(pulldown_cmark::Tag::CodeBlock(kind))
        | pulldown_cmark::Event::End(pulldown_cmark::Tag::CodeBlock(kind)) => match kind {
            pulldown_cmark::CodeBlockKind::Fenced(info) => Some(info.to_string()),
            pulldown_cmark::CodeBlockKind::Indented => None,
        },
        _ => None,
    }
}

/// The destination and the title that a `Tag::Link` or `Tag::Image` of
/// `pulldown_cmark` holds. Nothing is claimed of the answer.
#[verifier::external_body]
fn link_of(event: &pulldown_cmark::Event) -> (String, String) {
    match event {
        pulldown_cmark::Event::Start(tag) | pulldown_cmark::Event::End(tag) => match tag {
            pulldown_cmark::Tag::Link(_, destination, title) => (destination.to_string(), title.to_string()),
            pulldown_cmark::Tag::Image(_, source, title) => (source.to_string(), title.to_string()),
            _ => (String::new(), String::new()),
        },
        _ => (String::new(), String::new()),
    }
}

/// The element of a start or end event.
fn convert_tag(event: &pulldown_cmark::Event) -> EventTag {
    // Every part is asked of the event, whichever of them its variant
    // holds: `tag_from_parts` says which of them the element is made of.
    let block = block_of(event);
    let inline = inline_of(event);
    let level = level_of(event);
    let start = list_start_of(event);
    let info = info_of(event);
    let link = link_of(event);
    tag_from_parts(block, inline, level, start, info, link)
}

/// The event of this library that stands for an event of the tokenizer.
/// The tokenizer knows nothing of embedded tags: whatever the event is, it
/// becomes no tag. What it becomes is what `token_from_parts` makes of its
/// variant, its element and its text.
fn convert_event(event: &pulldown_cmark::Event) -> (token: Token)
    ensures
        !(token@ is MarkdocTag),
{
    let shape = shape_of(event);
    let tag = convert_tag(event);
    let text = text_of(event);
    token_from_parts(shape, tag, text)
}

/// The events that the CommonMark tokenizer, with tables enabled, gives for a text.
pub uninterp spec fn commonmark(input: Seq<char>) -> Seq<(TokenModel, Range<usize>)>;

/// Runs `pulldown_cmark::Parser::new_ext` with `Options::ENABLE_TABLES` on
/// the text and collects what its `into_offset_iter` yields, each event
/// converted by `convert_event`. The tokenizer is a function of the text
/// alone, and its result is named `commonmark`. Its events are those of a
/// walk through the tree of the document, a start event on the way into an
/// element and an end event with the same element on the way out, so they
/// are nested. No more is claimed of it.
#[verifier::external_body]
fn commonmark_events(input: &str) -> (events: Events)
    ensures
        events_model(events@) == commonmark(input@),
        crate::nesting::nested(events_model(events@)),
{
    let mut options = pulldown_cmark::Options::empty();
    options.insert(pulldown_cmark::Options::ENABLE_TABLES);
    pulldown_cmark::Parser::new_ext(input, options)
        .into_offset_iter()
        .map(|(event, range)| (convert_event(&event), range))
        .collect()
}

/// The events of a document whose bytes are `s`, given what the tokenizer
/// made of it: the tags are cut out of the text, and those that stand for
/// blocks are moved out of their paragraphs.
pub open spec fn tokenized(s: Seq<u8>, raw: Seq<(TokenModel, Range<usize>)>) -> Seq<
    (TokenModel, Range<usize>),
> {
    crate::embed::restructured_from(crate::embed::carved_from(s, raw, 0, 0, Seq::empty(), false), 0)
}

/// The events of a document: those of CommonMark with tables, and the
/// embedded tags. Indented code is off: what the tokenizer takes for an
/// indented code block comes as a paragraph. The range of every event lies
/// in the text. The events are balanced: at no place have more elements
/// ended than have started, and in the end as many.
pub fn tokenize(input: &str) -> (events: Events)
    ensures
        events_model(events@) == tokenized(input.spec_bytes(), commonmark(input@)),
        crate::embed::tidy(events_model(events@), input.spec_bytes().len() as int),
        crate::nesting::balanced(events_model(events@)),
{
    let length = input.as_bytes().len();
    let raw = commonmark_events(input);
    proof {
        crate::nesting::lemma_tokenized_balanced(input.spec_bytes(), events_model(raw@));
        crate::embed::lemma_carved_tidy(
            input.spec_bytes(),
            commonmark(input@),
            0,
            0,
            Seq::empty(),
            false,
        );
        crate::embed::lemma_restructured_tidy(
            crate::embed::carved_from(
                input.spec_bytes(),
                commonmark(input@),
                0,
                0,
                Seq::empty(),
                false,
            ),
            0,
            input.spec_bytes().len() as int,
        );
    }
    let carved = crate::embed::carve(input, &raw);
    crate::embed::restructure(&carved)
}

/// The variant of an element, given what the two questions about it
/// answered: the block variant, or else the table or inline variant.
pub open spec fn element_of(block: Element, inline: Element) -> Element {
    if block == Element::Other {
        inline
    } else {
        block
    }
}

/// The element that the parts of a start or end event make up: a heading
/// holds the level, a list the number of its first item, a code block is
/// fenced where there is text after its fence and indented otherwise, a link
/// and an image hold the destination and the title. No other part counts.
pub open spec fn tag_of_parts(
    block: Element,
    inline: Element,
    level: u8,
    start: Option<u64>,
    info: Option<Seq<char>>,
    destination: Seq<char>,
    title: Seq<char>,
) -> EventTagModel {
    match element_of(block, inline) {
        Element::Paragraph => EventTagModel::Paragraph,
        Element::Heading => EventTagModel::Heading(level),
        Element::BlockQuote => EventTagModel::BlockQuote,
        Element::CodeBlock => match info {
            Some(text) => EventTagModel::Fenced(text),
            None => EventTagModel::Indented,
        },
        Element::List => EventTagModel::List(start),
        Element::Item => EventTagModel::Item,
        Element::Table => EventTagModel::Table,
        Element::TableHead => EventTagModel::TableHead,
        Element::TableRow => EventTagModel::TableRow,
        Element::TableCell => EventTagModel::TableCell,
        Element::Emphasis => EventTagModel::Emphasis,
        Element::Strong => EventTagModel::Strong,
        Element::Strikethrough => EventTagModel::Strikethrough,
        Element::Link => EventTagModel::Link(destination, title),
        Element::Image => EventTagModel::Image(destination, title),
        Element::Other => EventTagModel::Other,
    }
}

/// The event that a variant, an element and a text make up: a start or an
/// end holds the element, text and code hold the text, and the others hold nothing.
pub open spec fn token_of_parts(shape: Shape, tag: EventTagModel, text: Seq<char>) -> TokenModel {
    match shape {
        Shape::Start => TokenModel::Start(tag),
        Shape::End => TokenModel::End(tag),
        Shape::Text => TokenModel::Text(text),
        Shape::Code => TokenModel::Code(text),
        Shape::SoftBreak => TokenModel::SoftBreak,
        Shape::HardBreak => TokenModel::HardBreak,
        Shape::Rule => TokenModel::Rule,
        Shape::Other => TokenModel::Other,
    }
}

/// The element that the parts of a start or end event make up.
pub fn tag_from_parts(
    block: Element,
    inline: Element,
    level: u8,
    start: Option<u64>,
    info: Option<String>,
    link: (String, String),
) -> (tag: EventTag)
    ensures
        tag@ == tag_of_parts(
            block,
            inline,
            level,
            start,
            match info {
                Some(text) => Some(text@),
                None => None,
            },
            link.0@,
            link.1@,
        ),
{
    let element = if block == Element::Other {
        inline
    } else {
        block
    };
    match element {
        Element::Paragraph => EventTag::Paragraph,
        Element::Heading => EventTag::Heading(level),
        Element::BlockQuote => EventTag::BlockQuote,
        Element::CodeBlock => match info {
            Some(text) => EventTag::CodeBlock(CodeBlockKind::Fenced(text)),
            None => EventTag::CodeBlock(CodeBlockKind::Indented),
        },
        Element::List => EventTag::List(start),
        Element::Item => EventTag::Item,
        Element::Table => EventTag::Table,
        Element::TableHead => EventTag::TableHead,
        Element::TableRow => EventTag::TableRow,
        Element::TableCell => EventTag::TableCell,
        Element::Emphasis => EventTag::Emphasis,
        Element::Strong => EventTag::Strong,
        Element::Strikethrough => EventTag::Strikethrough,
        Element::Link => EventTag::Link(link.0, link.1),
        Element::Image => EventTag::Image(link.0, link.1),
        Element::Other => EventTag::Other,
    }
}

/// The event that a variant, an element and a text make up.
pub fn token_from_parts(shape: Shape, tag: EventTag, text: String) -> (token: Token)
    ensures
        token@ == token_of_parts(shape, tag@, text@),
{
    match shape {
        Shape::Start => Token::Start(tag),
        Shape::End => Token::End(tag),
        Shape::Text => Token::Text(text),
        Shape::Code => Token::Code(text),
        Shape::SoftBreak => Token::SoftBreak,
        Shape::HardBreak => Token::HardBreak,
        Shape::Rule => Token::Rule,
        Shape::Other => Token::Other,
    }
}

} // verus!
