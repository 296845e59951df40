//! Building the tree of a document from its events.

use crate::model::node::{
    keyed_node, keyed_nodes, Document, Error, ErrorLevel, ErrorModel, Node, NodeModel, NodeRef,
    Type,
};
use crate::model::value::{
    extended, inserted, keyed, keyed_entries, number_of_int, Attributes, AttributesModel, Number,
    Value, ValueModel,
};
use crate::tag::{tag_of, Tag, TagModel};
use crate::template::{next_line_feed, template_from};
use crate::text::{
    find_dashes, frontmatter_end, lemma_next_dashes, same_text, slice, text_between, trim, trimmed,
};
use crate::tokenize::{
    events_model, CodeBlockKind, Token, TokenModel, EventTag, EventTagModel, Events,
};
use std::ops::Range;
use vstd::prelude::*;
use vstd::string::*;
use vstd::utf8::encode_utf8;

verus! {

/// The state of a build: the nodes made so far, the open nodes from the
/// root down, the node that annotations go to, and two flags.
pub struct BuildModel {
    pub nodes: Seq<NodeModel>,
    /// The open nodes; the last is the current parent.
    pub stack: Seq<NodeRef>,
    /// The node that was the parent when the inline container was opened.
    pub inline_parent: Option<NodeRef>,
    /// Whether the build is inside the head of a table.
    pub inside_thead: bool,
    /// Whether the build is inside a fenced code block, whose text is left out.
    pub inside_fence: bool,
}

/// A node of a kind at a place in the source, with nothing else set.
pub open spec fn plain_node(kind: Type, location: Option<Range<usize>>) -> NodeModel {
    NodeModel { kind, tag: None, attributes: None, children: None, location, errors: None }
}

/// A node of a kind at a place in the source, with attributes.
pub open spec fn node_with(kind: Type, location: Range<usize>, attributes: AttributesModel)
    -> NodeModel {
    NodeModel {
        kind,
        tag: None,
        attributes: Some(attributes),
        children: None,
        location: Some(location),
        errors: None,
    }
}

/// The attributes that hold one entry.
pub open spec fn one_attribute(key: Seq<char>, value: ValueModel) -> AttributesModel {
    inserted(Seq::empty(), key, value)
}

impl BuildModel {
    /// The current parent, if any node is open.
    pub open spec fn top(self) -> Option<NodeRef> {
        if self.stack.len() > 0 {
            Some(self.stack.last())
        } else {
            None
        }
    }

    /// Whether the current parent is a node of the tree and of a kind.
    pub open spec fn top_is(self, kind: Type) -> bool {
        self.stack.len() > 0 && self.stack.last() < self.nodes.len()
            && self.nodes[self.stack.last() as int].kind == kind
    }

    /// The state after `child` is added to the tree, as the last child of
    /// the current parent where there is one, and opened where `push` is set.
    pub open spec fn add_child(self, child: NodeModel, push: bool) -> BuildModel {
        let place = self.nodes.len() as usize;
        let added = self.nodes.push(child);
        BuildModel {
            nodes: if self.stack.len() > 0 && self.stack.last() < self.nodes.len() {
                added.update(
                    self.stack.last() as int,
                    added[self.stack.last() as int].with_child(place),
                )
            } else {
                added
            },
            stack: if push {
                self.stack.push(place)
            } else {
                self.stack
            },
            ..self
        }
    }

    /// The state after the current parent is closed.
    pub open spec fn pop(self) -> BuildModel {
        BuildModel {
            stack: if self.stack.len() > 0 {
                self.stack.drop_last()
            } else {
                self.stack
            },
            ..self
        }
    }
}

/// The kind of node that an element stands for.
pub open spec fn tag_type(tag: EventTagModel) -> Type {
    match tag {
        EventTagModel::Paragraph => Type::Paragraph,
        EventTagModel::Heading(_) => Type::Heading,
        EventTagModel::BlockQuote => Type::Blockquote,
        EventTagModel::Indented => Type::Fence,
        EventTagModel::Fenced(_) => Type::Fence,
        EventTagModel::List(_) => Type::List,
        EventTagModel::Item => Type::Item,
        EventTagModel::Table => Type::Table,
        EventTagModel::TableHead => Type::TableHead,
        EventTagModel::TableRow => Type::TableRow,
        EventTagModel::TableCell => Type::TableCell,
        EventTagModel::Emphasis => Type::Emphasis,
        EventTagModel::Strong => Type::Strong,
        EventTagModel::Strikethrough => Type::Strike,
        EventTagModel::Link(_, _) => Type::Link,
        EventTagModel::Image(_, _) => Type::Image,
        EventTagModel::Other => Type::Nop,
    }
}

/// The kind of node that an event stands for.
pub open spec fn event_kind(event: TokenModel) -> Type {
    match event {
        TokenModel::Start(tag) => tag_type(tag),
        TokenModel::End(tag) => tag_type(tag),
        TokenModel::Text(_) => Type::Text,
        TokenModel::Code(_) => Type::Code,
        TokenModel::SoftBreak => Type::SoftBreak,
        TokenModel::HardBreak => Type::HardBreak,
        TokenModel::Rule => Type::Rule,
        TokenModel::MarkdocTag(_, inline) => Type::Tag(inline),
        TokenModel::Other => Type::Nop,
    }
}

/// A range moved by `offset`, and held at the largest place where that is too far.
pub open spec fn shifted(range: Range<usize>, offset: usize) -> Range<usize> {
    Range { start: range.start.saturating_add(offset), end: range.end.saturating_add(offset) }
}

/// The state before an event of `kind` is handled. Where inline containers
/// are made, an inline event that has none gets one: an `Inline` node under
/// the current parent, which is remembered. An event that is not inline
/// closes the inline container that is the current parent.
#[verifier::opaque]
pub open spec fn prepared(state: BuildModel, kind: Type, add_inlines: bool) -> BuildModel {
    let opened = if add_inlines && state.inline_parent is None && kind.spec_is_inline() {
        BuildModel {
            inline_parent: state.top(),
            ..state.add_child(plain_node(Type::Inline, None), true)
        }
    } else {
        state
    };
    if !kind.spec_is_inline() && opened.top_is(Type::Inline) {
        BuildModel { inline_parent: None, ..opened.pop() }
    } else {
        opened
    }
}

/// The last child of the current parent, where it is a text node whose
/// content is a string that new text is appended to: any string but a single space.
pub open spec fn open_text(state: BuildModel) -> Option<(NodeRef, Seq<char>)> {
    if state.stack.len() > 0 && state.stack.last() < state.nodes.len() {
        let children = state.nodes[state.stack.last() as int].child_list();
        if children.len() > 0 && children.last() < state.nodes.len() {
            let node = state.nodes[children.last() as int];
            match node.attribute("content"@) {
                Some(ValueModel::String(held)) => if node.kind == Type::Text && held != " "@ {
                    Some((children.last(), held))
                } else {
                    None
                },
                _ => None,
            }
        } else {
            None
        }
    } else {
        None
    }
}

/// The state after text: it is appended to the text node before it, or, where
/// there is none to append to or the text is a single space, becomes a new
/// text node under the current parent.
#[verifier::opaque]
pub open spec fn with_text(state: BuildModel, text: Seq<char>, location: Range<usize>)
    -> BuildModel {
    match open_text(state) {
        Some((place, held)) => if text != " "@ {
            BuildModel {
                nodes: state.nodes.update(
                    place as int,
                    state.nodes[place as int].with_attribute(
                        "content"@,
                        ValueModel::String(held + text),
                    ),
                ),
                ..state
            }
        } else {
            state.add_child(
                node_with(Type::Text, location, one_attribute("content"@, ValueModel::String(text))),
                false,
            )
        },
        None => state.add_child(
            node_with(Type::Text, location, one_attribute("content"@, ValueModel::String(text))),
            false,
        ),
    }
}

/// The message of the error for a closing tag without an opening one.
pub open spec fn missing_opening_message(name: Seq<char>) -> Seq<char> {
    "Tag '"@ + name + "' is missing opening"@
}

/// The node for a closing tag that closes nothing.
pub open spec fn missing_opening_node(name: Seq<char>, inline: bool, location: Range<usize>)
    -> NodeModel {
    NodeModel {
        kind: Type::Tag(inline),
        tag: Some(name),
        attributes: None,
        children: None,
        location: Some(location),
        errors: Some(
            seq![
                ErrorModel {
                    id: "missing-opening"@,
                    level: ErrorLevel::Critical,
                    message: missing_opening_message(name),
                    location: Some(location),
                },
            ],
        ),
    }
}

/// The node for a tag that the grammar does not recognize.
pub open spec fn syntax_error_node(text: Seq<char>, location: Range<usize>) -> NodeModel {
    NodeModel {
        kind: Type::Error,
        tag: None,
        attributes: None,
        children: None,
        location: Some(location),
        errors: Some(
            seq![
                ErrorModel {
                    id: "syntax-error"@,
                    level: ErrorLevel::Critical,
                    message: crate::tag::syntax_message(text),
                    location: Some(location),
                },
            ],
        ),
    }
}

/// Whether the current parent is a node with the tag name `name`.
pub open spec fn top_has_tag(state: BuildModel, name: Seq<char>) -> bool {
    state.stack.len() > 0 && state.stack.last() < state.nodes.len()
        && state.nodes[state.stack.last() as int].tag == Some(name)
}

/// The state after an embedded tag. An opening tag becomes an open node and
/// a self-closing one a child. A closing tag closes the current parent where
/// that has its name, and otherwise becomes a child with the error
/// `missing-opening`. An annotation sets its attributes on the parent of the
/// inline container. A value becomes a text node that holds it. Anything
/// else becomes an `Error` node with the error `syntax-error`.
#[verifier::opaque]
pub open spec fn with_tag(state: BuildModel, tag: TagModel, inline: bool, location: Range<usize>)
    -> BuildModel {
    match tag {
        TagModel::Open(name, attributes) => state.add_child(
            NodeModel {
                kind: Type::Tag(inline),
                tag: Some(name),
                attributes,
                children: None,
                location: Some(location),
                errors: None,
            },
            true,
        ),
        TagModel::Standalone(name, attributes) => state.add_child(
            NodeModel {
                kind: Type::Tag(inline),
                tag: Some(name),
                attributes,
                children: None,
                location: Some(location),
                errors: None,
            },
            false,
        ),
        TagModel::Close(name) => if top_has_tag(state, name) {
            state.pop()
        } else {
            state.add_child(missing_opening_node(name, inline, location), false)
        },
        TagModel::Annotation(attributes) => match state.inline_parent {
            Some(place) => if place < state.nodes.len() {
                BuildModel {
                    nodes: state.nodes.update(
                        place as int,
                        state.nodes[place as int].with_attributes(attributes),
                    ),
                    ..state
                }
            } else {
                state
            },
            None => state,
        },
        TagModel::Value(value) => state.add_child(
            node_with(Type::Text, location, one_attribute("content"@, value)),
            false,
        ),
        TagModel::Error(text) => state.add_child(syntax_error_node(text, location), false),
    }
}

/// The attributes of a link or an image: its destination under `key`, and
/// its title where that is not empty.
pub open spec fn link_attributes(key: Seq<char>, destination: Seq<char>, title: Seq<char>)
    -> AttributesModel {
    let first = one_attribute(key, ValueModel::String(destination));
    if title.len() == 0 {
        first
    } else {
        inserted(first, "title"@, ValueModel::String(title))
    }
}

/// The attributes of a list: whether it is ordered, and the number of its first item.
pub open spec fn list_attributes(start: Option<u64>) -> AttributesModel {
    match start {
        Some(number) => inserted(
            one_attribute("ordered"@, ValueModel::Boolean(true)),
            "number"@,
            ValueModel::Number(number_of_int(number as int)),
        ),
        None => one_attribute("ordered"@, ValueModel::Boolean(false)),
    }
}

/// Whether a byte is one of the white space that separates the words of a fence's first line.
pub open spec fn is_separator(byte: u8) -> bool {
    byte == 0x20 || byte == 0x09 || byte == 0x0a || byte == 0x0c || byte == 0x0d
}

/// Where the first word at or after `pos` begins that stands outside any
/// tag: white space and tags before it are passed over. The length where
/// there is no such word.
pub open spec fn word_start(s: Seq<u8>, pos: int) -> int
    decreases s.len() - pos,
{
    if pos < 0 || pos >= s.len() {
        s.len() as int
    } else if is_separator(s[pos]) {
        word_start(s, pos + 1)
    } else if crate::scan::tag_end_at(s, pos) is Some {
        if pos < crate::scan::tag_end_at(s, pos).unwrap() <= s.len() {
            word_start(s, crate::scan::tag_end_at(s, pos).unwrap())
        } else {
            s.len() as int
        }
    } else {
        pos
    }
}

/// Where the word that stands at `pos` ends: at white space, at a tag, or at the end.
pub open spec fn word_end(s: Seq<u8>, pos: int) -> int
    decreases s.len() - pos,
{
    if pos < 0 || pos >= s.len() || is_separator(s[pos]) || crate::scan::tag_end_at(s, pos)
        is Some {
        pos
    } else {
        word_end(s, pos + 1)
    }
}

/// The language that the text after an opening fence names: its first word
/// outside any tag.
pub open spec fn fence_language(info: Seq<u8>) -> Option<Seq<char>> {
    let start = word_start(info, 0);
    let end = word_end(info, start);
    if end > start {
        Some(text_between(info, start, end))
    } else {
        None
    }
}

/// Whether the source in `range` holds a line feed.
pub open spec fn has_line_feed(s: Seq<u8>, range: Range<usize>) -> bool {
    range.start <= range.end <= s.len() && next_line_feed(s, range.start as int) < range.end
}

/// The position of the last line feed before `pos` and not before `from`; `from` where there is none.
pub open spec fn last_feed(s: Seq<u8>, from: int, pos: int) -> int
    decreases pos - from,
{
    if pos <= from || pos > s.len() || pos <= 0 {
        from
    } else if s[pos - 1] == 0x0a {
        pos - 1
    } else {
        last_feed(s, from, pos - 1)
    }
}

/// The attributes that the annotation on the first line of a fenced block
/// gives: those of the first tag on that line, where it is an annotation.
pub open spec fn fence_annotation(line: Seq<u8>) -> Option<AttributesModel> {
    match crate::template::next_tag(line, 0) {
        Some((start, end)) => match tag_of(encode_utf8(text_between(line, start, end))) {
            TagModel::Annotation(attributes) => Some(attributes),
            _ => None,
        },
        None => None,
    }
}

/// The text of a fenced block: what stands after the first line feed of
/// its source, up to and with the last one.
pub open spec fn fence_body(s: Seq<u8>, range: Range<usize>) -> Seq<char> {
    text_between(
        s,
        next_line_feed(s, range.start as int) + 1,
        last_feed(s, next_line_feed(s, range.start as int), range.end as int) + 1,
    )
}

/// The attributes of a fenced block: its language, the attributes of the
/// annotation on its first line, and its text under `content`. A block whose
/// source holds no line feed has only its language.
#[verifier::opaque]
pub open spec fn fence_attributes(s: Seq<u8>, info: Seq<char>, range: Range<usize>)
    -> AttributesModel {
    let named: AttributesModel = match fence_language(encode_utf8(info)) {
        Some(language) => one_attribute("language"@, ValueModel::String(language)),
        None => Seq::empty(),
    };
    if has_line_feed(s, range) {
        let line = encode_utf8(
            text_between(s, range.start as int, next_line_feed(s, range.start as int)),
        );
        let annotated = match fence_annotation(line) {
            Some(attributes) => extended(named, attributes),
            None => named,
        };
        inserted(annotated, "content"@, ValueModel::String(fence_body(s, range)))
    } else {
        named
    }
}

/// The state after the opening of a fenced block: a `Fence` node is opened,
/// and, where `depth` allows, the tags and the text that its body holds
/// become its children, without inline containers.
pub open spec fn with_fence(
    s: Seq<u8>,
    state: BuildModel,
    info: Seq<char>,
    range: Range<usize>,
    offset: usize,
    depth: nat,
) -> BuildModel
    decreases depth, 0int,
{
    let opened = BuildModel {
        inside_fence: true,
        ..state.add_child(
            node_with(Type::Fence, shifted(range, offset), fence_attributes(s, info, range)),
            true,
        )
    };
    if depth > 0 && has_line_feed(s, range) {
        let body = encode_utf8(fence_body(s, range));
        let inner = build_from(
            body,
            BuildModel {
                inline_parent: None,
                inside_thead: false,
                inside_fence: false,
                ..opened
            },
            template_from(body, 0),
            0,
            offset.saturating_add((next_line_feed(s, range.start as int) + 1) as usize),
            false,
            (depth - 1) as nat,
        );
        BuildModel { nodes: inner.nodes, stack: inner.stack, ..opened }
    } else {
        opened
    }
}

/// The state after the start of an element: a node of its kind is opened.
/// A heading holds its `level`, a list whether it is `ordered` and its first
/// `number`, a link its `href` and an image its `src`, both with a `title`
/// that is not empty. The head of a table opens a row as well, and cells
/// inside it are head cells.
pub open spec fn after_start(
    s: Seq<u8>,
    ready: BuildModel,
    tag: EventTagModel,
    range: Range<usize>,
    offset: usize,
    depth: nat,
) -> BuildModel
    decreases depth, 1int,
{
    let location = shifted(range, offset);
    let kind = tag_type(tag);
    match tag {
        EventTagModel::Heading(level) => ready.add_child(
            node_with(
                kind,
                location,
                one_attribute("level"@, ValueModel::Number(number_of_int(level as int))),
            ),
            true,
        ),
        EventTagModel::List(start) => ready.add_child(
            node_with(kind, location, list_attributes(start)),
            true,
        ),
        EventTagModel::Link(destination, title) => ready.add_child(
            node_with(kind, location, link_attributes("href"@, destination, title)),
            true,
        ),
        EventTagModel::Image(source, title) => ready.add_child(
            node_with(kind, location, link_attributes("src"@, source, title)),
            true,
        ),
        EventTagModel::Fenced(info) => with_fence(s, ready, info, range, offset, depth),
        EventTagModel::TableHead => BuildModel {
            inside_thead: true,
            ..ready.add_child(plain_node(Type::TableHead, Some(location)), true).add_child(
                plain_node(Type::TableRow, Some(location)),
                true,
            )
        },
        EventTagModel::TableCell => ready.add_child(
            plain_node(
                if ready.inside_thead {
                    Type::TableHeadCell
                } else {
                    Type::TableCell
                },
                Some(location),
            ),
            true,
        ),
        _ => ready.add_child(plain_node(kind, Some(location)), true),
    }
}

/// The state after the end of an element: the current parent is closed. The
/// end of a table's head closes its row too and opens the table's body; the
/// end of a table closes its body first.
pub open spec fn after_end(ready: BuildModel, tag: EventTagModel) -> BuildModel {
    match tag {
        EventTagModel::TableHead => BuildModel {
            inside_thead: false,
            ..ready.pop().pop().add_child(plain_node(Type::TableBody, None), true)
        },
        EventTagModel::Table => if ready.top_is(Type::TableBody) {
            ready.pop().pop()
        } else {
            ready.pop()
        },
        EventTagModel::Indented | EventTagModel::Fenced(_) => BuildModel {
            inside_fence: false,
            ..ready.pop()
        },
        _ => ready.pop(),
    }
}

/// The state after one event.
pub open spec fn after_event(
    s: Seq<u8>,
    state: BuildModel,
    event: TokenModel,
    range: Range<usize>,
    offset: usize,
    add_inlines: bool,
    depth: nat,
) -> BuildModel
    decreases depth, 2int,
{
    let location = shifted(range, offset);
    let kind = event_kind(event);
    let ready = prepared(state, kind, add_inlines);
    match event {
        TokenModel::Text(text) => if state.inside_fence {
            state
        } else {
            with_text(ready, text, location)
        },
        TokenModel::Code(text) => if state.inside_fence {
            state
        } else {
            ready.add_child(
                node_with(Type::Code, location, one_attribute("content"@, ValueModel::String(text))),
                false,
            )
        },
        TokenModel::SoftBreak | TokenModel::HardBreak | TokenModel::Rule => ready.add_child(
            plain_node(kind, Some(location)),
            false,
        ),
        TokenModel::MarkdocTag(text, inline) => with_tag(
            ready,
            tag_of(encode_utf8(text)),
            inline,
            location,
        ),
        TokenModel::Start(tag) => after_start(s, ready, tag, range, offset, depth),
        TokenModel::End(tag) => after_end(ready, tag),
        TokenModel::Other => ready,
    }
}

/// The state after the events from `index` on.
pub open spec fn build_from(
    s: Seq<u8>,
    state: BuildModel,
    events: Seq<(TokenModel, Range<usize>)>,
    index: int,
    offset: usize,
    add_inlines: bool,
    depth: nat,
) -> BuildModel
    decreases depth, 3 + events.len() - index,
{
    if index < 0 || index >= events.len() {
        state
    } else {
        build_from(
            s,
            after_event(s, state, events[index].0, events[index].1, offset, add_inlines, depth),
            events,
            index + 1,
            offset,
            add_inlines,
            depth,
        )
    }
}

/// The state at the start of a run of events: nothing is remembered from before.
pub open spec fn start_state(nodes: Seq<NodeModel>, stack: Seq<NodeRef>) -> BuildModel {
    BuildModel { nodes, stack, inline_parent: None, inside_thead: false, inside_fence: false }
}

/// What a build remembers between events, besides the tree and the open nodes.
#[derive(Clone, Copy, Debug)]
pub struct Flags {
    pub inline_parent: Option<NodeRef>,
    pub inside_thead: bool,
    pub inside_fence: bool,
}

/// The state that a tree, a list of open nodes and flags make up.
pub open spec fn state_of(nodes: Seq<NodeModel>, stack: Seq<NodeRef>, flags: Flags) -> BuildModel {
    BuildModel {
        nodes,
        stack,
        inline_parent: flags.inline_parent,
        inside_thead: flags.inside_thead,
        inside_fence: flags.inside_fence,
    }
}

/// The kind of node that an event stands for.
pub fn event_type(event: &Token) -> (kind: Type)
    ensures
        kind == event_kind(event@),
{
    match event {
        Token::Start(tag) | Token::End(tag) => match tag {
            EventTag::Paragraph => Type::Paragraph,
            EventTag::Heading(_) => Type::Heading,
            EventTag::BlockQuote => Type::Blockquote,
            EventTag::CodeBlock(_) => Type::Fence,
            EventTag::List(_) => Type::List,
            EventTag::Item => Type::Item,
            EventTag::Table => Type::Table,
            EventTag::TableHead => Type::TableHead,
            EventTag::TableRow => Type::TableRow,
            EventTag::TableCell => Type::TableCell,
            EventTag::Emphasis => Type::Emphasis,
            EventTag::Strong => Type::Strong,
            EventTag::Strikethrough => Type::Strike,
            EventTag::Link(_, _) => Type::Link,
            EventTag::Image(_, _) => Type::Image,
            EventTag::Other => Type::Nop,
        },
        Token::Text(_) => Type::Text,
        Token::Code(_) => Type::Code,
        Token::SoftBreak => Type::SoftBreak,
        Token::HardBreak => Type::HardBreak,
        Token::Rule => Type::Rule,
        Token::MarkdocTag(_, inline) => Type::Tag(*inline),
        Token::Other => Type::Nop,
    }
}

/// Adds `child` to the tree, as the last child of the current parent where
/// there is one, and opens it where `push` is set.
pub fn add_child(document: &mut Document, nodes: &mut Vec<NodeRef>, child: Node, push: bool)
    ensures
        final(document).slots == old(document).slots,
        final(document)@ == start_state(old(document)@, old(nodes)@).add_child(child@, push).nodes,
        final(nodes)@ == start_state(old(document)@, old(nodes)@).add_child(child@, push).stack,
        keyed_nodes(old(document)@) && keyed_node(child@) ==> keyed_nodes(final(document)@),
{
    let place = document.nodes.len();
    let ghost before = document@;
    document.nodes.push(child);
    assert(document@ =~= before.push(child@));
    proof {
        if keyed_nodes(before) && keyed_node(child@) {
            let after = start_state(before, nodes@).add_child(child@, push).nodes;
            assert forall|i: int| 0 <= i < after.len() implies keyed_node(#[trigger] after[i]) by {
                if i < before.len() {
                    assert(keyed_node(before[i]));
                }
            }
        }
    }
    if nodes.len() > 0 {
        let top = nodes[nodes.len() - 1];
        if top < place {
            let ghost added = document@;
            let parent = &mut document.nodes[top];
            parent.push(place);
            assert(document@ =~= added.update(top as int, added[top as int].with_child(place)));
        }
    }
    if push {
        nodes.push(place);
    }
}

/// Whether the current parent is a node of the tree and of a kind.
pub fn parent_kind(document: &Document, nodes: &Vec<NodeRef>, kind: Type) -> (found: bool)
    ensures
        found == start_state(document@, nodes@).top_is(kind),
{
    if nodes.len() == 0 {
        return false;
    }
    let top = nodes[nodes.len() - 1];
    top < document.nodes.len() && document.nodes[top].kind == kind
}

/// Makes the state ready for an event of `kind`.
fn prepare(
    document: &mut Document,
    nodes: &mut Vec<NodeRef>,
    flags: &mut Flags,
    kind: Type,
    add_inlines: bool,
)
    ensures
        final(document).slots == old(document).slots,
        state_of(final(document)@, final(nodes)@, *final(flags)) == prepared(
            state_of(old(document)@, old(nodes)@, *old(flags)),
            kind,
            add_inlines,
        ),
        keyed_nodes(old(document)@) ==> keyed_nodes(final(document)@),
{
    reveal(prepared);
    if add_inlines && flags.inline_parent.is_none() && kind.is_inline() {
        if nodes.len() > 0 {
            flags.inline_parent = Some(nodes[nodes.len() - 1]);
        }
        add_child(document, nodes, Node::new(Type::Inline), true);
    }
    if !kind.is_inline() && parent_kind(document, nodes, Type::Inline) {
        flags.inline_parent = None;
        nodes.pop();
    }
}

/// The attributes that hold one entry.
fn single(key: &str, value: Value) -> (attributes: Attributes)
    ensures
        attributes@ == one_attribute(key@, value@),
        keyed(value@) ==> keyed_entries(attributes@),
{
    let mut attributes = Attributes::new();
    attributes.insert(String::from_str(key), value);
    attributes
}

/// A node of a kind at a place in the source, with nothing else set.
fn plain(kind: Type, location: Option<Range<usize>>) -> (node: Node)
    ensures
        node@ == plain_node(kind, location),
{
    Node { kind, tag: None, attributes: None, children: None, location, errors: None }
}

/// A node of a kind at a place in the source, with attributes.
fn node_of(kind: Type, location: Range<usize>, attributes: Attributes) -> (node: Node)
    ensures
        node@ == node_with(kind, location, attributes@),
{
    Node {
        kind,
        tag: None,
        attributes: Some(attributes),
        children: None,
        location: Some(location),
        errors: None,
    }
}

/// A copy of a range.
fn same_range(range: &Range<usize>) -> (copy: Range<usize>)
    ensures
        copy == *range,
{
    Range { start: range.start, end: range.end }
}

/// The place of the text node that new text is appended to, if there is one.
fn find_open_text(document: &Document, nodes: &Vec<NodeRef>) -> (found: Option<NodeRef>)
    ensures
        match found {
            Some(place) => open_text(start_state(document@, nodes@)) is Some && open_text(
                start_state(document@, nodes@),
            ).unwrap().0 == place && place < document@.len(),
            None => open_text(start_state(document@, nodes@)) is None,
        },
{
    if nodes.len() == 0 {
        return None;
    }
    let top = nodes[nodes.len() - 1];
    if top >= document.nodes.len() {
        return None;
    }
    match &document.nodes[top].children {
        Some(children) => {
            if children.len() == 0 {
                return None;
            }
            let last = children[children.len() - 1];
            if last >= document.nodes.len() {
                return None;
            }
            let node = &document.nodes[last];
            match node.attribute("content") {
                Some(value) => match value {
                    Value::String(held) => {
                        proof {
                            reveal_strlit(" ");
                        }
                        if node.kind == Type::Text && !same_text(held.as_str(), " ") {
                            Some(last)
                        } else {
                            None
                        }
                    },
                    _ => None,
                },
                None => None,
            }
        },
        None => None,
    }
}

/// Handles text.
fn add_text(
    document: &mut Document,
    nodes: &mut Vec<NodeRef>,
    flags: &Flags,
    text: &String,
    location: Range<usize>,
)
    ensures
        final(document).slots == old(document).slots,
        state_of(final(document)@, final(nodes)@, *flags) == with_text(
            state_of(old(document)@, old(nodes)@, *flags),
            text@,
            location,
        ),
        keyed_nodes(old(document)@) ==> keyed_nodes(final(document)@),
{
    reveal(with_text);
    match find_open_text(document, nodes) {
        Some(place) => {
            if !same_text(text.as_str(), " ") {
                let ghost before = document@;
                let node = &mut document.nodes[place];
                let mut joined = match node.attribute("content") {
                    Some(value) => match value {
                        Value::String(held) => held.clone(),
                        _ => String::new(),
                    },
                    None => String::new(),
                };
                joined.append(text.as_str());
                node.set_attribute(String::from_str("content"), Value::String(joined));
                assert(document@ =~= before.update(
                    place as int,
                    before[place as int].with_attribute(
                        "content"@,
                        ValueModel::String(
                            open_text(start_state(before, nodes@)).unwrap().1 + text@,
                        ),
                    ),
                ));
                return ;
            }
        },
        None => {},
    }
    add_child(
        document,
        nodes,
        node_of(Type::Text, location, single("content", Value::String(text.clone()))),
        false,
    );
}

/// Whether the current parent is a node with the tag name `name`.
fn parent_has_tag(document: &Document, nodes: &Vec<NodeRef>, name: &String) -> (found: bool)
    ensures
        found == top_has_tag(start_state(document@, nodes@), name@),
{
    if nodes.len() == 0 {
        return false;
    }
    let top = nodes[nodes.len() - 1];
    if top >= document.nodes.len() {
        return false;
    }
    match &document.nodes[top].tag {
        Some(held) => same_text(held.as_str(), name.as_str()),
        None => false,
    }
}

/// The node for a closing tag that closes nothing.
fn missing_opening(name: String, inline: bool, location: Range<usize>) -> (node: Node)
    ensures
        node@ == missing_opening_node(name@, inline, location),
{
    let mut message = String::from_str("Tag '");
    message.append(name.as_str());
    message.append("' is missing opening");
    let error = Error {
        id: "missing-opening",
        level: ErrorLevel::Critical,
        message,
        location: Some(same_range(&location)),
    };
    let mut errors = Vec::new();
    errors.push(error);
    let node = Node {
        kind: Type::Tag(inline),
        tag: Some(name),
        attributes: None,
        children: None,
        location: Some(location),
        errors: Some(errors),
    };
    assert(node@.errors.unwrap() =~= missing_opening_node(name@, inline, location).errors.unwrap());
    node
}

/// The node for a tag that the grammar does not recognize.
fn syntax_error(error: crate::tag::SyntaxError, location: Range<usize>) -> (node: Node)
    ensures
        node@ == syntax_error_node(error.text@, location),
{
    let ghost old_text = error.text@;
    let message = error.message();
    let error = Error {
        id: "syntax-error",
        level: ErrorLevel::Critical,
        message,
        location: Some(same_range(&location)),
    };
    let mut errors = Vec::new();
    errors.push(error);
    let node = Node {
        kind: Type::Error,
        tag: None,
        attributes: None,
        children: None,
        location: Some(location),
        errors: Some(errors),
    };
    assert(node@.errors.unwrap() =~= syntax_error_node(old_text, location).errors.unwrap());
    node
}

/// Handles an embedded tag.
fn add_tag(
    document: &mut Document,
    nodes: &mut Vec<NodeRef>,
    flags: &Flags,
    tag: Tag,
    inline: bool,
    location: Range<usize>,
)
    ensures
        final(document).slots == old(document).slots,
        state_of(final(document)@, final(nodes)@, *flags) == with_tag(
            state_of(old(document)@, old(nodes)@, *flags),
            tag@,
            inline,
            location,
        ),
        keyed_nodes(old(document)@) && crate::tag::keyed_tag(tag@) ==> keyed_nodes(final(document)@),
{
    reveal(with_tag);
    match tag {
        Tag::Open(name, attributes) => {
            let node = Node {
                kind: Type::Tag(inline),
                tag: Some(name),
                attributes,
                children: None,
                location: Some(location),
                errors: None,
            };
            add_child(document, nodes, node, true);
        },
        Tag::Standalone(name, attributes) => {
            let node = Node {
                kind: Type::Tag(inline),
                tag: Some(name),
                attributes,
                children: None,
                location: Some(location),
                errors: None,
            };
            add_child(document, nodes, node, false);
        },
        Tag::Close(name) => {
            if parent_has_tag(document, nodes, &name) {
                nodes.pop();
            } else {
                add_child(document, nodes, missing_opening(name, inline, location), false);
            }
        },
        Tag::Annotation(attributes) => {
            match flags.inline_parent {
                Some(place) => {
                    if place < document.nodes.len() {
                        let ghost before = document@;
                        let node = &mut document.nodes[place];
                        node.set_attributes(attributes);
                        assert(document@ =~= before.update(
                            place as int,
                            before[place as int].with_attributes(attributes@),
                        ));
                    }
                },
                None => {},
            }
        },
        Tag::Value(value) => {
            add_child(document, nodes, node_of(Type::Text, location, single("content", value)), false);
        },
        Tag::Error(error) => {
            add_child(document, nodes, syntax_error(error, location), false);
        },
    }
}

/// The attributes of a link or an image.
fn link(key: &str, destination: &String, title: &String) -> (attributes: Attributes)
    ensures
        attributes@ == link_attributes(key@, destination@, title@),
        keyed_entries(attributes@),
{
    let mut attributes = single(key, Value::String(destination.clone()));
    if !title.as_str().is_empty() {
        attributes.insert(String::from_str("title"), Value::String(title.clone()));
    }
    attributes
}

/// The attributes of a list.
fn list(start: &Option<u64>) -> (attributes: Attributes)
    ensures
        attributes@ == list_attributes(*start),
        keyed_entries(attributes@),
{
    match start {
        Some(number) => {
            let mut attributes = single("ordered", Value::Boolean(true));
            attributes.insert(String::from_str("number"), Value::Number(Number::from_u64(*number)));
            attributes
        },
        None => single("ordered", Value::Boolean(false)),
    }
}

/// Whether a byte is one of the white space that separates the words of a fence's first line.
fn separates(byte: u8) -> (found: bool)
    ensures
        found == is_separator(byte),
{
    byte == 0x20 || byte == 0x09 || byte == 0x0a || byte == 0x0c || byte == 0x0d
}

/// The language that the text after an opening fence names.
fn language_of(info: &str) -> (language: Option<String>)
    ensures
        match language {
            Some(name) => fence_language(info.spec_bytes()) == Some(name@),
            None => fence_language(info.spec_bytes()) is None,
        },
{
    let bytes = info.as_bytes();
    let mut start: usize = 0;
    let mut found = false;
    while !found && start < bytes.len()
        invariant
            bytes@ == info.spec_bytes(),
            word_start(bytes@, 0) == word_start(bytes@, start as int),
            found ==> start < bytes@.len() && word_start(bytes@, start as int) == start,
        decreases
                bytes@.len() - start,
                if found {
                    0int
                } else {
                    1int
                },
    {
        if separates(bytes[start]) {
            start += 1;
        } else {
            match crate::scan::scan_tag_end_at(bytes, start) {
                Some(end) => {
                    start = end;
                },
                None => {
                    found = true;
                },
            }
        }
    }
    if !found {
        assert(word_end(bytes@, bytes@.len() as int) == bytes@.len());
        return None;
    }
    let mut end = start;
    while end < bytes.len() && !separates(bytes[end]) && crate::scan::scan_tag_end_at(
        bytes,
        end,
    ).is_none()
        invariant
            bytes@ == info.spec_bytes(),
            start <= end <= bytes@.len(),
            word_end(bytes@, start as int) == word_end(bytes@, end as int),
        decreases bytes@.len() - end,
    {
        end += 1;
    }
    if end > start {
        Some(String::from_str(slice(info, start, end)))
    } else {
        None
    }
}

/// The position of the last line feed before `pos` and not before `from`; `from` where there is none.
fn last_feed_before(bytes: &[u8], from: usize, pos: usize) -> (place: usize)
    requires
        pos <= bytes@.len(),
    ensures
        place == last_feed(bytes@, from as int, pos as int),
        from <= pos ==> from <= place <= pos,
        from < pos ==> place < pos,
{
    let mut place = pos;
    while place > from
        invariant
            place <= pos <= bytes@.len(),
            from <= pos ==> from <= place,
            last_feed(bytes@, from as int, pos as int) == last_feed(
                bytes@,
                from as int,
                place as int,
            ),
        decreases place,
    {
        if bytes[place - 1] == 0x0a {
            return place - 1;
        }
        place -= 1;
    }
    from
}

/// The attributes that the annotation on the first line of a fenced block gives.
fn annotation_of(line: &str) -> (found: Option<Attributes>)
    ensures
        match found {
            Some(attributes) => fence_annotation(line.spec_bytes()) == Some(attributes@),
            None => fence_annotation(line.spec_bytes()) is None,
        },
        found is Some ==> keyed_entries(found.unwrap()@),
{
    match crate::template::find_tag(line.as_bytes(), 0) {
        Some((start, end)) => match crate::tag::parse(slice(line, start, end)) {
            Tag::Annotation(attributes) => Some(attributes),
            _ => None,
        },
        None => None,
    }
}

/// The attributes of a fenced block.
fn fence_entries(input: &str, info: &String, range: &Range<usize>) -> (attributes: Attributes)
    ensures
        attributes@ == fence_attributes(input.spec_bytes(), info@, *range),
        keyed_entries(attributes@),
{
    reveal(fence_attributes);
    let bytes = input.as_bytes();
    let mut attributes = Attributes::new();
    match language_of(info.as_str()) {
        Some(language) => {
            attributes.insert(String::from_str("language"), Value::String(language));
        },
        None => {},
    }
    if range.start <= range.end && range.end <= bytes.len() {
        let first = crate::template::line_end(bytes, range.start);
        if first < range.end {
            match annotation_of(slice(input, range.start, first)) {
                Some(found) => {
                    attributes.extend(found);
                },
                None => {},
            }
            let last = last_feed_before(bytes, first, range.end);
            attributes.insert(
                String::from_str("content"),
                Value::String(String::from_str(slice(input, first + 1, last + 1))),
            );
        }
    }
    attributes
}

/// Handles the opening of a fenced block.
fn open_fence(
    input: &str,
    document: &mut Document,
    nodes: &mut Vec<NodeRef>,
    flags: &mut Flags,
    info: &String,
    range: &Range<usize>,
    offset: usize,
    depth: usize,
)
    ensures
        final(document).slots == old(document).slots,
        state_of(final(document)@, final(nodes)@, *final(flags)) == with_fence(
            input.spec_bytes(),
            state_of(old(document)@, old(nodes)@, *old(flags)),
            info@,
            *range,
            offset,
            depth as nat,
        ),
        keyed_nodes(old(document)@) ==> keyed_nodes(final(document)@),
    decreases depth, 0int,
{
    let bytes = input.as_bytes();
    let location = Range {
        start: range.start.saturating_add(offset),
        end: range.end.saturating_add(offset),
    };
    let attributes = fence_entries(input, info, range);
    add_child(document, nodes, node_of(Type::Fence, location, attributes), true);
    flags.inside_fence = true;
    if depth > 0 && range.start <= range.end && range.end <= bytes.len() {
        let first = crate::template::line_end(bytes, range.start);
        if first < range.end {
            let last = last_feed_before(bytes, first, range.end);
            let body = slice(input, first + 1, last + 1);
            let events = crate::template::parse(body);
            convert_at(body, document, nodes, &events, offset.saturating_add(first + 1), false, depth - 1);
        }
    }
}

/// Handles the start of an element.
fn start_element(
    input: &str,
    document: &mut Document,
    nodes: &mut Vec<NodeRef>,
    flags: &mut Flags,
    tag: &EventTag,
    range: &Range<usize>,
    offset: usize,
    depth: usize,
)
    ensures
        final(document).slots == old(document).slots,
        state_of(final(document)@, final(nodes)@, *final(flags)) == after_start(
            input.spec_bytes(),
            state_of(old(document)@, old(nodes)@, *old(flags)),
            tag@,
            *range,
            offset,
            depth as nat,
        ),
        keyed_nodes(old(document)@) ==> keyed_nodes(final(document)@),
    decreases depth, 1int,
{
    let location = Range {
        start: range.start.saturating_add(offset),
        end: range.end.saturating_add(offset),
    };
    match tag {
        EventTag::Heading(level) => {
            let attributes = single("level", Value::Number(Number::from_u64(*level as u64)));
            add_child(document, nodes, node_of(Type::Heading, location, attributes), true);
        },
        EventTag::List(start) => {
            add_child(document, nodes, node_of(Type::List, location, list(start)), true);
        },
        EventTag::Link(destination, title) => {
            add_child(
                document,
                nodes,
                node_of(Type::Link, location, link("href", destination, title)),
                true,
            );
        },
        EventTag::Image(source, title) => {
            add_child(
                document,
                nodes,
                node_of(Type::Image, location, link("src", source, title)),
                true,
            );
        },
        EventTag::CodeBlock(kind) => match kind {
            CodeBlockKind::Fenced(info) => {
                open_fence(input, document, nodes, flags, info, range, offset, depth);
            },
            CodeBlockKind::Indented => {
                add_child(document, nodes, plain(Type::Fence, Some(location)), true);
            },
        },
        EventTag::TableHead => {
            flags.inside_thead = true;
            add_child(document, nodes, plain(Type::TableHead, Some(same_range(&location))), true);
            add_child(document, nodes, plain(Type::TableRow, Some(location)), true);
        },
        EventTag::TableCell => {
            let cell = if flags.inside_thead {
                Type::TableHeadCell
            } else {
                Type::TableCell
            };
            add_child(document, nodes, plain(cell, Some(location)), true);
        },
        EventTag::Paragraph => {
            add_child(document, nodes, plain(Type::Paragraph, Some(location)), true);
        },
        EventTag::BlockQuote => {
            add_child(document, nodes, plain(Type::Blockquote, Some(location)), true);
        },
        EventTag::Item => {
            add_child(document, nodes, plain(Type::Item, Some(location)), true);
        },
        EventTag::Table => {
            add_child(document, nodes, plain(Type::Table, Some(location)), true);
        },
        EventTag::TableRow => {
            add_child(document, nodes, plain(Type::TableRow, Some(location)), true);
        },
        EventTag::Emphasis => {
            add_child(document, nodes, plain(Type::Emphasis, Some(location)), true);
        },
        EventTag::Strong => {
            add_child(document, nodes, plain(Type::Strong, Some(location)), true);
        },
        EventTag::Strikethrough => {
            add_child(document, nodes, plain(Type::Strike, Some(location)), true);
        },
        EventTag::Other => {
            add_child(document, nodes, plain(Type::Nop, Some(location)), true);
        },
    }
}

/// Handles the end of an element.
fn end_element(
    document: &mut Document,
    nodes: &mut Vec<NodeRef>,
    flags: &mut Flags,
    tag: &EventTag,
)
    ensures
        final(document).slots == old(document).slots,
        state_of(final(document)@, final(nodes)@, *final(flags)) == after_end(
            state_of(old(document)@, old(nodes)@, *old(flags)),
            tag@,
        ),
        keyed_nodes(old(document)@) ==> keyed_nodes(final(document)@),
{
    match tag {
        EventTag::TableHead => {
            nodes.pop();
            nodes.pop();
            flags.inside_thead = false;
            add_child(document, nodes, plain(Type::TableBody, None), true);
        },
        EventTag::Table => {
            if parent_kind(document, nodes, Type::TableBody) {
                nodes.pop();
            }
            nodes.pop();
        },
        EventTag::CodeBlock(_) => {
            flags.inside_fence = false;
            nodes.pop();
        },
        _ => {
            nodes.pop();
        },
    }
}

/// Handles one event.
fn apply_event(
    input: &str,
    document: &mut Document,
    nodes: &mut Vec<NodeRef>,
    flags: &mut Flags,
    event: &Token,
    range: &Range<usize>,
    offset: usize,
    add_inlines: bool,
    depth: usize,
)
    ensures
        final(document).slots == old(document).slots,
        state_of(final(document)@, final(nodes)@, *final(flags)) == after_event(
            input.spec_bytes(),
            state_of(old(document)@, old(nodes)@, *old(flags)),
            event@,
            *range,
            offset,
            add_inlines,
            depth as nat,
        ),
        keyed_nodes(old(document)@) ==> keyed_nodes(final(document)@),
    decreases depth, 2int,
{
    let location = Range {
        start: range.start.saturating_add(offset),
        end: range.end.saturating_add(offset),
    };
    let kind = event_type(event);
    match event {
        Token::Text(text) => {
            if !flags.inside_fence {
                prepare(document, nodes, flags, kind, add_inlines);
                add_text(document, nodes, flags, text, location);
            }
        },
        Token::Code(text) => {
            if !flags.inside_fence {
                prepare(document, nodes, flags, kind, add_inlines);
                add_child(
                    document,
                    nodes,
                    node_of(Type::Code, location, single("content", Value::String(text.clone()))),
                    false,
                );
            }
        },
        Token::SoftBreak | Token::HardBreak | Token::Rule => {
            prepare(document, nodes, flags, kind, add_inlines);
            add_child(document, nodes, plain(kind, Some(location)), false);
        },
        Token::MarkdocTag(text, inline) => {
            prepare(document, nodes, flags, kind, add_inlines);
            let tag = crate::tag::parse(text.as_str());
            add_tag(document, nodes, flags, tag, *inline, location);
        },
        Token::Start(tag) => {
            prepare(document, nodes, flags, kind, add_inlines);
            start_element(input, document, nodes, flags, tag, range, offset, depth);
        },
        Token::End(tag) => {
            prepare(document, nodes, flags, kind, add_inlines);
            end_element(document, nodes, flags, tag);
        },
        Token::Other => {
            prepare(document, nodes, flags, kind, add_inlines);
        },
    }
}

/// Handles a run of events, with nested fenced blocks handled `depth` levels deep.
fn convert_at(
    input: &str,
    document: &mut Document,
    nodes: &mut Vec<NodeRef>,
    events: &Events,
    offset: usize,
    add_inlines: bool,
    depth: usize,
)
    ensures
        final(document).slots == old(document).slots,
        final(document)@ == build_from(
            input.spec_bytes(),
            start_state(old(document)@, old(nodes)@),
            events_model(events@),
            0,
            offset,
            add_inlines,
            depth as nat,
        ).nodes,
        final(nodes)@ == build_from(
            input.spec_bytes(),
            start_state(old(document)@, old(nodes)@),
            events_model(events@),
            0,
            offset,
            add_inlines,
            depth as nat,
        ).stack,
        keyed_nodes(old(document)@) ==> keyed_nodes(final(document)@),
    decreases depth, 3 + events@.len(),
{
    let mut flags = Flags { inline_parent: None, inside_thead: false, inside_fence: false };
    let mut index: usize = 0;
    while index < events.len()
        invariant
            index <= events.len(),
            document.slots == old(document).slots,
            keyed_nodes(old(document)@) ==> keyed_nodes(document@),
            build_from(
                input.spec_bytes(),
                state_of(document@, nodes@, flags),
                events_model(events@),
                index as int,
                offset,
                add_inlines,
                depth as nat,
            ) == build_from(
                input.spec_bytes(),
                start_state(old(document)@, old(nodes)@),
                events_model(events@),
                0,
                offset,
                add_inlines,
                depth as nat,
            ),
        decreases events.len() - index,
    {
        let entry = &events[index];
        apply_event(
            input,
            document,
            nodes,
            &mut flags,
            &entry.0,
            &entry.1,
            offset,
            add_inlines,
            depth,
        );
        index += 1;
    }
}

/// Builds the nodes of a run of events into the tree. `nodes` holds the
/// open nodes, the current parent last; `offset` is added to the events'
/// ranges; `add_inlines` says whether inline content gets `Inline`
/// containers. The text of fenced blocks is split into text and tags, which
/// become children of the block. The nodes that were in the tree keep
/// their kinds and tag names, every tag that is made has a name, and no
/// other node has one; the keys of attributes stay unique. Where the events
/// come in good order, inline content stands in inline containers. The
/// expressions that are made have no slots yet: `Document::adopt` gives them.
pub fn convert_events(
    input: &str,
    document: &mut Document,
    nodes: &mut Vec<NodeRef>,
    events: Events,
    offset: usize,
    add_inlines: bool,
)
    ensures
        final(document).slots == old(document).slots,
        final(document)@ == build_from(
            input.spec_bytes(),
            start_state(old(document)@, old(nodes)@),
            events_model(events@),
            0,
            offset,
            add_inlines,
            1,
        ).nodes,
        final(nodes)@ == build_from(
            input.spec_bytes(),
            start_state(old(document)@, old(nodes)@),
            events_model(events@),
            0,
            offset,
            add_inlines,
            1,
        ).stack,
        crate::invariants::keeps(old(document)@, final(document)@),
        crate::invariants::tags_named(old(document)@) ==> crate::invariants::tags_named(
            final(document)@,
        ),
        crate::model::node::children_follow(old(document)@) ==> crate::model::node::children_follow(
            final(document)@,
        ),
        add_inlines && crate::containers::contained(start_state(old(document)@, old(nodes)@))
            && crate::containers::orderly_from(
            input.spec_bytes(),
            start_state(old(document)@, old(nodes)@),
            events_model(events@),
            0,
            offset,
            1,
        ) ==> crate::containers::inline_contained(final(document)@),
        keyed_nodes(old(document)@) ==> keyed_nodes(final(document)@),
{
    proof {
        crate::invariants::lemma_build(
            input.spec_bytes(),
            start_state(document@, nodes@),
            events_model(events@),
            0,
            offset,
            add_inlines,
            1,
        );
    }
    let ghost before = start_state(document@, nodes@);
    convert_at(input, document, nodes, &events, offset, add_inlines, 1);
    let count = document.nodes.len();
    proof {
        assert(document@.len() == count);
        if add_inlines && crate::containers::contained(before) && crate::containers::orderly_from(
            input.spec_bytes(),
            before,
            events_model(events@),
            0,
            offset,
            1,
        ) {
            crate::containers::lemma_inline_contained(
                input.spec_bytes(),
                before,
                events_model(events@),
                0,
                offset,
                1,
            );
        }
    }
}

/// Splits a document that begins with `---` at the next `---`: gives the
/// front matter between the two, and the rest after the second. A document
/// of another form has no front matter.
pub fn extract_frontmatter(input: &str) -> (parts: Option<(&str, &str)>)
    ensures
        match parts {
            Some((frontmatter, rest)) => frontmatter_end(input.spec_bytes()) is Some
                && frontmatter@ == text_between(
                input.spec_bytes(),
                3,
                frontmatter_end(input.spec_bytes()).unwrap(),
            ) && rest@ == text_between(
                input.spec_bytes(),
                frontmatter_end(input.spec_bytes()).unwrap() + 3,
                input.spec_bytes().len() as int,
            ) && frontmatter.spec_bytes() == input.spec_bytes().subrange(
                3,
                frontmatter_end(input.spec_bytes()).unwrap(),
            ) && rest.spec_bytes() == input.spec_bytes().subrange(
                frontmatter_end(input.spec_bytes()).unwrap() + 3,
                input.spec_bytes().len() as int,
            ),
            None => frontmatter_end(input.spec_bytes()) is None,
        },
{
    let bytes = input.as_bytes();
    if !(bytes.len() >= 3 && bytes[0] == 0x2d && bytes[1] == 0x2d && bytes[2] == 0x2d) {
        return None;
    }
    let end = find_dashes(bytes, 3);
    if end >= bytes.len() {
        return None;
    }
    proof {
        lemma_next_dashes(bytes@, 3);
        vstd::utf8::encode_utf8_valid_utf8(input@);
        crate::text::lemma_ascii_is_boundary(bytes@, 2);
        crate::text::lemma_ascii_is_boundary(bytes@, end as int);
        crate::text::lemma_ascii_is_boundary(bytes@, end + 2);
        vstd::utf8::is_char_boundary_start_end_of_seq(bytes@);
    }
    Some((slice(input, 3, end), slice(input, end + 3, bytes.len())))
}

/// The text of a document without its front matter.
pub open spec fn body_of(text: Seq<char>) -> Seq<char> {
    match frontmatter_end(encode_utf8(text)) {
        Some(end) => text_between(encode_utf8(text), end + 3, encode_utf8(text).len() as int),
        None => text,
    }
}

/// The place in a document where its body begins.
pub open spec fn body_offset(text: Seq<char>) -> usize {
    match frontmatter_end(encode_utf8(text)) {
        Some(end) => (end + 3) as usize,
        None => 0,
    }
}

/// The root of a document's tree: a `Document` node at the whole source,
/// which holds the front matter, trimmed, under `frontmatter`.
pub open spec fn root_of(text: Seq<char>) -> NodeModel {
    NodeModel {
        kind: Type::Document,
        tag: None,
        attributes: match frontmatter_end(encode_utf8(text)) {
            Some(end) => Some(
                one_attribute(
                    "frontmatter"@,
                    ValueModel::String(trimmed(encode_utf8(text), 3, end)),
                ),
            ),
            None => None,
        },
        children: None,
        location: Some(Range { start: 0, end: encode_utf8(text).len() as usize }),
        errors: None,
    }
}

/// The tree of a document, given the events of its body.
pub open spec fn tree_of(text: Seq<char>, events: Seq<(TokenModel, Range<usize>)>) -> Seq<
    NodeModel,
> {
    build_from(
        encode_utf8(body_of(text)),
        start_state(seq![root_of(text)], seq![0usize]),
        events,
        0,
        body_offset(text),
        true,
        1,
    ).nodes
}

/// The tree of a document, before its expressions have slots.
pub open spec fn built(text: Seq<char>) -> Seq<NodeModel> {
    tree_of(
        text,
        crate::tokenize::tokenized(
            encode_utf8(body_of(text)),
            crate::tokenize::commonmark(body_of(text)),
        ),
    )
}

/// The tree of a document: every expression in it has a slot of its own,
/// numbered from 0 on, node by node.
pub open spec fn parsed(text: Seq<char>) -> Seq<NodeModel> {
    crate::model::node::placed_nodes(built(text), 0)
}

/// Whether the events of a document come in good order for the builder,
/// each in the state that it meets.
pub open spec fn in_good_order(text: Seq<char>) -> bool {
    crate::containers::orderly_from(
        encode_utf8(body_of(text)),
        start_state(seq![root_of(text)], seq![0usize]),
        crate::tokenize::tokenized(
            encode_utf8(body_of(text)),
            crate::tokenize::commonmark(body_of(text)),
        ),
        0,
        body_offset(text),
        1,
    )
}

/// Builds the tree of a document. Its root is a `Document` node; the front
/// matter, if there is any, is kept on it; the places of all nodes refer to
/// the whole text. Errors are kept on the nodes that they concern. Every
/// tag in the tree has a name, and every child stands after its parent.
/// No node but a tag has a name. The keys of the attributes of every node
/// are unique, in every mapping among them. Every expression has a slot of
/// its own in the tree's table, which holds `Undefined`. Where the events
/// of the document come in good order, inline content stands in inline
/// containers.
pub fn parse(input: &str) -> (document: Document)
    ensures
        document@ == parsed(input@),
        in_good_order(input@) ==> crate::containers::inline_contained(document@),
        document.slots@ == crate::model::slots::fresh_slots(
            crate::model::node::count_nodes(built(input@), built(input@).len() as int),
        ),
        document@.len() > 0,
        document@[0].kind == Type::Document,
        crate::invariants::tags_named(document@),
        crate::model::node::children_follow(document@),
        keyed_nodes(document@),
{
    proof {
        crate::invariants::lemma_parsed(input@);
    }
    let length = input.as_bytes().len();
    let mut attributes: Option<Attributes> = None;
    let mut offset: usize = 0;
    let mut source = input;
    match extract_frontmatter(input) {
        Some((_, rest)) => {
            let end = find_dashes(input.as_bytes(), 3);
            proof {
                lemma_next_dashes(input.spec_bytes(), 3);
            }
            attributes = Some(
                single("frontmatter", Value::String(String::from_str(trim(input, 3, end)))),
            );
            offset = end + 3;
            source = rest;
        },
        None => {},
    }
    let root = Node {
        kind: Type::Document,
        tag: None,
        attributes,
        children: None,
        location: Some(Range { start: 0, end: length }),
        errors: None,
    };
    let mut document = Document::new(root);
    let mut nodes: Vec<NodeRef> = Vec::new();
    nodes.push(0);
    assert(nodes@ =~= seq![0usize]);
    let events = crate::tokenize::tokenize(source);
    assert(crate::containers::contained(start_state(document@, nodes@)));
    convert_events(source, &mut document, &mut nodes, events, offset, true);
    let count = document.nodes.len();
    assert(document@.len() == count);
    assert(document.slots@ =~= Seq::<ValueModel>::empty());
    proof {
        if in_good_order(input@) {
            crate::containers::lemma_placed_contained(document@, 0);
        }
    }
    document.adopt();
    assert(document.slots@ =~= crate::model::slots::fresh_slots(
        crate::model::node::count_nodes(built(input@), built(input@).len() as int),
    ));
    document
}

} // verus!
