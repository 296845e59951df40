//! What holds of every tree that is built, whatever the events.

use crate::model::node::{ErrorLevel, ErrorModel, NodeModel, NodeRef, Type};
use crate::parse::{
    after_end, after_event, after_start, build_from, missing_opening_node, plain_node, prepared,
    top_has_tag, with_fence, with_tag, with_text, BuildModel,
};
use crate::tag::{is_named, lemma_tag_is_named, tag_of, TagModel};
use crate::tokenize::{EventTagModel, TokenModel};
use std::ops::Range;
use vstd::prelude::*;
use vstd::utf8::encode_utf8;

verus! {

/// Whether a node that is a tag has a name that is not empty, and a node
/// that is no tag has no name.
pub open spec fn named(node: NodeModel) -> bool {
    &&& node.kind is Tag ==> node.tag is Some && node.tag.unwrap().len() > 0
    &&& node.tag is Some ==> node.kind is Tag
}

/// Whether every tag among the nodes has a name that is not empty, and no other node has a name.
pub open spec fn tags_named(nodes: Seq<NodeModel>) -> bool {
    forall|i: int| 0 <= i < nodes.len() ==> named(#[trigger] nodes[i])
}

/// Whether `after` holds every node of `before` at its place, of the same
/// kind and with the same tag name.
pub open spec fn keeps(before: Seq<NodeModel>, after: Seq<NodeModel>) -> bool {
    before.len() <= after.len() && forall|i: int|
        0 <= i < before.len() ==> (#[trigger] after[i]).kind == before[i].kind && after[i].tag
            == before[i].tag
}

/// Whether a step of a build keeps what was there, names every tag that it
/// makes, and, within the machine's limits, puts every child after its parent.
pub open spec fn follows(before: BuildModel, after: BuildModel) -> bool {
    &&& keeps(before.nodes, after.nodes)
    &&& tags_named(before.nodes) ==> tags_named(after.nodes)
    &&& after.nodes.len() <= usize::MAX && children_follow(before.nodes) ==> children_follow(
        after.nodes,
    )
}

/// Adding a node without children, named if it is a tag, is a step that follows.
proof fn lemma_add_child(state: BuildModel, child: NodeModel, push: bool)
    requires
        named(child),
        child.children is None,
    ensures
        follows(state, state.add_child(child, push)),
{
    let after = state.add_child(child, push);
    assert forall|i: int| 0 <= i < state.nodes.len() implies (#[trigger] after.nodes[i]).kind
        == state.nodes[i].kind && after.nodes[i].tag == state.nodes[i].tag by {}
    if tags_named(state.nodes) {
        assert forall|i: int| 0 <= i < after.nodes.len() implies named(
            #[trigger] after.nodes[i],
        ) by {
            if i < state.nodes.len() {
                assert(named(state.nodes[i]));
            }
        }
    }
    if after.nodes.len() <= usize::MAX && children_follow(state.nodes) {
        let place = state.nodes.len() as int;
        let parented = state.stack.len() > 0 && state.stack.last() < state.nodes.len();
        assert(after.nodes[place].child_list() =~= Seq::<NodeRef>::empty());
        if parented {
            assert(after.nodes[state.stack.last() as int].child_list()
                =~= state.nodes[state.stack.last() as int].child_list().push(place as usize));
        }
        assert forall|parent: int, index: int|
            0 <= parent < after.nodes.len() && 0 <= index
                < after.nodes[parent].child_list().len() implies parent < (
        #[trigger] after.nodes[parent].child_list()[index]) < after.nodes.len() by {
            if parent < place && !(parented && parent == state.stack.last()) {
                assert(after.nodes[parent] == state.nodes[parent]);
                assert(state.nodes[parent].child_list()[index] < state.nodes.len());
            } else if parent < place {
                if index < state.nodes[parent].child_list().len() {
                    assert(after.nodes[parent].child_list()[index]
                        == state.nodes[parent].child_list()[index]);
                    assert(state.nodes[parent].child_list()[index] < state.nodes.len());
                }
            }
        }
    }
}

/// A step that leaves the nodes as they are follows.
proof fn lemma_same_nodes(before: BuildModel, after: BuildModel)
    requires
        after.nodes == before.nodes,
    ensures
        follows(before, after),
{
}

/// Two steps that follow make one that follows.
proof fn lemma_follows_on(first: BuildModel, second: BuildModel, third: BuildModel)
    requires
        follows(first, second),
        follows(second, third),
    ensures
        follows(first, third),
{
    assert forall|i: int| 0 <= i < first.nodes.len() implies (#[trigger] third.nodes[i]).kind
        == first.nodes[i].kind && third.nodes[i].tag == first.nodes[i].tag by {
        assert(second.nodes[i].kind == first.nodes[i].kind);
    }
}

/// Whether every child of every node stands after it in the tree.
pub open spec fn children_follow(nodes: Seq<NodeModel>) -> bool {
    crate::model::node::children_follow(nodes)
}

/// Changing the attributes of a node is a step that follows.
proof fn lemma_changed_attributes(state: BuildModel, place: int, changed: NodeModel, after: BuildModel)
    requires
        0 <= place < state.nodes.len(),
        changed.kind == state.nodes[place].kind,
        changed.tag == state.nodes[place].tag,
        changed.children == state.nodes[place].children,
        after.nodes == state.nodes.update(place, changed),
    ensures
        follows(state, after),
{
    if children_follow(state.nodes) {
        assert forall|parent: int, index: int|
            0 <= parent < after.nodes.len() && 0 <= index
                < after.nodes[parent].child_list().len() implies parent < (
        #[trigger] after.nodes[parent].child_list()[index]) < after.nodes.len() by {
            assert(after.nodes[parent].child_list() == state.nodes[parent].child_list());
            assert(state.nodes[parent].child_list()[index] < state.nodes.len());
        }
    }
    assert forall|i: int| 0 <= i < state.nodes.len() implies (#[trigger] after.nodes[i]).kind
        == state.nodes[i].kind && after.nodes[i].tag == state.nodes[i].tag by {}
    if tags_named(state.nodes) {
        assert forall|i: int| 0 <= i < after.nodes.len() implies named(
            #[trigger] after.nodes[i],
        ) by {
            assert(named(state.nodes[i]));
        }
    }
}

/// Making the state ready for an event is a step that follows.
proof fn lemma_prepared(state: BuildModel, kind: Type, add_inlines: bool)
    ensures
        follows(state, prepared(state, kind, add_inlines)),
{
    reveal(prepared);
    lemma_add_child(state, plain_node(Type::Inline, None), true);
}

/// Text is a step that follows.
proof fn lemma_with_text(state: BuildModel, text: Seq<char>, location: Range<usize>)
    ensures
        follows(state, with_text(state, text, location)),
{
    reveal(with_text);
    let after = with_text(state, text, location);
    match crate::parse::open_text(state) {
        Some((place, held)) => {
            if text != " "@ {
                lemma_changed_attributes(
                    state,
                    place as int,
                    state.nodes[place as int].with_attribute(
                        "content"@,
                        crate::model::value::ValueModel::String(held + text),
                    ),
                    after,
                );
            } else {
                lemma_add_child(
                    state,
                    crate::parse::node_with(
                        Type::Text,
                        location,
                        crate::parse::one_attribute(
                            "content"@,
                            crate::model::value::ValueModel::String(text),
                        ),
                    ),
                    false,
                );
            }
        },
        None => {
            lemma_add_child(
                state,
                crate::parse::node_with(
                    Type::Text,
                    location,
                    crate::parse::one_attribute(
                        "content"@,
                        crate::model::value::ValueModel::String(text),
                    ),
                ),
                false,
            );
        },
    }
}

/// A tag whose name is not empty is a step that follows.
proof fn lemma_with_tag(state: BuildModel, tag: TagModel, inline: bool, location: Range<usize>)
    requires
        is_named(tag),
    ensures
        follows(state, with_tag(state, tag, inline, location)),
{
    reveal(with_tag);
    let after = with_tag(state, tag, inline, location);
    match tag {
        TagModel::Open(name, attributes) => {
            lemma_add_child(
                state,
                NodeModel {
                    kind: Type::Tag(inline),
                    tag: Some(name),
                    attributes,
                    children: None,
                    location: Some(location),
                    errors: None,
                },
                true,
            );
        },
        TagModel::Standalone(name, attributes) => {
            lemma_add_child(
                state,
                NodeModel {
                    kind: Type::Tag(inline),
                    tag: Some(name),
                    attributes,
                    children: None,
                    location: Some(location),
                    errors: None,
                },
                false,
            );
        },
        TagModel::Close(name) => {
            if top_has_tag(state, name) {
                lemma_same_nodes(state, after);
            } else {
                lemma_add_child(state, missing_opening_node(name, inline, location), false);
            }
        },
        TagModel::Annotation(attributes) => {
            match state.inline_parent {
                Some(place) => {
                    if place < state.nodes.len() {
                        lemma_changed_attributes(
                            state,
                            place as int,
                            state.nodes[place as int].with_attributes(attributes),
                            after,
                        );
                    }
                },
                None => {},
            }
        },
        TagModel::Value(value) => {
            lemma_add_child(
                state,
                crate::parse::node_with(
                    Type::Text,
                    location,
                    crate::parse::one_attribute("content"@, value),
                ),
                false,
            );
        },
        TagModel::Error(text) => {
            lemma_add_child(state, crate::parse::syntax_error_node(text, location), false);
        },
    }
}

/// The opening of a fenced block is a step that follows.
proof fn lemma_with_fence(
    s: Seq<u8>,
    state: BuildModel,
    info: Seq<char>,
    range: Range<usize>,
    offset: usize,
    depth: nat,
)
    ensures
        follows(state, with_fence(s, state, info, range, offset, depth)),
    decreases depth, 0int,
{
    let node = crate::parse::node_with(
        Type::Fence,
        crate::parse::shifted(range, offset),
        crate::parse::fence_attributes(s, info, range),
    );
    lemma_add_child(state, node, true);
    let opened = BuildModel { inside_fence: true, ..state.add_child(node, true) };
    if depth > 0 && crate::parse::has_line_feed(s, range) {
        let body = encode_utf8(crate::parse::fence_body(s, range));
        let inner_start = BuildModel {
            inline_parent: None,
            inside_thead: false,
            inside_fence: false,
            ..opened
        };
        lemma_build(
            body,
            inner_start,
            crate::template::template_from(body, 0),
            0,
            offset.saturating_add(
                (crate::template::next_line_feed(s, range.start as int) + 1) as usize,
            ),
            false,
            (depth - 1) as nat,
        );
        let inner = build_from(
            body,
            inner_start,
            crate::template::template_from(body, 0),
            0,
            offset.saturating_add(
                (crate::template::next_line_feed(s, range.start as int) + 1) as usize,
            ),
            false,
            (depth - 1) as nat,
        );
        lemma_follows_on(state, inner_start, inner);
    }
}

/// The start of an element is a step that follows.
proof fn lemma_after_start(
    s: Seq<u8>,
    ready: BuildModel,
    tag: EventTagModel,
    range: Range<usize>,
    offset: usize,
    depth: nat,
)
    ensures
        follows(ready, after_start(s, ready, tag, range, offset, depth)),
    decreases depth, 1int,
{
    let location = crate::parse::shifted(range, offset);
    let kind = crate::parse::tag_type(tag);
    match tag {
        EventTagModel::Heading(level) => {
            lemma_add_child(
                ready,
                crate::parse::node_with(
                    kind,
                    location,
                    crate::parse::one_attribute(
                        "level"@,
                        crate::model::value::ValueModel::Number(
                            crate::model::value::number_of_int(level as int),
                        ),
                    ),
                ),
                true,
            );
        },
        EventTagModel::List(start) => {
            lemma_add_child(
                ready,
                crate::parse::node_with(kind, location, crate::parse::list_attributes(start)),
                true,
            );
        },
        EventTagModel::Link(destination, title) => {
            lemma_add_child(
                ready,
                crate::parse::node_with(
                    kind,
                    location,
                    crate::parse::link_attributes("href"@, destination, title),
                ),
                true,
            );
        },
        EventTagModel::Image(source, title) => {
            lemma_add_child(
                ready,
                crate::parse::node_with(
                    kind,
                    location,
                    crate::parse::link_attributes("src"@, source, title),
                ),
                true,
            );
        },
        EventTagModel::Fenced(info) => {
            lemma_with_fence(s, ready, info, range, offset, depth);
        },
        EventTagModel::TableHead => {
            let head = ready.add_child(plain_node(Type::TableHead, Some(location)), true);
            lemma_add_child(ready, plain_node(Type::TableHead, Some(location)), true);
            lemma_add_child(head, plain_node(Type::TableRow, Some(location)), true);
            lemma_follows_on(
                ready,
                head,
                head.add_child(plain_node(Type::TableRow, Some(location)), true),
            );
        },
        EventTagModel::TableCell => {
            lemma_add_child(
                ready,
                plain_node(
                    if ready.inside_thead {
                        Type::TableHeadCell
                    } else {
                        Type::TableCell
                    },
                    Some(location),
                ),
                true,
            );
        },
        _ => {
            lemma_add_child(ready, plain_node(kind, Some(location)), true);
        },
    }
}

/// The end of an element is a step that follows.
proof fn lemma_after_end(ready: BuildModel, tag: EventTagModel)
    ensures
        follows(ready, after_end(ready, tag)),
{
    match tag {
        EventTagModel::TableHead => {
            lemma_add_child(ready.pop().pop(), plain_node(Type::TableBody, None), true);
        },
        _ => {},
    }
}

/// An event is a step that follows.
proof fn lemma_after_event(
    s: Seq<u8>,
    state: BuildModel,
    event: TokenModel,
    range: Range<usize>,
    offset: usize,
    add_inlines: bool,
    depth: nat,
)
    ensures
        follows(state, after_event(s, state, event, range, offset, add_inlines, depth)),
    decreases depth, 2int,
{
    let location = crate::parse::shifted(range, offset);
    let kind = crate::parse::event_kind(event);
    let ready = prepared(state, kind, add_inlines);
    let after = after_event(s, state, event, range, offset, add_inlines, depth);
    lemma_prepared(state, kind, add_inlines);
    match event {
        TokenModel::Text(text) => {
            if !state.inside_fence {
                lemma_with_text(ready, text, location);
                lemma_follows_on(state, ready, after);
            }
        },
        TokenModel::Code(text) => {
            if !state.inside_fence {
                lemma_add_child(
                    ready,
                    crate::parse::node_with(
                        Type::Code,
                        location,
                        crate::parse::one_attribute(
                            "content"@,
                            crate::model::value::ValueModel::String(text),
                        ),
                    ),
                    false,
                );
                lemma_follows_on(state, ready, after);
            }
        },
        TokenModel::SoftBreak | TokenModel::HardBreak | TokenModel::Rule => {
            lemma_add_child(ready, plain_node(kind, Some(location)), false);
            lemma_follows_on(state, ready, after);
        },
        TokenModel::MarkdocTag(text, inline) => {
            lemma_tag_is_named(text);
            lemma_with_tag(ready, tag_of(encode_utf8(text)), inline, location);
            lemma_follows_on(state, ready, after);
        },
        TokenModel::Start(tag) => {
            lemma_after_start(s, ready, tag, range, offset, depth);
            lemma_follows_on(state, ready, after);
        },
        TokenModel::End(tag) => {
            lemma_after_end(ready, tag);
            lemma_follows_on(state, ready, after);
        },
        TokenModel::Other => {},
    }
}

/// Whatever the events, a build keeps every node that was there, of its
/// kind and with its tag name; where every tag had a name before, every
/// tag has one after, a name that is not empty; and where every child stood
/// after its parent before, every child does after, in a tree within the
/// machine's limits.
pub proof fn lemma_build(
    s: Seq<u8>,
    state: BuildModel,
    events: Seq<(TokenModel, Range<usize>)>,
    index: int,
    offset: usize,
    add_inlines: bool,
    depth: nat,
)
    ensures
        follows(state, build_from(s, state, events, index, offset, add_inlines, depth)),
    decreases depth, 3 + events.len() - index,
{
    if 0 <= index < events.len() {
        let next = after_event(s, state, events[index].0, events[index].1, offset, add_inlines, depth);
        lemma_after_event(s, state, events[index].0, events[index].1, offset, add_inlines, depth);
        lemma_build(s, next, events, index + 1, offset, add_inlines, depth);
        lemma_follows_on(
            state,
            next,
            build_from(s, next, events, index + 1, offset, add_inlines, depth),
        );
    }
}

/// Giving the expressions of a tree their slots keeps the kinds, the tag
/// names and the children of its nodes.
pub proof fn lemma_placed_keeps(nodes: Seq<NodeModel>, base: nat)
    ensures
        keeps(nodes, crate::model::node::placed_nodes(nodes, base)),
        crate::model::node::placed_nodes(nodes, base).len() == nodes.len(),
        tags_named(nodes) ==> tags_named(crate::model::node::placed_nodes(nodes, base)),
        children_follow(nodes) ==> children_follow(crate::model::node::placed_nodes(nodes, base)),
{
    let placed = crate::model::node::placed_nodes(nodes, base);
    assert forall|i: int| 0 <= i < nodes.len() implies (#[trigger] placed[i]).kind == nodes[i].kind
        && placed[i].tag == nodes[i].tag && placed[i].child_list() == nodes[i].child_list() by {}
    if tags_named(nodes) {
        assert forall|i: int| 0 <= i < placed.len() implies named(#[trigger] placed[i]) by {
            assert(named(nodes[i]));
        }
    }
    if children_follow(nodes) {
        assert forall|parent: int, index: int|
            0 <= parent < placed.len() && 0 <= index
                < placed[parent].child_list().len() implies parent < (
        #[trigger] placed[parent].child_list()[index]) < placed.len() by {
            assert(placed[parent].child_list() == nodes[parent].child_list());
            assert(nodes[parent].child_list()[index] < nodes.len());
        }
    }
}

/// The root of a document's tree is a `Document` node, every tag in the
/// tree has a name that is not empty, and every child stands after its
/// parent, in a tree within the machine's limits, whatever the text.
pub proof fn lemma_parsed(text: Seq<char>)
    ensures
        crate::parse::parsed(text).len() > 0,
        crate::parse::parsed(text)[0].kind == Type::Document,
        tags_named(crate::parse::parsed(text)),
        crate::parse::parsed(text).len() <= usize::MAX ==> children_follow(
            crate::parse::parsed(text),
        ),
{
    let body = crate::parse::body_of(text);
    let start = crate::parse::start_state(seq![crate::parse::root_of(text)], seq![0usize]);
    assert(tags_named(start.nodes));
    assert(start.nodes[0].child_list() =~= Seq::<NodeRef>::empty());
    assert(children_follow(start.nodes));
    lemma_build(
        encode_utf8(body),
        start,
        crate::tokenize::tokenized(encode_utf8(body), crate::tokenize::commonmark(body)),
        0,
        crate::parse::body_offset(text),
        true,
        1,
    );
    lemma_placed_keeps(crate::parse::built(text), 0);
}

/// A closing tag either closes or is reported. Where the current parent
/// has the name of the tag, it is closed and no node is made: the tag that
/// was opened stays the only node of the pair. Otherwise nothing is closed,
/// and exactly one node is made: a tag of that name with the one error
/// `missing-opening`.
pub proof fn lemma_closing_tag(
    state: BuildModel,
    name: Seq<char>,
    inline: bool,
    location: Range<usize>,
)
    ensures
        top_has_tag(state, name) ==> with_tag(state, TagModel::Close(name), inline, location).nodes
            == state.nodes && with_tag(state, TagModel::Close(name), inline, location).stack
            == state.stack.drop_last(),
        !top_has_tag(state, name) ==> ({
            let after = with_tag(state, TagModel::Close(name), inline, location);
            &&& after.stack == state.stack
            &&& after.nodes.len() == state.nodes.len() + 1
            &&& after.nodes.last().kind == Type::Tag(inline)
            &&& after.nodes.last().tag == Some(name)
            &&& after.nodes.last().errors is Some
            &&& after.nodes.last().errors.unwrap().len() == 1
            &&& after.nodes.last().errors.unwrap()[0].id == "missing-opening"@
            &&& after.nodes.last().errors.unwrap()[0].level == ErrorLevel::Critical
            &&& forall|i: int|
                0 <= i < state.nodes.len() ==> (#[trigger] after.nodes[i]).errors
                    == state.nodes[i].errors
        }),
{
    reveal(with_tag);
}

/// The opening of a fenced block keeps the nodes that were there.
pub proof fn lemma_with_fence_keeps(
    s: Seq<u8>,
    state: BuildModel,
    info: Seq<char>,
    range: Range<usize>,
    offset: usize,
    depth: nat,
)
    ensures
        keeps(state.nodes, with_fence(s, state, info, range, offset, depth).nodes),
        keeps(
            state.add_child(
                crate::parse::node_with(
                    Type::Fence,
                    crate::parse::shifted(range, offset),
                    crate::parse::fence_attributes(s, info, range),
                ),
                true,
            ).nodes,
            with_fence(s, state, info, range, offset, depth).nodes,
        ),
{
    lemma_with_fence(s, state, info, range, offset, depth);
    let node = crate::parse::node_with(
        Type::Fence,
        crate::parse::shifted(range, offset),
        crate::parse::fence_attributes(s, info, range),
    );
    let opened = BuildModel { inside_fence: true, ..state.add_child(node, true) };
    if depth > 0 && crate::parse::has_line_feed(s, range) {
        let body = encode_utf8(crate::parse::fence_body(s, range));
        lemma_build(
            body,
            BuildModel { inline_parent: None, inside_thead: false, inside_fence: false, ..opened },
            crate::template::template_from(body, 0),
            0,
            offset.saturating_add(
                (crate::template::next_line_feed(s, range.start as int) + 1) as usize,
            ),
            false,
            (depth - 1) as nat,
        );
    }
}

/// The start of an element keeps the nodes that were there, at each step of it.
pub proof fn lemma_after_start_keeps(
    s: Seq<u8>,
    ready: BuildModel,
    tag: EventTagModel,
    range: Range<usize>,
    offset: usize,
    depth: nat,
)
    ensures
        keeps(ready.nodes, after_start(s, ready, tag, range, offset, depth).nodes),
        tag is TableHead ==> keeps(
            ready.add_child(
                plain_node(Type::TableHead, Some(crate::parse::shifted(range, offset))),
                true,
            ).nodes,
            after_start(s, ready, tag, range, offset, depth).nodes,
        ),
{
    lemma_after_start(s, ready, tag, range, offset, depth);
    if tag is TableHead {
        let location = crate::parse::shifted(range, offset);
        lemma_add_child(
            ready.add_child(plain_node(Type::TableHead, Some(location)), true),
            plain_node(Type::TableRow, Some(location)),
            true,
        );
    }
}

/// Making the state ready for an event keeps the nodes that were there.
pub proof fn lemma_prepared_keeps(state: BuildModel, kind: Type, add_inlines: bool)
    ensures
        keeps(state.nodes, prepared(state, kind, add_inlines).nodes),
{
    lemma_prepared(state, kind, add_inlines);
}

/// What an event does once the state is ready for it keeps the nodes that were there.
pub proof fn lemma_handled_keeps(
    s: Seq<u8>,
    state: BuildModel,
    event: TokenModel,
    range: Range<usize>,
    offset: usize,
    add_inlines: bool,
    depth: nat,
)
    ensures
        !(state.inside_fence && (event is Text || event is Code)) ==> keeps(
            prepared(state, crate::parse::event_kind(event), add_inlines).nodes,
            after_event(s, state, event, range, offset, add_inlines, depth).nodes,
        ),
{
    let location = crate::parse::shifted(range, offset);
    let kind = crate::parse::event_kind(event);
    let ready = prepared(state, kind, add_inlines);
    match event {
        TokenModel::Text(text) => {
            lemma_with_text(ready, text, location);
        },
        TokenModel::Code(text) => {
            lemma_add_child(
                ready,
                crate::parse::node_with(
                    Type::Code,
                    location,
                    crate::parse::one_attribute(
                        "content"@,
                        crate::model::value::ValueModel::String(text),
                    ),
                ),
                false,
            );
        },
        TokenModel::SoftBreak | TokenModel::HardBreak | TokenModel::Rule => {
            lemma_add_child(ready, plain_node(kind, Some(location)), false);
        },
        TokenModel::MarkdocTag(text, inline) => {
            lemma_tag_is_named(text);
            lemma_with_tag(ready, tag_of(encode_utf8(text)), inline, location);
        },
        TokenModel::Start(tag) => {
            lemma_after_start(s, ready, tag, range, offset, depth);
        },
        TokenModel::End(tag) => {
            lemma_after_end(ready, tag);
        },
        TokenModel::Other => {},
    }
}

/// A closing tag among the events either closes or is reported. Once the
/// state is ready for the event: where the current parent has the name of
/// the tag, it is closed, and no node and no error is made, so that the tag
/// that was opened stays the only node of the pair; otherwise nothing is
/// closed, and exactly one node is made, the last child of the current
/// parent: a tag of that name, at the place of the event, with the one
/// error `missing-opening`.
pub proof fn lemma_closing_event(
    s: Seq<u8>,
    state: BuildModel,
    text: Seq<char>,
    inline: bool,
    range: Range<usize>,
    offset: usize,
    add_inlines: bool,
    depth: nat,
)
    requires
        tag_of(encode_utf8(text)) is Close,
        state.nodes.len() < usize::MAX,
    ensures
        ({
            let name = tag_of(encode_utf8(text))->Close_0;
            let ready = prepared(state, Type::Tag(inline), add_inlines);
            let after = after_event(
                s,
                state,
                TokenModel::MarkdocTag(text, inline),
                range,
                offset,
                add_inlines,
                depth,
            );
            let location = crate::parse::shifted(range, offset);
            &&& top_has_tag(ready, name) ==> after.nodes == ready.nodes && after.stack
                == ready.stack.drop_last()
            &&& !top_has_tag(ready, name) ==> {
                &&& after.stack == ready.stack
                &&& after.nodes.len() == ready.nodes.len() + 1
                &&& after.nodes.last() == missing_opening_node(name, inline, location)
                &&& after.nodes.last().errors == Some(
                    seq![
                        ErrorModel {
                            id: "missing-opening"@,
                            level: ErrorLevel::Critical,
                            message: crate::parse::missing_opening_message(name),
                            location: Some(location),
                        },
                    ],
                )
                &&& forall|i: int|
                    0 <= i < ready.nodes.len() ==> (#[trigger] after.nodes[i]).errors
                        == ready.nodes[i].errors && after.nodes[i].kind == ready.nodes[i].kind
                &&& ready.stack.len() > 0 && ready.stack.last() < ready.nodes.len()
                    ==> after.nodes[ready.stack.last() as int].child_list()
                    == ready.nodes[ready.stack.last() as int].child_list().push(
                    ready.nodes.len() as usize,
                )
            }
        }),
{
    reveal(with_tag);
    let name = tag_of(encode_utf8(text))->Close_0;
    let ready = prepared(state, Type::Tag(inline), add_inlines);
    let location = crate::parse::shifted(range, offset);
    if !top_has_tag(ready, name) {
        let after = ready.add_child(missing_opening_node(name, inline, location), false);
        assert(after.nodes.last() == missing_opening_node(name, inline, location));
        if ready.stack.len() > 0 && ready.stack.last() < ready.nodes.len() {
            assert(after.nodes[ready.stack.last() as int].child_list()
                =~= ready.nodes[ready.stack.last() as int].child_list().push(
                ready.nodes.len() as usize,
            ));
        }
    }
}

} // verus!
