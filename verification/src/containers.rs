//! Inline containers: where the inline content of a node stands in the tree.
//!
//! A node of a kind that has inline content holds it in an `Inline` child.
//! That is so for events that come in good order: what holds, of which
//! events, is stated and proved here.

use crate::invariants::keeps;
use crate::model::node::{NodeModel, NodeRef, Type};
use crate::parse::{
    after_end, after_event, after_start, build_from, event_kind, plain_node, prepared, with_fence,
    with_tag, with_text, BuildModel,
};
use crate::tag::{tag_of, TagModel};
use crate::tokenize::{EventTagModel, TokenModel};
use std::ops::Range;
use vstd::prelude::*;
use vstd::utf8::encode_utf8;

verus! {

/// Whether every child of every node is a place in the tree.
pub open spec fn children_valid(nodes: Seq<NodeModel>) -> bool {
    forall|n: int, k: int|
        0 <= n < nodes.len() && 0 <= k < nodes[n].child_list().len() ==> (
        #[trigger] nodes[n].child_list()[k]) < nodes.len()
}

/// Whether the children of every node of a kind that has inline content
/// are an `Inline` container, which comes first if there is one, and nodes
/// of kinds that are not inline: no inline node stands directly under such
/// a node, and no second container.
pub open spec fn inline_contained(nodes: Seq<NodeModel>) -> bool {
    forall|n: int, k: int|
        0 <= n < nodes.len() && nodes[n].kind.spec_has_inline() && 0 <= k
            < nodes[n].child_list().len() && (#[trigger] nodes[n].child_list()[k]) < nodes.len()
            ==> !nodes[nodes[n].child_list()[k] as int].kind.spec_is_inline() && (k >= 1
            ==> nodes[nodes[n].child_list()[k] as int].kind != Type::Inline)
}

/// Whether no `Inline` container has a tag name.
pub open spec fn containers_untagged(nodes: Seq<NodeModel>) -> bool {
    forall|n: int| 0 <= n < nodes.len() && (#[trigger] nodes[n]).kind == Type::Inline ==> nodes[n].tag is None
}

/// Whether the tree is in the shape that the builder keeps.
pub open spec fn shaped(nodes: Seq<NodeModel>) -> bool {
    children_valid(nodes) && inline_contained(nodes) && containers_untagged(nodes)
}

/// Whether the open nodes, from the current parent down, are nodes of no
/// kind that has inline content, up to an `Inline` container: the current
/// parent takes inline content.
pub open spec fn takes_inline(nodes: Seq<NodeModel>, stack: Seq<NodeRef>) -> bool
    decreases stack.len(),
{
    stack.len() > 0 && stack.last() < nodes.len() && (nodes[stack.last() as int].kind
        == Type::Inline || (!nodes[stack.last() as int].kind.spec_has_inline() && takes_inline(
        nodes,
        stack.drop_last(),
    )))
}

/// Whether a state is one that a build in good order keeps: the tree is
/// shaped, and while an inline container is remembered, the current parent
/// takes inline content.
pub open spec fn contained(state: BuildModel) -> bool {
    shaped(state.nodes) && (state.inline_parent is Some ==> takes_inline(state.nodes, state.stack))
}

/// Whether a node is one that the builder makes: without children, and
/// without a tag name if it is an `Inline` container.
pub open spec fn fresh(child: NodeModel) -> bool {
    child.children is None && (child.kind == Type::Inline ==> child.tag is None)
}

/// Whether the current parent may get a child of `kind`: where it is of a
/// kind that has inline content, the child is no inline node, and it is an
/// `Inline` container only as the first child.
pub open spec fn accepts(state: BuildModel, kind: Type) -> bool {
    state.stack.len() > 0 && state.stack.last() < state.nodes.len()
        && state.nodes[state.stack.last() as int].kind.spec_has_inline() ==> !kind.spec_is_inline()
        && (kind == Type::Inline ==> state.nodes[state.stack.last() as int].child_list().len()
        == 0)
}

/// Adding a node that the current parent may get keeps the tree shaped.
proof fn lemma_add_shaped(state: BuildModel, child: NodeModel, push: bool)
    requires
        shaped(state.nodes),
        fresh(child),
        accepts(state, child.kind),
        state.nodes.len() < usize::MAX,
    ensures
        shaped(state.add_child(child, push).nodes),
        keeps(state.nodes, state.add_child(child, push).nodes),
        state.add_child(child, push).nodes.len() == state.nodes.len() + 1,
        state.add_child(child, push).nodes[state.nodes.len() as int].kind == child.kind,
{
    let before = state.nodes;
    let after = state.add_child(child, push).nodes;
    let place = before.len() as int;
    assert(after.len() == place + 1);
    assert forall|n: int| 0 <= n < before.len() implies (#[trigger] after[n]).kind == before[n].kind
        && after[n].tag == before[n].tag by {}
    assert(after[place].kind == child.kind);
    assert(after[place].child_list() =~= Seq::<NodeRef>::empty());
    let parented = state.stack.len() > 0 && state.stack.last() < before.len();
    let top = if parented {
        state.stack.last() as int
    } else {
        -1
    };
    assert forall|n: int| 0 <= n < before.len() && n != top implies #[trigger] after[n]
        == before[n] by {}
    if parented {
        assert(after[top].child_list() =~= before[top].child_list().push(place as usize));
    }
    assert forall|n: int, k: int|
        0 <= n < after.len() && 0 <= k < after[n].child_list().len() implies (
    #[trigger] after[n].child_list()[k]) < after.len() by {
        if n == top {
            if k < before[top].child_list().len() {
                assert(after[n].child_list()[k] == before[n].child_list()[k]);
            }
        } else if n < before.len() {
            assert(after[n].child_list()[k] == before[n].child_list()[k]);
        }
    }
    assert forall|n: int, k: int|
        0 <= n < after.len() && after[n].kind.spec_has_inline() && 0 <= k
            < after[n].child_list().len() && (#[trigger] after[n].child_list()[k])
            < after.len() implies !after[after[n].child_list()[k] as int].kind.spec_is_inline()
        && (k >= 1 ==> after[after[n].child_list()[k] as int].kind != Type::Inline) by {
        let c = after[n].child_list()[k] as int;
        if n == top {
            if k < before[top].child_list().len() {
                assert(c == before[n].child_list()[k]);
                assert(before[n].child_list()[k] < before.len());
                assert(after[c].kind == before[c].kind);
                assert(before[n].kind.spec_has_inline());
            } else {
                assert(k == before[top].child_list().len());
                assert(c == place);
                assert(before[top].kind.spec_has_inline());
                assert(after[c].kind == child.kind);
            }
        } else if n < before.len() {
            assert(c == before[n].child_list()[k]);
            assert(before[n].child_list()[k] < before.len());
            assert(after[c].kind == before[c].kind);
        }
    }
    assert forall|n: int| 0 <= n < after.len() && (#[trigger] after[n]).kind
        == Type::Inline implies after[n].tag is None by {
        if n < before.len() {
            assert(before[n].kind == Type::Inline);
        }
    }
}

/// Changing the attributes of a node keeps the tree shaped.
proof fn lemma_update_shaped(nodes: Seq<NodeModel>, place: int, changed: NodeModel)
    requires
        shaped(nodes),
        0 <= place < nodes.len(),
        changed.kind == nodes[place].kind,
        changed.tag == nodes[place].tag,
        changed.children == nodes[place].children,
    ensures
        shaped(nodes.update(place, changed)),
        keeps(nodes, nodes.update(place, changed)),
{
    let after = nodes.update(place, changed);
    assert forall|n: int| 0 <= n < nodes.len() implies (#[trigger] after[n]).kind == nodes[n].kind
        && after[n].tag == nodes[n].tag && after[n].child_list() == nodes[n].child_list() by {}
    assert forall|n: int, k: int|
        0 <= n < after.len() && 0 <= k < after[n].child_list().len() implies (
    #[trigger] after[n].child_list()[k]) < after.len() by {
        assert(after[n].child_list()[k] == nodes[n].child_list()[k]);
    }
    assert forall|n: int, k: int|
        0 <= n < after.len() && after[n].kind.spec_has_inline() && 0 <= k
            < after[n].child_list().len() && (#[trigger] after[n].child_list()[k])
            < after.len() implies !after[after[n].child_list()[k] as int].kind.spec_is_inline()
        && (k >= 1 ==> after[after[n].child_list()[k] as int].kind != Type::Inline) by {
        assert(after[n].child_list()[k] == nodes[n].child_list()[k]);
        assert(nodes[n].child_list()[k] < nodes.len());
    }
    assert forall|n: int| 0 <= n < after.len() && (#[trigger] after[n]).kind
        == Type::Inline implies after[n].tag is None by {
        assert(nodes[n].kind == Type::Inline);
    }
}

/// The current parent takes inline content as long as the kinds of the nodes stay.
proof fn lemma_takes_kept(nodes: Seq<NodeModel>, after: Seq<NodeModel>, stack: Seq<NodeRef>)
    requires
        keeps(nodes, after),
        takes_inline(nodes, stack),
    ensures
        takes_inline(after, stack),
    decreases stack.len(),
{
    assert(after[stack.last() as int].kind == nodes[stack.last() as int].kind);
    if nodes[stack.last() as int].kind != Type::Inline {
        lemma_takes_kept(nodes, after, stack.drop_last());
    }
}

/// A current parent that takes inline content is no node of a kind that has inline content.
proof fn lemma_takes_accepts(state: BuildModel, kind: Type)
    requires
        takes_inline(state.nodes, state.stack),
    ensures
        accepts(state, kind),
        state.stack.len() > 0,
        state.stack.last() < state.nodes.len(),
        !state.nodes[state.stack.last() as int].kind.spec_has_inline(),
{
}

/// Whether an event that is not inline may come while an inline element is
/// the current parent. An element may start there if it is of no kind that
/// has inline content, and is no fenced code block: an image inside a link
/// is such an element. An element may end there, but for a table and its head.
pub open spec fn within_element(event: TokenModel) -> bool {
    match event {
        TokenModel::Start(tag) => !crate::parse::tag_type(tag).spec_has_inline() && !(tag
            is Fenced),
        TokenModel::End(tag) => !(tag is TableHead) && !(tag is Table),
        _ => true,
    }
}

/// Whether an event comes in good order, in the state that it meets.
///
/// An inline event that begins inline content in a node of a kind that has
/// inline content finds that node without children: inline content comes
/// first. An inline element ends only while an element inside the inline
/// container is the current parent. Any other event comes while no inline
/// container is remembered, or while the container is the current parent,
/// or, inside an element of the inline content, where `within_element`
/// admits it. A tag that stands for a block shows no value.
pub open spec fn orderly(state: BuildModel, event: TokenModel) -> bool {
    if event_kind(event).spec_is_inline() {
        &&& (state.inline_parent is None && state.stack.len() > 0 && state.stack.last()
            < state.nodes.len() && state.nodes[state.stack.last() as int].kind.spec_has_inline()
            ==> state.nodes[state.stack.last() as int].child_list().len() == 0)
        &&& (event is End ==> state.inline_parent is Some && !state.top_is(Type::Inline))
    } else {
        &&& (state.inline_parent is None || state.top_is(Type::Inline) || within_element(event))
        &&& (match event {
            TokenModel::MarkdocTag(text, _) => !(tag_of(encode_utf8(text)) is Value),
            _ => true,
        })
    }
}

/// Whether the current parent is fit for whatever an event adds: it takes
/// inline content where the event is inline or an inline container is remembered.
spec fn ready_for(state: BuildModel, inline: bool) -> bool {
    inline || state.inline_parent is Some ==> takes_inline(state.nodes, state.stack)
}

/// Making the state ready for an event in good order keeps the tree
/// shaped, and leaves a current parent that is fit for what the event adds.
proof fn lemma_prepared_contained(state: BuildModel, kind: Type)
    requires
        contained(state),
        kind.spec_is_inline() ==> (state.inline_parent is None && state.stack.len() > 0
            && state.stack.last() < state.nodes.len()
            && state.nodes[state.stack.last() as int].kind.spec_has_inline()
            ==> state.nodes[state.stack.last() as int].child_list().len() == 0),
        prepared(state, kind, true).nodes.len() <= usize::MAX,
    ensures
        shaped(prepared(state, kind, true).nodes),
        keeps(state.nodes, prepared(state, kind, true).nodes),
        ready_for(prepared(state, kind, true), kind.spec_is_inline()),
        kind.spec_is_inline() && state.inline_parent is Some ==> prepared(state, kind, true)
            == state,
        prepared(state, kind, true).inline_parent is Some ==> prepared(state, kind, true) == state
            || (kind.spec_is_inline() && state.inline_parent is None),
{
    reveal(prepared);
    if state.inline_parent is None && kind.spec_is_inline() {
        lemma_add_shaped(state, plain_node(Type::Inline, None), true);
        let opened = state.add_child(plain_node(Type::Inline, None), true);
        assert(opened.stack.last() == state.nodes.len());
        assert(opened.nodes[opened.stack.last() as int].kind == Type::Inline);
    }
}

/// Whether the current parent, if there is one in the tree, is of no kind that has inline content.
spec fn plain_top(state: BuildModel) -> bool {
    state.stack.len() > 0 && state.stack.last() < state.nodes.len()
        ==> !state.nodes[state.stack.last() as int].kind.spec_has_inline()
}

/// Text under a current parent of no kind that has inline content keeps the tree shaped.
proof fn lemma_text_shaped(state: BuildModel, text: Seq<char>, location: Range<usize>)
    requires
        shaped(state.nodes),
        plain_top(state),
        with_text(state, text, location).nodes.len() <= usize::MAX,
    ensures
        shaped(with_text(state, text, location).nodes),
        keeps(state.nodes, with_text(state, text, location).nodes),
        with_text(state, text, location).stack == state.stack,
        with_text(state, text, location).inline_parent == state.inline_parent,
        with_text(state, text, location).inside_fence == state.inside_fence,
{
    reveal(with_text);
    let node = crate::parse::node_with(
        Type::Text,
        location,
        crate::parse::one_attribute("content"@, crate::model::value::ValueModel::String(text)),
    );
    match crate::parse::open_text(state) {
        Some((place, held)) => {
            if text != " "@ {
                lemma_update_shaped(
                    state.nodes,
                    place as int,
                    state.nodes[place as int].with_attribute(
                        "content"@,
                        crate::model::value::ValueModel::String(held + text),
                    ),
                );
            } else {
                lemma_add_shaped(state, node, false);
            }
        },
        None => {
            lemma_add_shaped(state, node, false);
        },
    }
}

/// What a tag does to the open nodes: nothing, or it opens the tag that it
/// adds, or it closes a current parent that has a tag name.
spec fn tag_step(state: BuildModel, after: BuildModel, inline: bool) -> bool {
    ||| after.stack == state.stack
    ||| (after.stack == state.stack.push(state.nodes.len() as usize) && after.nodes.len()
        == state.nodes.len() + 1 && after.nodes[state.nodes.len() as int].kind == Type::Tag(
        inline,
    ))
    ||| (state.stack.len() > 0 && state.stack.last() < state.nodes.len()
        && state.nodes[state.stack.last() as int].tag is Some && after.stack
        == state.stack.drop_last())
}

/// A tag keeps the tree shaped, where the current parent is of no kind that
/// has inline content or the tag stands for a block and shows no value.
proof fn lemma_tag_shaped(state: BuildModel, tag: TagModel, inline: bool, location: Range<usize>)
    requires
        shaped(state.nodes),
        plain_top(state) || (!inline && !(tag is Value)),
        with_tag(state, tag, inline, location).nodes.len() <= usize::MAX,
    ensures
        shaped(with_tag(state, tag, inline, location).nodes),
        keeps(state.nodes, with_tag(state, tag, inline, location).nodes),
        with_tag(state, tag, inline, location).inline_parent == state.inline_parent,
        with_tag(state, tag, inline, location).inside_fence == state.inside_fence,
        tag_step(state, with_tag(state, tag, inline, location), inline),
{
    reveal(with_tag);
    let after = with_tag(state, tag, inline, location);
    match tag {
        TagModel::Open(name, attributes) => {
            lemma_add_shaped(
                state,
                NodeModel {
                    kind: Type::Tag(inline),
                    tag: Some(name),
                    attributes,
                    children: None,
                    location: Some(location),
                    errors: None,
                },
                true,
            );
        },
        TagModel::Standalone(name, attributes) => {
            lemma_add_shaped(
                state,
                NodeModel {
                    kind: Type::Tag(inline),
                    tag: Some(name),
                    attributes,
                    children: None,
                    location: Some(location),
                    errors: None,
                },
                false,
            );
        },
        TagModel::Close(name) => {
            if crate::parse::top_has_tag(state, name) {
                assert(keeps(state.nodes, after.nodes));
            } else {
                lemma_add_shaped(
                    state,
                    crate::parse::missing_opening_node(name, inline, location),
                    false,
                );
            }
        },
        TagModel::Annotation(attributes) => {
            match state.inline_parent {
                Some(place) => {
                    if place < state.nodes.len() {
                        lemma_update_shaped(
                            state.nodes,
                            place as int,
                            state.nodes[place as int].with_attributes(attributes),
                        );
                    } else {
                        assert(keeps(state.nodes, after.nodes));
                    }
                },
                None => {
                    assert(keeps(state.nodes, after.nodes));
                },
            }
        },
        TagModel::Value(value) => {
            lemma_add_shaped(
                state,
                crate::parse::node_with(
                    Type::Text,
                    location,
                    crate::parse::one_attribute("content"@, value),
                ),
                false,
            );
        },
        TagModel::Error(text) => {
            lemma_add_shaped(state, crate::parse::syntax_error_node(text, location), false);
        },
    }
}

/// A tag keeps the current parent one that takes inline content.
proof fn lemma_tag_takes(state: BuildModel, after: BuildModel, inline: bool)
    requires
        shaped(state.nodes),
        takes_inline(state.nodes, state.stack),
        keeps(state.nodes, after.nodes),
        tag_step(state, after, inline),
        after.nodes.len() <= usize::MAX,
    ensures
        takes_inline(after.nodes, after.stack),
{
    lemma_takes_kept(state.nodes, after.nodes, state.stack);
    if after.stack == state.stack {
    } else if after.stack == state.stack.push(state.nodes.len() as usize) && after.nodes.len()
        == state.nodes.len() + 1 && after.nodes[state.nodes.len() as int].kind == Type::Tag(
        inline,
    ) {
        assert(after.stack.drop_last() =~= state.stack);
    } else {
        assert(state.nodes[state.stack.last() as int].kind != Type::Inline);
        lemma_takes_kept(state.nodes, after.nodes, state.stack.drop_last());
    }
}

/// Whether the events are text and inline tags only.
pub open spec fn flat(events: Seq<(TokenModel, Range<usize>)>) -> bool {
    forall|i: int|
        0 <= i < events.len() ==> match (#[trigger] events[i]).0 {
            TokenModel::Text(_) => true,
            TokenModel::MarkdocTag(_, inline) => inline,
            _ => false,
        }
}

/// The events that the text of a fenced block is split into are text and inline tags only.
proof fn lemma_template_flat(s: Seq<u8>, last: int)
    ensures
        flat(crate::template::template_from(s, last)),
    decreases s.len() - last,
{
    match crate::template::next_tag(s, last) {
        Some((start, end)) => {
            if last < end <= s.len() {
                lemma_template_flat(s, end);
            }
        },
        None => {},
    }
}

/// Whether the open nodes from `base` up are in the tree and of no kind that
/// has inline content, and the one at `base` has no tag name.
spec fn plain_above(state: BuildModel, base: int) -> bool {
    &&& 0 <= base < state.stack.len()
    &&& state.nodes[state.stack[base] as int].tag is None
    &&& forall|k: int|
        base <= k < state.stack.len() ==> (#[trigger] state.stack[k]) < state.nodes.len()
            && !state.nodes[state.stack[k] as int].kind.spec_has_inline()
}

/// Text or an inline tag inside a fenced block keeps the tree shaped and the
/// open nodes above the block of no kind that has inline content.
proof fn lemma_flat_event(
    s: Seq<u8>,
    state: BuildModel,
    event: TokenModel,
    range: Range<usize>,
    offset: usize,
    depth: nat,
    base: int,
)
    requires
        shaped(state.nodes),
        plain_above(state, base),
        state.inline_parent is None,
        match event {
            TokenModel::Text(_) => true,
            TokenModel::MarkdocTag(_, inline) => inline,
            _ => false,
        },
        after_event(s, state, event, range, offset, false, depth).nodes.len() <= usize::MAX,
    ensures
        shaped(after_event(s, state, event, range, offset, false, depth).nodes),
        plain_above(after_event(s, state, event, range, offset, false, depth), base),
        after_event(s, state, event, range, offset, false, depth).inline_parent is None,
        keeps(state.nodes, after_event(s, state, event, range, offset, false, depth).nodes),
{
    reveal(prepared);
    let after = after_event(s, state, event, range, offset, false, depth);
    let location = crate::parse::shifted(range, offset);
    assert(state.stack.last() == state.stack[state.stack.len() - 1]);
    match event {
        TokenModel::Text(text) => {
            if !state.inside_fence {
                lemma_text_shaped(state, text, location);
                assert forall|k: int| base <= k < after.stack.len() implies (
                #[trigger] after.stack[k]) < after.nodes.len()
                    && !after.nodes[after.stack[k] as int].kind.spec_has_inline() by {
                    assert(state.stack[k] < state.nodes.len());
                }
            }
        },
        TokenModel::MarkdocTag(text, inline) => {
            let tag = tag_of(encode_utf8(text));
            lemma_tag_shaped(state, tag, true, location);
            assert forall|k: int| base <= k < after.stack.len() implies (
            #[trigger] after.stack[k]) < after.nodes.len()
                && !after.nodes[after.stack[k] as int].kind.spec_has_inline() by {
                if k < state.stack.len() {
                    assert(state.stack[k] < state.nodes.len());
                    assert(after.stack[k] == state.stack[k]);
                }
            }
            assert(after.stack[base] == state.stack[base]);
        },
        _ => {},
    }
}

/// The text and the inline tags of a fenced block keep the tree shaped.
proof fn lemma_flat_run(
    s: Seq<u8>,
    state: BuildModel,
    events: Seq<(TokenModel, Range<usize>)>,
    index: int,
    offset: usize,
    depth: nat,
    base: int,
)
    requires
        shaped(state.nodes),
        plain_above(state, base),
        state.inline_parent is None,
        flat(events),
        0 <= index,
        build_from(s, state, events, index, offset, false, depth).nodes.len() <= usize::MAX,
    ensures
        shaped(build_from(s, state, events, index, offset, false, depth).nodes),
        keeps(state.nodes, build_from(s, state, events, index, offset, false, depth).nodes),
    decreases events.len() - index,
{
    if index < events.len() {
        let next = after_event(s, state, events[index].0, events[index].1, offset, false, depth);
        let last = build_from(s, next, events, index + 1, offset, false, depth);
        crate::invariants::lemma_build(s, next, events, index + 1, offset, false, depth);
        lemma_flat_event(s, state, events[index].0, events[index].1, offset, depth, base);
        lemma_flat_run(s, next, events, index + 1, offset, depth, base);
        assert forall|i: int| 0 <= i < state.nodes.len() implies (#[trigger] last.nodes[i]).kind
            == state.nodes[i].kind && last.nodes[i].tag == state.nodes[i].tag by {
            assert(next.nodes[i].kind == state.nodes[i].kind);
        }
    }
}

/// The opening of a fenced block keeps the tree shaped.
proof fn lemma_fence_contained(
    s: Seq<u8>,
    ready: BuildModel,
    info: Seq<char>,
    range: Range<usize>,
    offset: usize,
    depth: nat,
)
    requires
        shaped(ready.nodes),
        ready.inline_parent is None,
        with_fence(s, ready, info, range, offset, depth).nodes.len() <= usize::MAX,
    ensures
        shaped(with_fence(s, ready, info, range, offset, depth).nodes),
        with_fence(s, ready, info, range, offset, depth).inline_parent is None,
{
    let node = crate::parse::node_with(
        Type::Fence,
        crate::parse::shifted(range, offset),
        crate::parse::fence_attributes(s, info, range),
    );
    let opened = BuildModel { inside_fence: true, ..ready.add_child(node, true) };
    crate::invariants::lemma_with_fence_keeps(s, ready, info, range, offset, depth);
    if depth > 0 && crate::parse::has_line_feed(s, range) {
        let body = encode_utf8(crate::parse::fence_body(s, range));
        let inner = BuildModel {
            inline_parent: None,
            inside_thead: false,
            inside_fence: false,
            ..opened
        };
        let events = crate::template::template_from(body, 0);
        let shift = offset.saturating_add(
            (crate::template::next_line_feed(s, range.start as int) + 1) as usize,
        );
        crate::invariants::lemma_build(body, inner, events, 0, shift, false, (depth - 1) as nat);
        lemma_add_shaped(ready, node, true);
        lemma_template_flat(body, 0);
        let base = inner.stack.len() - 1;
        assert(inner.stack[base] == ready.nodes.len());
        assert forall|k: int| base <= k < inner.stack.len() implies (#[trigger] inner.stack[k])
            < inner.nodes.len() && !inner.nodes[inner.stack[k] as int].kind.spec_has_inline() by {}
        lemma_flat_run(body, inner, events, 0, shift, (depth - 1) as nat, base);
    } else {
        lemma_add_shaped(ready, node, true);
    }
}

/// The start of an element keeps the state one that a build in good order keeps.
proof fn lemma_start_contained(
    s: Seq<u8>,
    ready: BuildModel,
    tag: EventTagModel,
    range: Range<usize>,
    offset: usize,
    depth: nat,
)
    requires
        shaped(ready.nodes),
        ready_for(ready, crate::parse::tag_type(tag).spec_is_inline()),
        ready.inline_parent is Some ==> !crate::parse::tag_type(tag).spec_has_inline() && !(tag
            is Fenced),
        after_start(s, ready, tag, range, offset, depth).nodes.len() <= usize::MAX,
    ensures
        contained(after_start(s, ready, tag, range, offset, depth)),
{
    let location = crate::parse::shifted(range, offset);
    let kind = crate::parse::tag_type(tag);
    let after = after_start(s, ready, tag, range, offset, depth);
    let inside = kind.spec_is_inline() || ready.inline_parent is Some;
    if inside {
        lemma_takes_accepts(ready, kind);
    }
    crate::invariants::lemma_after_start_keeps(s, ready, tag, range, offset, depth);
    match tag {
        EventTagModel::Heading(level) => {
            lemma_add_shaped(
                ready,
                crate::parse::node_with(
                    kind,
                    location,
                    crate::parse::one_attribute(
                        "level"@,
                        crate::model::value::ValueModel::Number(
                            crate::model::value::number_of_int(level as int),
                        ),
                    ),
                ),
                true,
            );
        },
        EventTagModel::List(start) => {
            lemma_add_shaped(
                ready,
                crate::parse::node_with(kind, location, crate::parse::list_attributes(start)),
                true,
            );
        },
        EventTagModel::Link(destination, title) => {
            lemma_add_shaped(
                ready,
                crate::parse::node_with(
                    kind,
                    location,
                    crate::parse::link_attributes("href"@, destination, title),
                ),
                true,
            );
        },
        EventTagModel::Image(source, title) => {
            lemma_add_shaped(
                ready,
                crate::parse::node_with(
                    kind,
                    location,
                    crate::parse::link_attributes("src"@, source, title),
                ),
                true,
            );
        },
        EventTagModel::Fenced(info) => {
            lemma_fence_contained(s, ready, info, range, offset, depth);
        },
        EventTagModel::TableHead => {
            let head = ready.add_child(plain_node(Type::TableHead, Some(location)), true);
            lemma_add_shaped(ready, plain_node(Type::TableHead, Some(location)), true);
            lemma_add_shaped(head, plain_node(Type::TableRow, Some(location)), true);
            if ready.inline_parent is Some {
                lemma_takes_kept(ready.nodes, head.nodes, ready.stack);
                assert(head.stack.drop_last() =~= ready.stack);
                assert(takes_inline(head.nodes, head.stack));
                lemma_takes_kept(head.nodes, after.nodes, head.stack);
                assert(after.stack.drop_last() =~= head.stack);
            }
        },
        EventTagModel::TableCell => {
            lemma_add_shaped(
                ready,
                plain_node(
                    if ready.inside_thead {
                        Type::TableHeadCell
                    } else {
                        Type::TableCell
                    },
                    Some(location),
                ),
                true,
            );
        },
        _ => {
            lemma_add_shaped(ready, plain_node(kind, Some(location)), true);
        },
    }
    if ready.inline_parent is Some && !(tag is TableHead) {
        lemma_takes_kept(ready.nodes, after.nodes, ready.stack);
        assert(after.stack.drop_last() =~= ready.stack);
        assert(after.stack.last() == ready.nodes.len());
        assert(after.nodes[ready.nodes.len() as int].kind == kind);
    }
}

/// The end of an element keeps the state one that a build in good order keeps.
proof fn lemma_end_contained(ready: BuildModel, tag: EventTagModel)
    requires
        shaped(ready.nodes),
        ready.inline_parent is Some ==> takes_inline(ready.nodes, ready.stack) && !ready.top_is(
            Type::Inline,
        ) && !(tag is TableHead) && !(tag is Table),
        after_end(ready, tag).nodes.len() <= usize::MAX,
    ensures
        contained(after_end(ready, tag)),
{
    match tag {
        EventTagModel::TableHead => {
            lemma_add_shaped(ready.pop().pop(), plain_node(Type::TableBody, None), true);
        },
        _ => {
            if ready.inline_parent is Some {
                assert(ready.nodes[ready.stack.last() as int].kind != Type::Inline);
                assert(takes_inline(ready.nodes, ready.stack.drop_last()));
            }
        },
    }
}

/// An event in good order keeps the state one that a build in good order keeps.
proof fn lemma_event_contained(
    s: Seq<u8>,
    state: BuildModel,
    event: TokenModel,
    range: Range<usize>,
    offset: usize,
    depth: nat,
)
    requires
        contained(state),
        orderly(state, event),
        after_event(s, state, event, range, offset, true, depth).nodes.len() <= usize::MAX,
    ensures
        contained(after_event(s, state, event, range, offset, true, depth)),
{
    let location = crate::parse::shifted(range, offset);
    let kind = event_kind(event);
    let ready = prepared(state, kind, true);
    let after = after_event(s, state, event, range, offset, true, depth);
    let skipped = state.inside_fence && (event is Text || event is Code);
    if !skipped {
        crate::invariants::lemma_prepared_keeps(state, kind, true);
        crate::invariants::lemma_handled_keeps(s, state, event, range, offset, true, depth);
        lemma_prepared_contained(state, kind);
        reveal(prepared);
        match event {
            TokenModel::Text(text) => {
                lemma_takes_accepts(ready, Type::Text);
                lemma_text_shaped(ready, text, location);
                lemma_takes_kept(ready.nodes, after.nodes, ready.stack);
            },
            TokenModel::Code(text) => {
                lemma_takes_accepts(ready, Type::Code);
                lemma_add_shaped(
                    ready,
                    crate::parse::node_with(
                        Type::Code,
                        location,
                        crate::parse::one_attribute(
                            "content"@,
                            crate::model::value::ValueModel::String(text),
                        ),
                    ),
                    false,
                );
                lemma_takes_kept(ready.nodes, after.nodes, ready.stack);
            },
            TokenModel::SoftBreak | TokenModel::HardBreak => {
                lemma_takes_accepts(ready, kind);
                lemma_add_shaped(ready, plain_node(kind, Some(location)), false);
                lemma_takes_kept(ready.nodes, after.nodes, ready.stack);
            },
            TokenModel::Rule => {
                lemma_add_shaped(ready, plain_node(kind, Some(location)), false);
                if ready.inline_parent is Some {
                    lemma_takes_kept(ready.nodes, after.nodes, ready.stack);
                }
            },
            TokenModel::MarkdocTag(text, inline) => {
                let tag = tag_of(encode_utf8(text));
                if inline {
                    lemma_takes_accepts(ready, Type::Text);
                }
                lemma_tag_shaped(ready, tag, inline, location);
                if ready.inline_parent is Some {
                    lemma_tag_takes(ready, after, inline);
                }
            },
            TokenModel::Start(tag) => {
                lemma_start_contained(s, ready, tag, range, offset, depth);
            },
            TokenModel::End(tag) => {
                lemma_end_contained(ready, tag);
            },
            TokenModel::Other => {},
        }
    }
}

/// Whether every event from `index` on comes in good order, in the state that it meets.
pub open spec fn orderly_from(
    s: Seq<u8>,
    state: BuildModel,
    events: Seq<(TokenModel, Range<usize>)>,
    index: int,
    offset: usize,
    depth: nat,
) -> bool
    decreases events.len() - index,
{
    index < 0 || index >= events.len() || (orderly(state, events[index].0) && orderly_from(
        s,
        after_event(s, state, events[index].0, events[index].1, offset, true, depth),
        events,
        index + 1,
        offset,
        depth,
    ))
}

/// Inline content stands in inline containers. Where a build with inline
/// containers begins in a state that such a build keeps, and every event
/// comes in good order, then in the tree that stays within the machine's
/// limits no inline node stands directly under a node of a kind that has
/// inline content, and such a node has at most one `Inline` container,
/// which is its first child.
pub proof fn lemma_inline_contained(
    s: Seq<u8>,
    state: BuildModel,
    events: Seq<(TokenModel, Range<usize>)>,
    index: int,
    offset: usize,
    depth: nat,
)
    requires
        contained(state),
        orderly_from(s, state, events, index, offset, depth),
        build_from(s, state, events, index, offset, true, depth).nodes.len() <= usize::MAX,
    ensures
        contained(build_from(s, state, events, index, offset, true, depth)),
        inline_contained(build_from(s, state, events, index, offset, true, depth).nodes),
    decreases events.len() - index,
{
    if 0 <= index < events.len() {
        let next = after_event(s, state, events[index].0, events[index].1, offset, true, depth);
        crate::invariants::lemma_build(s, next, events, index + 1, offset, true, depth);
        lemma_event_contained(s, state, events[index].0, events[index].1, offset, depth);
        lemma_inline_contained(s, next, events, index + 1, offset, depth);
    }
}

/// Giving the expressions of a tree their slots keeps inline content in its containers.
pub proof fn lemma_placed_contained(nodes: Seq<NodeModel>, base: nat)
    requires
        inline_contained(nodes),
    ensures
        inline_contained(crate::model::node::placed_nodes(nodes, base)),
{
    let placed = crate::model::node::placed_nodes(nodes, base);
    assert forall|i: int| 0 <= i < nodes.len() implies (#[trigger] placed[i]).kind == nodes[i].kind
        && placed[i].child_list() == nodes[i].child_list() by {}
    assert forall|n: int, k: int|
        0 <= n < placed.len() && placed[n].kind.spec_has_inline() && 0 <= k
            < placed[n].child_list().len() && (#[trigger] placed[n].child_list()[k])
            < placed.len() implies !placed[placed[n].child_list()[k] as int].kind.spec_is_inline()
        && (k >= 1 ==> placed[placed[n].child_list()[k] as int].kind != Type::Inline) by {
        assert(placed[n].child_list()[k] == nodes[n].child_list()[k]);
        assert(nodes[n].child_list()[k] < nodes.len());
    }
}

} // verus!
