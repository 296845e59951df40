//! Transforming a tree into a render tree, by the schemas of a configuration.

use crate::model::node::{Document, Node, NodeModel, NodeRef, Type};
use crate::model::render::{
    optional_attributes, optional_renderables, renderables_model, Renderable, RenderableModel,
};
use crate::model::schema::{Attribute, AttributeRender, Callback, Config, Schema, Transform};
use crate::model::slots::Slots;
use crate::model::value::{
    inserted, resolved_model, shown, unique_keys, Attributes, AttributesModel, Value, ValueModel,
};
use crate::text::same_text;
use vstd::prelude::*;
use vstd::string::*;

verus! {

/// The place of the first schema for the tag `name` at or after `from`, or the number of schemas.
pub open spec fn find_name<C>(tags: Seq<(String, Schema<C>)>, name: Seq<char>, from: int) -> int
    decreases tags.len() - from,
{
    if from < 0 || from >= tags.len() {
        tags.len() as int
    } else if tags[from].0@ == name {
        from
    } else {
        find_name(tags, name, from + 1)
    }
}

/// The place of the first schema for `kind` at or after `from`, or the number of schemas.
pub open spec fn find_kind<C>(nodes: Seq<(Type, Schema<C>)>, kind: Type, from: int) -> int
    decreases nodes.len() - from,
{
    if from < 0 || from >= nodes.len() {
        nodes.len() as int
    } else if nodes[from].0 == kind {
        from
    } else {
        find_kind(nodes, kind, from + 1)
    }
}

/// The schema for the tag name of a node, where it has one and a schema is
/// kept for it.
pub open spec fn tag_schema<C>(node: NodeModel, config: Config<C>) -> Option<Schema<C>> {
    match node.tag {
        Some(name) => if find_name(config.tags@, name, 0) < config.tags@.len() {
            Some(config.tags@[find_name(config.tags@, name, 0)].1)
        } else {
            None
        },
        None => None,
    }
}

/// The schema of a node: that of its tag name, or else that of its kind.
pub open spec fn schema_of<C>(node: NodeModel, config: Config<C>) -> Option<Schema<C>> {
    match tag_schema(node, config) {
        Some(schema) => Some(schema),
        None => if find_kind(config.nodes@, node.kind, 0) < config.nodes@.len() {
            Some(config.nodes@[find_kind(config.nodes@, node.kind, 0)].1)
        } else {
            None
        },
    }
}

/// The name under which a rule renders the attribute `key`, if it renders it.
pub open spec fn rendered_name(key: Seq<char>, rule: Attribute) -> Option<Seq<char>> {
    match rule.render {
        AttributeRender::True => Some(key),
        AttributeRender::Name(name) => Some(name@),
        AttributeRender::False => None,
    }
}

/// The attributes to render after the rules from `from` on are applied to
/// `out`: each rule that renders its attribute sets the node's value for it,
/// where the node has one, under the rule's name for it.
pub open spec fn rendered_attributes(
    node: NodeModel,
    rules: Seq<(String, Attribute)>,
    from: int,
    out: AttributesModel,
) -> AttributesModel
    decreases rules.len() - from,
{
    if from < 0 || from >= rules.len() {
        out
    } else {
        rendered_attributes(
            node,
            rules,
            from + 1,
            match rendered_name(rules[from].0@, rules[from].1) {
                Some(name) => match node.attribute(rules[from].0@) {
                    Some(value) => inserted(out, name, value),
                    None => out,
                },
                None => out,
            },
        )
    }
}

/// The attributes that a node is rendered with: what the rules of its
/// schema give, and none where that is empty.
pub open spec fn attributes_of<C>(node: NodeModel, config: Config<C>) -> Option<AttributesModel> {
    match schema_of(node, config) {
        Some(schema) => match schema.attributes {
            Some(rules) => if rendered_attributes(node, rules@, 0, Seq::empty()).len() > 0 {
                Some(rendered_attributes(node, rules@, 0, Seq::empty()))
            } else {
                None
            },
            None => None,
        },
        None => None,
    }
}

/// What the children from `from` on of the node at `parent` are
/// transformed to, in order. A child that does not stand after its parent
/// and before `limit` is transformed to nothing.
pub open spec fn rendered_children<C: Callback>(
    nodes: Seq<NodeModel>,
    slots: Seq<ValueModel>,
    parent: int,
    children: Seq<NodeRef>,
    from: int,
    config: Config<C>,
    limit: int,
) -> Seq<RenderableModel>
    decreases limit - parent, 0int, children.len() - from,
{
    if from < 0 || from >= children.len() || parent >= limit {
        Seq::empty()
    } else {
        seq![
            if parent < children[from] < limit {
                rendered_node(nodes, slots, children[from] as int, config, limit)
            } else {
                RenderableModel::Null
            },
        ] + rendered_children(nodes, slots, parent, children, from + 1, config, limit)
    }
}

/// What the children of the node at `place` are transformed to; none where
/// the node has no list of children.
pub open spec fn children_of<C: Callback>(
    nodes: Seq<NodeModel>,
    slots: Seq<ValueModel>,
    place: int,
    config: Config<C>,
    limit: int,
) -> Option<Seq<RenderableModel>>
    decreases limit - place, 1int, 0int,
{
    if 0 <= place < nodes.len() && place < limit {
        match nodes[place].children {
            Some(children) => Some(rendered_children(nodes, slots, place, children, 0, config, limit)),
            None => None,
        }
    } else {
        None
    }
}

/// The name of the element of a heading: `h` and the text of its `level`.
pub open spec fn heading_name(node: NodeModel, slots: Seq<ValueModel>) -> Seq<char> {
    "h"@ + match node.attribute("level"@) {
        Some(level) => shown(level, slots),
        None => Seq::empty(),
    }
}

/// The name of the element of a list: `ol` where its `ordered` is true once
/// resolved, and `ul` otherwise.
pub open spec fn list_name(node: NodeModel, slots: Seq<ValueModel>) -> Seq<char> {
    match node.attribute("ordered"@) {
        Some(ordered) => if resolved_model(ordered, slots) == ValueModel::Boolean(true) {
            "ol"@
        } else {
            "ul"@
        },
        None => "ul"@,
    }
}

/// The text of a node: its `content` once resolved, where that is a string.
pub open spec fn content_text(node: NodeModel, slots: Seq<ValueModel>) -> Option<Seq<char>> {
    match node.attribute("content"@) {
        Some(content) => match resolved_model(content, slots) {
            ValueModel::String(text) => Some(text),
            _ => None,
        },
        None => None,
    }
}

/// What a transformation makes of a node, its rendered attributes and its transformed children.
pub open spec fn transformed_by<C: Callback>(
    transform: Transform<C>,
    node: NodeModel,
    attributes: Option<AttributesModel>,
    children: Option<Seq<RenderableModel>>,
    slots: Seq<ValueModel>,
    config: Config<C>,
) -> RenderableModel {
    match transform {
        Transform::Heading => RenderableModel::Tag { name: heading_name(node, slots), attributes, children },
        Transform::List => RenderableModel::Tag { name: list_name(node, slots), attributes, children },
        Transform::Text => match content_text(node, slots) {
            Some(text) => RenderableModel::String(text),
            None => RenderableModel::Null,
        },
        Transform::SoftBreak => RenderableModel::String(" "@),
        Transform::Custom(callback) => callback.transformed(node, attributes, children, slots, config),
    }
}

/// What a node is made of by its schema: what the schema's transformation
/// makes of it; or else the element that the schema renders, with the node's
/// rendered attributes and transformed children; or else the children alone;
/// or else nothing.
pub open spec fn rendered_by<C: Callback>(
    schema: Schema<C>,
    node: NodeModel,
    attributes: Option<AttributesModel>,
    children: Option<Seq<RenderableModel>>,
    slots: Seq<ValueModel>,
    config: Config<C>,
) -> RenderableModel {
    match schema.transform {
        Some(transform) => transformed_by(transform, node, attributes, children, slots, config),
        None => match schema.render {
            Some(name) => RenderableModel::Tag { name: name@, attributes, children },
            None => match children {
                Some(list) => RenderableModel::Fragment(list),
                None => RenderableModel::Null,
            },
        },
    }
}

/// What the node at `place` is transformed to. A node without a schema is
/// transformed to nothing.
pub open spec fn rendered_node<C: Callback>(
    nodes: Seq<NodeModel>,
    slots: Seq<ValueModel>,
    place: int,
    config: Config<C>,
    limit: int,
) -> RenderableModel
    decreases limit - place, 2int, 0int,
{
    if 0 <= place < nodes.len() && place < limit {
        match schema_of(nodes[place], config) {
            Some(schema) => rendered_by(
                schema,
                nodes[place],
                attributes_of(nodes[place], config),
                children_of(nodes, slots, place, config, limit),
                slots,
                config,
            ),
            None => RenderableModel::Null,
        }
    } else {
        RenderableModel::Null
    }
}

/// The schema for a tag name, if one is kept.
fn schema_by_name<'a, C>(tags: &'a Vec<(String, Schema<C>)>, name: &str) -> (schema: Option<
    &'a Schema<C>,
>)
    ensures
        match schema {
            Some(found) => find_name(tags@, name@, 0) < tags@.len() && *found == tags@[find_name(
                tags@,
                name@,
                0,
            )].1,
            None => find_name(tags@, name@, 0) >= tags@.len(),
        },
{
    let mut place: usize = 0;
    while place < tags.len()
        invariant
            place <= tags.len(),
            find_name(tags@, name@, 0) == find_name(tags@, name@, place as int),
        decreases tags.len() - place,
    {
        if same_text(tags[place].0.as_str(), name) {
            return Some(&tags[place].1);
        }
        place += 1;
    }
    None
}

/// The schema for a kind, if one is kept.
fn schema_by_kind<'a, C>(nodes: &'a Vec<(Type, Schema<C>)>, kind: Type) -> (schema: Option<
    &'a Schema<C>,
>)
    ensures
        match schema {
            Some(found) => find_kind(nodes@, kind, 0) < nodes@.len() && *found == nodes@[find_kind(
                nodes@,
                kind,
                0,
            )].1,
            None => find_kind(nodes@, kind, 0) >= nodes@.len(),
        },
{
    let mut place: usize = 0;
    while place < nodes.len()
        invariant
            place <= nodes.len(),
            find_kind(nodes@, kind, 0) == find_kind(nodes@, kind, place as int),
        decreases nodes.len() - place,
    {
        if nodes[place].0 == kind {
            return Some(&nodes[place].1);
        }
        place += 1;
    }
    None
}

/// The schema of a node: that of its tag name, or else that of its kind.
pub fn find_schema<'a, C>(node: &Node, config: &'a Config<C>) -> (schema: Option<&'a Schema<C>>)
    ensures
        match schema {
            Some(found) => schema_of(node@, *config) == Some(*found),
            None => schema_of(node@, *config) is None,
        },
{
    match &node.tag {
        Some(name) => match schema_by_name(&config.tags, name.as_str()) {
            Some(found) => {
                return Some(found);
            },
            None => {},
        },
        None => {},
    }
    schema_by_kind(&config.nodes, node.kind)
}

/// The attributes to render that a list of rules gives for a node.
fn apply_rules(node: &Node, rules: &Vec<(String, Attribute)>) -> (out: Attributes)
    ensures
        out@ == rendered_attributes(node@, rules@, 0, Seq::empty()),
        unique_keys(out@),
{
    let mut out = Attributes::new();
    let mut index: usize = 0;
    while index < rules.len()
        invariant
            index <= rules.len(),
            unique_keys(out@),
            rendered_attributes(node@, rules@, index as int, out@) == rendered_attributes(
                node@,
                rules@,
                0,
                Seq::empty(),
            ),
        decreases rules.len() - index,
    {
        let key = &rules[index].0;
        let name = match &rules[index].1.render {
            AttributeRender::True => Some(key.clone()),
            AttributeRender::Name(name) => Some(name.clone()),
            AttributeRender::False => None,
        };
        match name {
            Some(name) => match node.attribute(key.as_str()) {
                Some(value) => {
                    out.insert(name, value.duplicate());
                },
                None => {},
            },
            None => {},
        }
        index += 1;
    }
    out
}

/// The attributes that a node is rendered with: what the rules of its
/// schema give, and none where that is empty. Their keys are unique.
pub fn transform_attributes<C>(node: &Node, config: &Config<C>) -> (attributes: Option<Attributes>)
    ensures
        optional_attributes(attributes) == attributes_of(node@, *config),
        attributes is Some ==> unique_keys(attributes.unwrap()@),
{
    match find_schema(node, config) {
        Some(schema) => match &schema.attributes {
            Some(rules) => {
                let out = apply_rules(node, rules);
                if out.is_empty() {
                    None
                } else {
                    Some(out)
                }
            },
            None => None,
        },
        None => None,
    }
}

/// The text of a node: its `content` once resolved, where that is a string.
fn content_of(node: &Node, slots: &Slots) -> (text: Option<String>)
    ensures
        match text {
            Some(found) => content_text(node@, slots@) == Some(found@),
            None => content_text(node@, slots@) is None,
        },
{
    match node.attribute("content") {
        Some(content) => match content.settled(slots) {
            Some(found) => match found {
                Value::String(text) => Some(text.clone()),
                _ => None,
            },
            None => None,
        },
        None => None,
    }
}

/// What a transformation makes of a node, its rendered attributes and its transformed children.
fn apply_transform<C: Callback>(
    transform: &Transform<C>,
    node: &Node,
    attributes: Option<Attributes>,
    children: Option<Vec<Renderable>>,
    slots: &Slots,
    config: &Config<C>,
) -> (rendered: Renderable)
    ensures
        rendered@ == transformed_by(
            *transform,
            node@,
            optional_attributes(attributes),
            optional_renderables(children),
            slots@,
            *config,
        ),
{
    match transform {
        Transform::Heading => {
            let mut name = String::from_str("h");
            match node.attribute("level") {
                Some(level) => {
                    let text = level.to_text(slots);
                    name.append(text.as_str());
                },
                None => {
                    assert(name@ =~= "h"@ + Seq::<char>::empty());
                },
            }
            Renderable::Tag { name, attributes, children }
        },
        Transform::List => {
            let ordered = match node.attribute("ordered") {
                Some(value) => match value.settled(slots) {
                    Some(found) => match found {
                        Value::Boolean(flag) => *flag,
                        _ => false,
                    },
                    None => false,
                },
                None => false,
            };
            let name = if ordered {
                String::from_str("ol")
            } else {
                String::from_str("ul")
            };
            Renderable::Tag { name, attributes, children }
        },
        Transform::Text => match content_of(node, slots) {
            Some(text) => Renderable::String(text),
            None => Renderable::Null,
        },
        Transform::SoftBreak => Renderable::String(String::from_str(" ")),
        Transform::Custom(callback) => callback.transform(node, attributes, children, slots, config),
    }
}

/// What a node is made of by its schema.
fn apply_schema<C: Callback>(
    schema: &Schema<C>,
    node: &Node,
    attributes: Option<Attributes>,
    children: Option<Vec<Renderable>>,
    slots: &Slots,
    config: &Config<C>,
) -> (rendered: Renderable)
    ensures
        rendered@ == rendered_by(
            *schema,
            node@,
            optional_attributes(attributes),
            optional_renderables(children),
            slots@,
            *config,
        ),
{
    match &schema.transform {
        Some(transform) => apply_transform(transform, node, attributes, children, slots, config),
        None => match &schema.render {
            Some(name) => Renderable::Tag { name: name.clone(), attributes, children },
            None => match children {
                Some(list) => Renderable::Fragment(list),
                None => Renderable::Null,
            },
        },
    }
}

/// What the children of the node at `place` are transformed to.
fn children_at<C: Callback>(document: &Document, place: NodeRef, config: &Config<C>, limit: usize)
    -> (children: Option<Vec<Renderable>>)
    ensures
        optional_renderables(children) == children_of(
            document@,
            document.slots@,
            place as int,
            *config,
            limit as int,
        ),
    decreases limit - place, 1int, 0int,
{
    if place >= document.nodes.len() || place >= limit {
        return None;
    }
    match &document.nodes[place].children {
        Some(list) => {
            let mut out: Vec<Renderable> = Vec::new();
            let mut index: usize = 0;
            assert(renderables_model(out@) =~= Seq::empty());
            while index < list.len()
                invariant
                    index <= list.len(),
                    place < limit,
                    renderables_model(out@) + rendered_children(
                        document@,
                        document.slots@,
                        place as int,
                        list@,
                        index as int,
                        *config,
                        limit as int,
                    ) == rendered_children(document@, document.slots@, place as int, list@, 0, *config, limit as int),
                decreases list.len() - index,
            {
                let ghost before = renderables_model(out@);
                let child = list[index];
                let rendered = if place < child && child < limit {
                    transform_at(document, child, config, limit)
                } else {
                    Renderable::Null
                };
                out.push(rendered);
                assert(renderables_model(out@) =~= before.push(rendered@));
                assert(before + rendered_children(
                    document@,
                    document.slots@,
                    place as int,
                    list@,
                    index as int,
                    *config,
                    limit as int,
                ) =~= before.push(rendered@) + rendered_children(
                    document@,
                    document.slots@,
                    place as int,
                    list@,
                    index + 1,
                    *config,
                    limit as int,
                ));
                index += 1;
            }
            assert(renderables_model(out@) + Seq::empty() =~= renderables_model(out@));
            Some(out)
        },
        None => None,
    }
}

/// What the node at `place` is transformed to.
fn transform_at<C: Callback>(document: &Document, place: NodeRef, config: &Config<C>, limit: usize)
    -> (rendered: Renderable)
    ensures
        rendered@ == rendered_node(document@, document.slots@, place as int, *config, limit as int),
    decreases limit - place, 2int, 0int,
{
    if place >= document.nodes.len() || place >= limit {
        return Renderable::Null;
    }
    let node = &document.nodes[place];
    match find_schema(node, config) {
        Some(schema) => {
            let attributes = transform_attributes(node, config);
            let children = children_at(document, place, config, limit);
            apply_schema(schema, node, attributes, children, &document.slots, config)
        },
        None => Renderable::Null,
    }
}

/// Transforms the children of a node of the tree, in order; gives none
/// where the node has no list of children.
pub fn transform_children<C: Callback>(document: &Document, node: NodeRef, config: &Config<C>)
    -> (children: Option<Vec<Renderable>>)
    ensures
        optional_renderables(children) == children_of(
            document@,
            document.slots@,
            node as int,
            *config,
            document@.len() as int,
        ),
{
    children_at(document, node, config, document.nodes.len())
}

/// Transforms a node of the tree, with all that is below it, into a piece
/// of output. A node without a schema, or a place outside the tree, gives `Null`.
pub fn transform_node<C: Callback>(document: &Document, node: NodeRef, config: &Config<C>)
    -> (rendered: Renderable)
    ensures
        rendered@ == rendered_node(document@, document.slots@, node as int, *config, document@.len() as int),
        node < document@.len() && schema_of(document@[node as int], *config) is None ==> rendered@
            == RenderableModel::Null,
{
    transform_at(document, node, config, document.nodes.len())
}

} // verus!
