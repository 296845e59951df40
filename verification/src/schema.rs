//! The schemas of the built-in kinds of nodes.

use crate::model::node::Type;
use crate::model::schema::{
    rules_model, Attribute, AttributeModel, AttributeRender, AttributeRenderModel, Schema,
    SchemaModel, SchemaType, Transform, TransformModel,
};
use vstd::prelude::*;
use vstd::string::*;

verus! {

/// A rule for an attribute that is rendered under its own name.
pub open spec fn shown(kind: SchemaType, required: bool) -> AttributeModel {
    AttributeModel { kind: Some(kind), render: AttributeRenderModel::True, required }
}

/// A rule for an attribute that is not rendered.
pub open spec fn hidden(kind: Option<SchemaType>, required: bool) -> AttributeModel {
    AttributeModel { kind, render: AttributeRenderModel::False, required }
}

/// The schema of an element without rules for attributes.
pub open spec fn element(name: Seq<char>) -> SchemaModel {
    SchemaModel { render: Some(name), attributes: None, self_closing: false, transform: None }
}

/// The schema of an element with rules for attributes.
pub open spec fn element_with(name: Seq<char>, rules: Seq<(Seq<char>, AttributeModel)>)
    -> SchemaModel {
    SchemaModel { render: Some(name), attributes: Some(rules), self_closing: false, transform: None }
}

/// The schema that a built-in kind of node has, if it has one.
pub open spec fn default_schema(kind: Type) -> Option<SchemaModel> {
    match kind {
        Type::Document => Some(
            SchemaModel {
                render: None,
                attributes: Some(seq![("frontmatter"@, hidden(None, false))]),
                self_closing: false,
                transform: None,
            },
        ),
        Type::Heading => Some(
            SchemaModel {
                render: None,
                attributes: Some(seq![("level"@, hidden(Some(SchemaType::String), true))]),
                self_closing: false,
                transform: Some(TransformModel::Heading),
            },
        ),
        Type::Paragraph => Some(element("p"@)),
        Type::Image => Some(
            element_with(
                "img"@,
                seq![
                    ("src"@, shown(SchemaType::String, true)),
                    ("alt"@, shown(SchemaType::String, false)),
                    ("title"@, shown(SchemaType::String, false)),
                ],
            ),
        ),
        Type::Fence => Some(
            element_with(
                "pre"@,
                seq![
                    ("content"@, hidden(Some(SchemaType::String), true)),
                    (
                        "language"@,
                        AttributeModel {
                            kind: Some(SchemaType::String),
                            render: AttributeRenderModel::Name("data-language"@),
                            required: false,
                        },
                    ),
                    ("process"@, hidden(Some(SchemaType::Boolean), false)),
                ],
            ),
        ),
        Type::Blockquote => Some(element("blockquote"@)),
        Type::Item => Some(element("li"@)),
        Type::List => Some(
            SchemaModel {
                render: None,
                attributes: Some(seq![("ordered"@, hidden(Some(SchemaType::Boolean), true))]),
                self_closing: false,
                transform: Some(TransformModel::List),
            },
        ),
        Type::Table => Some(element("table"@)),
        Type::TableBody => Some(element("tbody"@)),
        Type::TableHead => Some(element("thead"@)),
        Type::TableHeadCell => Some(
            element_with(
                "th"@,
                seq![
                    ("width"@, shown(SchemaType::Number, false)),
                    ("align"@, shown(SchemaType::String, false)),
                ],
            ),
        ),
        Type::TableRow => Some(element("tr"@)),
        Type::TableCell => Some(
            element_with(
                "td"@,
                seq![
                    ("colspan"@, shown(SchemaType::Number, false)),
                    ("rowspan"@, shown(SchemaType::Number, false)),
                    ("align"@, shown(SchemaType::String, false)),
                ],
            ),
        ),
        Type::Strong => Some(element("strong"@)),
        Type::Emphasis => Some(element("em"@)),
        Type::Strike => Some(element("s"@)),
        Type::Code => Some(
            element_with("code"@, seq![("content"@, hidden(Some(SchemaType::String), true))]),
        ),
        Type::Link => Some(
            element_with(
                "a"@,
                seq![
                    ("href"@, shown(SchemaType::String, true)),
                    ("title"@, shown(SchemaType::String, false)),
                ],
            ),
        ),
        Type::Inline => Some(
            SchemaModel { render: None, attributes: None, self_closing: false, transform: None },
        ),
        Type::Text => Some(
            SchemaModel {
                render: None,
                attributes: Some(seq![("content"@, shown(SchemaType::String, true))]),
                self_closing: false,
                transform: Some(TransformModel::Text),
            },
        ),
        Type::Rule => Some(element("hr"@)),
        Type::HardBreak => Some(element("br"@)),
        Type::SoftBreak => Some(
            SchemaModel {
                render: None,
                attributes: None,
                self_closing: false,
                transform: Some(TransformModel::SoftBreak),
            },
        ),
        _ => None,
    }
}

/// The place of the schema of a built-in kind among the default schemas.
pub open spec fn default_place(kind: Type) -> int {
    match kind {
        Type::Document => 0,
        Type::Heading => 1,
        Type::Paragraph => 2,
        Type::Image => 3,
        Type::Fence => 4,
        Type::Blockquote => 5,
        Type::Item => 6,
        Type::List => 7,
        Type::Table => 8,
        Type::TableBody => 9,
        Type::TableHead => 10,
        Type::TableHeadCell => 11,
        Type::TableRow => 12,
        Type::TableCell => 13,
        Type::Strong => 14,
        Type::Emphasis => 15,
        Type::Strike => 16,
        Type::Code => 17,
        Type::Link => 18,
        Type::Inline => 19,
        Type::Text => 20,
        Type::Rule => 21,
        Type::HardBreak => 22,
        Type::SoftBreak => 23,
        _ => 24,
    }
}

/// A rule for an attribute.
fn rule(name: &str, kind: Option<SchemaType>, render: AttributeRender, required: bool) -> (entry: (
    String,
    Attribute,
))
    ensures
        entry.0@ == name@,
        entry.1@ == (AttributeModel { kind, render: render@, required }),
{
    (String::from_str(name), Attribute { kind, render, required })
}

/// The schema of an element.
fn render_as<C>(name: &str, attributes: Option<Vec<(String, Attribute)>>) -> (schema: Schema<C>)
    ensures
        schema@ == (SchemaModel {
            render: Some(name@),
            attributes: match attributes {
                Some(rules) => Some(rules_model(rules@)),
                None => None,
            },
            self_closing: false,
            transform: None,
        }),
{
    Schema { render: Some(String::from_str(name)), attributes, self_closing: false, transform: None }
}

/// A list of one rule.
fn one(first: (String, Attribute)) -> (rules: Vec<(String, Attribute)>)
    ensures
        rules_model(rules@) == seq![(first.0@, first.1@)],
{
    let mut rules = Vec::new();
    rules.push(first);
    assert(rules_model(rules@) =~= seq![(first.0@, first.1@)]);
    rules
}

/// A list of two rules.
fn two(first: (String, Attribute), second: (String, Attribute)) -> (rules: Vec<(String, Attribute)>)
    ensures
        rules_model(rules@) == seq![(first.0@, first.1@), (second.0@, second.1@)],
{
    let mut rules = Vec::new();
    rules.push(first);
    rules.push(second);
    assert(rules_model(rules@) =~= seq![(first.0@, first.1@), (second.0@, second.1@)]);
    rules
}

/// A list of three rules.
fn three(first: (String, Attribute), second: (String, Attribute), third: (String, Attribute)) -> (rules:
    Vec<(String, Attribute)>)
    ensures
        rules_model(rules@) == seq![
            (first.0@, first.1@),
            (second.0@, second.1@),
            (third.0@, third.1@),
        ],
{
    let mut rules = Vec::new();
    rules.push(first);
    rules.push(second);
    rules.push(third);
    assert(rules_model(rules@) =~= seq![
        (first.0@, first.1@),
        (second.0@, second.1@),
        (third.0@, third.1@),
    ]);
    rules
}

/// Adds the schemas of the block kinds.
fn push_blocks<C>(nodes: &mut Vec<(Type, Schema<C>)>)
    requires
        old(nodes)@.len() == 0,
    ensures
        final(nodes)@.len() == 14,
        forall|i: int|
            0 <= i < 14 ==> default_place((#[trigger] final(nodes)@[i]).0) == i && default_schema(
                final(nodes)@[i].0,
            ) == Some(final(nodes)@[i].1@),
{
    let string = Some(SchemaType::String);
    let number = Some(SchemaType::Number);
    let boolean = Some(SchemaType::Boolean);
    nodes.push(
        (
            Type::Document,
            Schema {
                render: None,
                attributes: Some(one(rule("frontmatter", None, AttributeRender::False, false))),
                self_closing: false,
                transform: None,
            },
        ),
    );
    nodes.push(
        (
            Type::Heading,
            Schema {
                render: None,
                attributes: Some(one(rule("level", string, AttributeRender::False, true))),
                self_closing: false,
                transform: Some(Transform::Heading),
            },
        ),
    );
    nodes.push((Type::Paragraph, render_as("p", None)));
    nodes.push(
        (
            Type::Image,
            render_as(
                "img",
                Some(
                    three(
                        rule("src", string, AttributeRender::True, true),
                        rule("alt", string, AttributeRender::True, false),
                        rule("title", string, AttributeRender::True, false),
                    ),
                ),
            ),
        ),
    );
    nodes.push(
        (
            Type::Fence,
            render_as(
                "pre",
                Some(
                    three(
                        rule("content", string, AttributeRender::False, true),
                        rule(
                            "language",
                            string,
                            AttributeRender::Name(String::from_str("data-language")),
                            false,
                        ),
                        rule("process", boolean, AttributeRender::False, false),
                    ),
                ),
            ),
        ),
    );
    nodes.push((Type::Blockquote, render_as("blockquote", None)));
    nodes.push((Type::Item, render_as("li", None)));
    nodes.push(
        (
            Type::List,
            Schema {
                render: None,
                attributes: Some(one(rule("ordered", boolean, AttributeRender::False, true))),
                self_closing: false,
                transform: Some(Transform::List),
            },
        ),
    );
    nodes.push((Type::Table, render_as("table", None)));
    nodes.push((Type::TableBody, render_as("tbody", None)));
    nodes.push((Type::TableHead, render_as("thead", None)));
    nodes.push(
        (
            Type::TableHeadCell,
            render_as(
                "th",
                Some(
                    two(
                        rule("width", number, AttributeRender::True, false),
                        rule("align", string, AttributeRender::True, false),
                    ),
                ),
            ),
        ),
    );
    nodes.push((Type::TableRow, render_as("tr", None)));
    nodes.push(
        (
            Type::TableCell,
            render_as(
                "td",
                Some(
                    three(
                        rule("colspan", number, AttributeRender::True, false),
                        rule("rowspan", number, AttributeRender::True, false),
                        rule("align", string, AttributeRender::True, false),
                    ),
                ),
            ),
        ),
    );
}

/// Adds the schemas of the inline kinds.
fn push_inlines<C>(nodes: &mut Vec<(Type, Schema<C>)>)
    requires
        old(nodes)@.len() == 14,
    ensures
        final(nodes)@.len() == 24,
        forall|i: int| 0 <= i < 14 ==> final(nodes)@[i] == old(nodes)@[i],
        forall|i: int|
            14 <= i < 24 ==> default_place((#[trigger] final(nodes)@[i]).0) == i && default_schema(
                final(nodes)@[i].0,
            ) == Some(final(nodes)@[i].1@),
{
    let string = Some(SchemaType::String);
    nodes.push((Type::Strong, render_as("strong", None)));
    nodes.push((Type::Emphasis, render_as("em", None)));
    nodes.push((Type::Strike, render_as("s", None)));
    nodes.push(
        (
            Type::Code,
            render_as("code", Some(one(rule("content", string, AttributeRender::False, true)))),
        ),
    );
    nodes.push(
        (
            Type::Link,
            render_as(
                "a",
                Some(
                    two(
                        rule("href", string, AttributeRender::True, true),
                        rule("title", string, AttributeRender::True, false),
                    ),
                ),
            ),
        ),
    );
    nodes.push(
        (
            Type::Inline,
            Schema { render: None, attributes: None, self_closing: false, transform: None },
        ),
    );
    nodes.push(
        (
            Type::Text,
            Schema {
                render: None,
                attributes: Some(one(rule("content", string, AttributeRender::True, true))),
                self_closing: false,
                transform: Some(Transform::Text),
            },
        ),
    );
    nodes.push((Type::Rule, render_as("hr", None)));
    nodes.push((Type::HardBreak, render_as("br", None)));
    nodes.push(
        (
            Type::SoftBreak,
            Schema {
                render: None,
                attributes: None,
                self_closing: false,
                transform: Some(Transform::SoftBreak),
            },
        ),
    );
}

/// The schemas of the built-in kinds of nodes: one for each kind that
/// `default_schema` knows, at the place that `default_place` gives, and no other.
pub fn default_nodes<C>() -> (nodes: Vec<(Type, Schema<C>)>)
    ensures
        holds_defaults(nodes@),
{
    let mut nodes = Vec::new();
    push_blocks(&mut nodes);
    push_inlines(&mut nodes);
    assert forall|kind: Type| default_schema(kind) is Some implies 0 <= #[trigger] default_place(
        kind,
    ) < 24 && nodes@[default_place(kind)].0 == kind by {
        let place = default_place(kind);
        assert(0 <= place < 24);
        assert(default_place(nodes@[place].0) == place);
    }
    nodes
}

/// Whether a list of schemas holds the default ones: one for each kind that
/// `default_schema` knows, at the place that `default_place` gives, and no other.
pub open spec fn holds_defaults<C>(nodes: Seq<(Type, Schema<C>)>) -> bool {
    &&& nodes.len() == 24
    &&& forall|i: int|
        0 <= i < 24 ==> default_place((#[trigger] nodes[i]).0) == i && default_schema(nodes[i].0)
            == Some(nodes[i].1@)
    &&& forall|kind: Type|
        default_schema(kind) is Some ==> 0 <= #[trigger] default_place(kind) < 24
            && nodes[default_place(kind)].0 == kind
}

/// Looking a kind up from `from` on finds its default schema at its place, if that is not before `from`.
proof fn lemma_find_default<C>(nodes: Seq<(Type, Schema<C>)>, kind: Type, from: int)
    requires
        holds_defaults(nodes),
        0 <= from <= 24,
        default_schema(kind) is Some ==> from <= default_place(kind),
    ensures
        crate::transform::find_kind(nodes, kind, from) == if default_schema(kind) is Some {
            default_place(kind)
        } else {
            24
        },
    decreases 24 - from,
{
    if from < 24 {
        if nodes[from].0 == kind {
            assert(default_place(nodes[from].0) == from);
        } else {
            lemma_find_default(nodes, kind, from + 1);
        }
    }
}

/// Among the default schemas, the schema of a kind is the one that
/// `default_schema` names, and a kind without one has none.
pub proof fn lemma_default_lookup<C>(nodes: Seq<(Type, Schema<C>)>, kind: Type)
    requires
        holds_defaults(nodes),
    ensures
        default_schema(kind) is Some ==> crate::transform::find_kind(nodes, kind, 0) < nodes.len()
            && default_schema(kind) == Some(
            nodes[crate::transform::find_kind(nodes, kind, 0)].1@,
        ),
        default_schema(kind) is None ==> crate::transform::find_kind(nodes, kind, 0)
            == nodes.len(),
{
    lemma_find_default(nodes, kind, 0);
}

} // verus!
