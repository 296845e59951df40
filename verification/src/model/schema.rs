//! Schemas: how each kind of node and each tag is rendered, and the
//! variables and functions that expressions are resolved against.

use crate::model::node::{Node, NodeModel, Type};
use crate::model::render::{
    optional_attributes, optional_renderables, Renderable, RenderableModel,
};
use crate::model::slots::Slots;
use crate::model::value::{values_model, Attributes, AttributesModel, Value, ValueModel};
use vstd::prelude::*;

verus! {

/// The type that an attribute's value is meant to have.
#[derive(Clone, Copy, Debug, PartialEq, Eq, Structural)]
pub enum SchemaType {
    String,
    Number,
    Boolean,
    Object,
    Array,
}

/// Whether and how an attribute is rendered.
#[derive(Debug)]
pub enum AttributeRender {
    /// Under another name.
    Name(String),
    /// Under its own name.
    True,
    /// Not at all.
    False,
}

impl Default for AttributeRender {
    fn default() -> (render: AttributeRender)
        ensures
            render == AttributeRender::True,
    {
        AttributeRender::True
    }
}

/// What an `AttributeRender` holds.
pub enum AttributeRenderModel {
    Name(Seq<char>),
    True,
    False,
}

impl View for AttributeRender {
    type V = AttributeRenderModel;

    open spec fn view(&self) -> AttributeRenderModel {
        match self {
            AttributeRender::Name(name) => AttributeRenderModel::Name(name@),
            AttributeRender::True => AttributeRenderModel::True,
            AttributeRender::False => AttributeRenderModel::False,
        }
    }
}

/// What an `Attribute` holds.
pub struct AttributeModel {
    pub kind: Option<SchemaType>,
    pub render: AttributeRenderModel,
    pub required: bool,
}

impl View for Attribute {
    type V = AttributeModel;

    open spec fn view(&self) -> AttributeModel {
        AttributeModel { kind: self.kind, render: self.render@, required: self.required }
    }
}

/// The rules for one attribute.
#[derive(Debug)]
pub struct Attribute {
    pub kind: Option<SchemaType>,
    pub render: AttributeRender,
    pub required: bool,
}

impl Default for Attribute {
    fn default() -> (attribute: Attribute)
        ensures
            attribute == (Attribute { kind: None, render: AttributeRender::True, required: false }),
    {
        Attribute { kind: None, render: AttributeRender::True, required: false }
    }
}

/// What the users of the library supply: how a node is transformed in a way
/// of their own, what a function evaluates to, and what a variable refers
/// to. Each is a function of its arguments alone, which the specification
/// function beside it names; the specification of a callback that names
/// none is that it transforms to nothing, and evaluates and refers to
/// `Undefined`.
pub trait Callback: Sized {
    /// What `transform` makes of a node, its rendered attributes, its
    /// transformed children, the table of slots and the configuration.
    open spec fn transformed(
        &self,
        node: NodeModel,
        attributes: Option<AttributesModel>,
        children: Option<Seq<RenderableModel>>,
        slots: Seq<ValueModel>,
        config: Config<Self>,
    ) -> RenderableModel {
        RenderableModel::Null
    }

    /// Transforms a node, given its rendered attributes, its transformed
    /// children, the table in which the slots of expressions stand, and
    /// the configuration.
    fn transform(
        &self,
        node: &Node,
        attributes: Option<Attributes>,
        children: Option<Vec<Renderable>>,
        slots: &Slots,
        config: &Config<Self>,
    ) -> (rendered: Renderable)
        ensures
            rendered@ == self.transformed(
                node@,
                optional_attributes(attributes),
                optional_renderables(children),
                slots@,
                *config,
            ),
    ;

    /// What `evaluate` gives for the configuration and for parameters as
    /// they are seen through the table of slots: each expression among them
    /// as what stands in its slot.
    open spec fn evaluated(&self, parameters: AttributesModel, config: Config<Self>) -> ValueModel {
        ValueModel::Undefined
    }

    /// Evaluates a function on its resolved parameters: the value depends
    /// on the configuration, on the parameters and on what stands in the
    /// slots of the expressions among them, and on nothing else.
    fn evaluate(&self, parameters: &Attributes, slots: &Slots, config: &Config<Self>) -> (value:
        Value)
        ensures
            value@ == self.evaluated(crate::resolve::seen_entries(parameters@, slots@), *config),
    ;

    /// What `variable` gives for a path.
    open spec fn referred(&self, path: Seq<ValueModel>) -> ValueModel {
        ValueModel::Undefined
    }

    /// The value that a variable's path refers to.
    fn variable(&self, path: &[Value]) -> (value: Value)
        ensures
            value@ == self.referred(values_model(path@)),
    ;
}

/// A callback that holds one value: it evaluates to it, refers to it, and
/// transforms every node to nothing.
#[derive(Debug)]
pub struct Constant {
    pub value: Value,
}

impl Callback for Constant {
    fn transform(
        &self,
        node: &Node,
        attributes: Option<Attributes>,
        children: Option<Vec<Renderable>>,
        slots: &Slots,
        config: &Config<Constant>,
    ) -> (rendered: Renderable) {
        Renderable::Null
    }

    open spec fn evaluated(&self, parameters: AttributesModel, config: Config<Constant>)
        -> ValueModel {
        self.value@
    }

    fn evaluate(&self, parameters: &Attributes, slots: &Slots, config: &Config<Constant>) -> (value:
        Value) {
        self.value.duplicate()
    }

    open spec fn referred(&self, path: Seq<ValueModel>) -> ValueModel {
        self.value@
    }

    fn variable(&self, path: &[Value]) -> (value: Value) {
        self.value.duplicate()
    }
}

/// How a node is transformed where its schema does not leave it to `render`.
#[derive(Debug)]
pub enum Transform<C> {
    /// An element `h1` to `h6`, named after the node's `level`.
    Heading,
    /// An element `ol` where the node's `ordered` is true, and `ul` otherwise.
    List,
    /// The text of the node's `content`.
    Text,
    /// A single space.
    SoftBreak,
    /// What the callback makes of it.
    Custom(C),
}

/// How nodes of one kind, or tags of one name, are rendered.
#[derive(Debug)]
pub struct Schema<C> {
    /// The name of the element to render, if any.
    pub render: Option<String>,
    /// The rules for the attributes, by name.
    pub attributes: Option<Vec<(String, Attribute)>>,
    pub self_closing: bool,
    /// A transformation that takes the place of the rules above.
    pub transform: Option<Transform<C>>,
}

/// Which transformation a schema has.
pub enum TransformModel {
    Heading,
    List,
    Text,
    SoftBreak,
    Custom,
}

/// What a `Schema` holds, but for the callback of a transformation of the user's own.
pub struct SchemaModel {
    pub render: Option<Seq<char>>,
    pub attributes: Option<Seq<(Seq<char>, AttributeModel)>>,
    pub self_closing: bool,
    pub transform: Option<TransformModel>,
}

/// The models of a list of rules, one for one.
pub open spec fn rules_model(rules: Seq<(String, Attribute)>) -> Seq<(Seq<char>, AttributeModel)> {
    Seq::new(rules.len(), |i: int| (rules[i].0@, rules[i].1@))
}

impl<C> View for Schema<C> {
    type V = SchemaModel;

    open spec fn view(&self) -> SchemaModel {
        SchemaModel {
            render: match self.render {
                Some(name) => Some(name@),
                None => None,
            },
            attributes: match self.attributes {
                Some(rules) => Some(rules_model(rules@)),
                None => None,
            },
            self_closing: self.self_closing,
            transform: match self.transform {
                Some(Transform::Heading) => Some(TransformModel::Heading),
                Some(Transform::List) => Some(TransformModel::List),
                Some(Transform::Text) => Some(TransformModel::Text),
                Some(Transform::SoftBreak) => Some(TransformModel::SoftBreak),
                Some(Transform::Custom(_)) => Some(TransformModel::Custom),
                None => None,
            },
        }
    }
}

impl<C> Default for Schema<C> {
    fn default() -> (schema: Schema<C>)
        ensures
            schema.render is None,
            schema.attributes is None,
            !schema.self_closing,
            schema.transform is None,
    {
        Schema { render: None, attributes: None, self_closing: false, transform: None }
    }
}

/// A function that expressions can call.
#[derive(Debug)]
pub struct FunctionSchema<C> {
    pub attributes: Option<Vec<(String, Attribute)>>,
    pub evaluate: C,
}

/// Where the values of variables come from.
#[derive(Debug)]
pub enum Variables<C> {
    /// A callback that is asked for each path.
    Resolver(C),
    /// A mapping that each path is looked up in.
    Values(Attributes),
}

/// Everything that resolution and transformation go by. Where a kind, a tag
/// name or a function name has several entries, the first counts.
#[derive(Debug)]
pub struct Config<C> {
    pub nodes: Vec<(Type, Schema<C>)>,
    pub tags: Vec<(String, Schema<C>)>,
    pub variables: Option<Variables<C>>,
    pub functions: Option<Vec<(String, FunctionSchema<C>)>>,
}

} // verus!
