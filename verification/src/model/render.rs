//! The render tree: what a transformed document is made of.

use crate::model::value::{Attributes, AttributesModel};
use vstd::prelude::*;

verus! {

/// A piece of output.
#[derive(Debug, PartialEq)]
pub enum Renderable {
    /// An element: its name, its attributes and its children.
    Tag { name: String, attributes: Option<Attributes>, children: Option<Vec<Renderable>> },
    /// A run of pieces without an element around them.
    Fragment(Vec<Renderable>),
    /// Literal text.
    String(String),
    /// Nothing.
    Null,
}

/// What a `Renderable` holds.
pub enum RenderableModel {
    Tag {
        name: Seq<char>,
        attributes: Option<AttributesModel>,
        children: Option<Seq<RenderableModel>>,
    },
    Fragment(Seq<RenderableModel>),
    String(Seq<char>),
    Null,
}

/// The models of a list of pieces, one for one.
pub open spec fn renderables_model(items: Seq<Renderable>) -> Seq<RenderableModel>
    decreases items,
{
    Seq::new(
        items.len(),
        |i: int|
            if 0 <= i < items.len() {
                items[i].model()
            } else {
                RenderableModel::Null
            },
    )
}

impl Renderable {
    /// What this piece holds; `@` is short for it.
    pub open spec fn model(&self) -> RenderableModel
        decreases self,
    {
        match self {
            Renderable::Tag { name, attributes, children } => RenderableModel::Tag {
                name: name@,
                attributes: match attributes {
                    Some(found) => Some(found@),
                    None => None,
                },
                children: match children {
                    Some(found) => Some(renderables_model(found@)),
                    None => None,
                },
            },
            Renderable::Fragment(children) => RenderableModel::Fragment(
                renderables_model(children@),
            ),
            Renderable::String(text) => RenderableModel::String(text@),
            Renderable::Null => RenderableModel::Null,
        }
    }
}

impl View for Renderable {
    type V = RenderableModel;

    open spec fn view(&self) -> RenderableModel {
        self.model()
    }
}

/// The models of an optional list of pieces.
pub open spec fn optional_renderables(items: Option<Vec<Renderable>>) -> Option<
    Seq<RenderableModel>,
> {
    match items {
        Some(found) => Some(renderables_model(found@)),
        None => None,
    }
}

/// The model of optional attributes.
pub open spec fn optional_attributes(attributes: Option<Attributes>) -> Option<AttributesModel> {
    match attributes {
        Some(found) => Some(found@),
        None => None,
    }
}

} // verus!
