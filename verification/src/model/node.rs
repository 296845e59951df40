//! Tree nodes: their kinds, their errors, and the tree that holds them.

use crate::model::value::{
    extended, inserted, keyed, keyed_entries, lookup, Attributes, AttributesModel, Value,
};
use crate::model::slots::{count_entries, fresh_slots, placed_entries, Slots};
use std::ops::Range;
use vstd::prelude::*;

verus! {

/// The kind of a node.
#[derive(Clone, Copy, Debug, PartialEq, Eq, Hash, Structural)]
pub enum Type {
    Document,
    Paragraph,
    Heading,
    Blockquote,
    Fence,
    List,
    Item,
    Inline,
    Table,
    TableHead,
    TableBody,
    TableRow,
    TableHeadCell,
    TableCell,
    Emphasis,
    Strong,
    Strike,
    Link,
    Image,
    Text,
    Code,
    SoftBreak,
    HardBreak,
    Rule,
    Nop,
    Error,
    /// An embedded tag; the flag says whether it stands inline.
    Tag(bool),
}

impl Default for Type {
    fn default() -> (kind: Type)
        ensures
            kind == Type::Nop,
    {
        Type::Nop
    }
}

impl Type {
    /// Whether nodes of this kind hold their inline content in an `Inline` child.
    #[verifier::when_used_as_spec(spec_has_inline)]
    pub fn has_inline(&self) -> (found: bool)
        ensures
            found == self.spec_has_inline(),
    {
        match self {
            Type::Paragraph | Type::Heading | Type::Item | Type::TableCell => true,
            _ => false,
        }
    }

    /// Whether nodes of this kind are Paragraph, Heading, Item or TableCell.
    pub open spec fn spec_has_inline(&self) -> bool {
        *self == Type::Paragraph || *self == Type::Heading || *self == Type::Item || *self
            == Type::TableCell
    }

    /// Whether nodes of this kind are inline content.
    #[verifier::when_used_as_spec(spec_is_inline)]
    pub fn is_inline(&self) -> (found: bool)
        ensures
            found == self.spec_is_inline(),
    {
        match self {
            Type::Emphasis
            | Type::Strong
            | Type::Strike
            | Type::Link
            | Type::Text
            | Type::Code
            | Type::SoftBreak
            | Type::HardBreak => true,
            Type::Tag(inline) => *inline,
            _ => false,
        }
    }

    /// Whether nodes of this kind are Emphasis, Strong, Strike, Link, Text,
    /// Code, SoftBreak, HardBreak, or a tag that stands inline.
    pub open spec fn spec_is_inline(&self) -> bool {
        match self {
            Type::Emphasis
            | Type::Strong
            | Type::Strike
            | Type::Link
            | Type::Text
            | Type::Code
            | Type::SoftBreak
            | Type::HardBreak => true,
            Type::Tag(inline) => *inline,
            _ => false,
        }
    }
}

/// How severe an error is.
#[derive(Clone, Copy, Debug, PartialEq, Eq, Structural)]
pub enum ErrorLevel {
    Debug,
    Info,
    Warning,
    Error,
    Critical,
}

/// An error found while the tree was built. It is kept on the node that it concerns.
#[derive(Debug, PartialEq)]
pub struct Error {
    pub id: &'static str,
    pub level: ErrorLevel,
    pub message: String,
    pub location: Option<Range<usize>>,
}

/// What an `Error` holds.
pub struct ErrorModel {
    pub id: Seq<char>,
    pub level: ErrorLevel,
    pub message: Seq<char>,
    pub location: Option<Range<usize>>,
}

impl View for Error {
    type V = ErrorModel;

    open spec fn view(&self) -> ErrorModel {
        ErrorModel {
            id: self.id@,
            level: self.level,
            message: self.message@,
            location: self.location,
        }
    }
}

/// The place of a node in its tree.
pub type NodeRef = usize;

/// A node of the tree. Its children are places in the tree that holds it.
#[derive(Debug, PartialEq)]
pub struct Node {
    pub kind: Type,
    pub tag: Option<String>,
    pub attributes: Option<Attributes>,
    pub children: Option<Vec<NodeRef>>,
    pub location: Option<Range<usize>>,
    pub errors: Option<Vec<Error>>,
}

/// What a `Node` holds.
pub struct NodeModel {
    pub kind: Type,
    pub tag: Option<Seq<char>>,
    pub attributes: Option<AttributesModel>,
    pub children: Option<Seq<NodeRef>>,
    pub location: Option<Range<usize>>,
    pub errors: Option<Seq<ErrorModel>>,
}

/// The models of a list of errors, one for one.
pub open spec fn errors_model(errors: Seq<Error>) -> Seq<ErrorModel> {
    Seq::new(errors.len(), |i: int| errors[i]@)
}

impl View for Node {
    type V = NodeModel;

    open spec fn view(&self) -> NodeModel {
        NodeModel {
            kind: self.kind,
            tag: match self.tag {
                Some(name) => Some(name@),
                None => None,
            },
            attributes: match self.attributes {
                Some(attributes) => Some(attributes@),
                None => None,
            },
            children: match self.children {
                Some(children) => Some(children@),
                None => None,
            },
            location: self.location,
            errors: match self.errors {
                Some(errors) => Some(errors_model(errors@)),
                None => None,
            },
        }
    }
}

impl NodeModel {
    /// The node with one more child, at the end.
    pub open spec fn with_child(self, child: NodeRef) -> NodeModel {
        NodeModel {
            children: Some(
                match self.children {
                    Some(children) => children.push(child),
                    None => seq![child],
                },
            ),
            ..self
        }
    }

    /// The value of the attribute `key`.
    pub open spec fn attribute(self, key: Seq<char>) -> Option<crate::model::value::ValueModel> {
        match self.attributes {
            Some(attributes) => lookup(attributes, key),
            None => None,
        }
    }

    /// The node with each entry of `attributes` set, in order.
    pub open spec fn with_attributes(self, attributes: AttributesModel) -> NodeModel {
        NodeModel {
            attributes: Some(
                match self.attributes {
                    Some(held) => extended(held, attributes),
                    None => attributes,
                },
            ),
            ..self
        }
    }

    /// The node with the attribute `key` set to `value`.
    pub open spec fn with_attribute(
        self,
        key: Seq<char>,
        value: crate::model::value::ValueModel,
    ) -> NodeModel {
        NodeModel {
            attributes: Some(
                match self.attributes {
                    Some(held) => inserted(held, key, value),
                    None => seq![(key, value)],
                },
            ),
            ..self
        }
    }

    /// The attributes of the node; none where it has no mapping of them.
    pub open spec fn attribute_list(self) -> AttributesModel {
        match self.attributes {
            Some(attributes) => attributes,
            None => Seq::empty(),
        }
    }

    /// The children of the node; none where it has no list of them.
    pub open spec fn child_list(self) -> Seq<NodeRef> {
        match self.children {
            Some(children) => children,
            None => Seq::empty(),
        }
    }
}

/// Whether the keys of the attributes of a node are unique, in every mapping among them.
pub open spec fn keyed_node(node: NodeModel) -> bool {
    match node.attributes {
        Some(attributes) => keyed_entries(attributes),
        None => true,
    }
}

/// Whether the keys of the attributes of every node are unique, in every mapping among them.
pub open spec fn keyed_nodes(nodes: Seq<NodeModel>) -> bool {
    forall|i: int| 0 <= i < nodes.len() ==> keyed_node(#[trigger] nodes[i])
}

impl Node {
    /// A node of a kind, with nothing else set.
    pub fn new(kind: Type) -> (node: Node)
        ensures
            node@ == (NodeModel {
                kind,
                tag: None,
                attributes: None,
                children: None,
                location: None,
                errors: None,
            }),
    {
        Node { kind, tag: None, attributes: None, children: None, location: None, errors: None }
    }

    /// Adds a child at the end.
    pub fn push(&mut self, child: NodeRef)
        ensures
            final(self)@ == old(self)@.with_child(child),
    {
        match &mut self.children {
            Some(children) => {
                children.push(child);
            },
            None => {
                let mut children = Vec::new();
                children.push(child);
                assert(children@ =~= seq![child]);
                self.children = Some(children);
            },
        }
    }

    /// The value of the attribute `key`.
    pub fn attribute(&self, key: &str) -> (value: Option<&Value>)
        ensures
            match value {
                Some(found) => self@.attribute(key@) == Some(found@),
                None => self@.attribute(key@) is None,
            },
    {
        match &self.attributes {
            Some(attributes) => attributes.get(key),
            None => None,
        }
    }

    /// Sets each entry of `attributes`, in order.
    pub fn set_attributes(&mut self, attributes: Attributes)
        ensures
            final(self)@ == old(self)@.with_attributes(attributes@),
            keyed_node(old(self)@) && keyed_entries(attributes@) ==> keyed_node(final(self)@),
    {
        match &mut self.attributes {
            Some(held) => {
                held.extend(attributes);
            },
            None => {
                self.attributes = Some(attributes);
            },
        }
    }

    /// Sets the attribute `key` to `value` and returns the value that it had before.
    pub fn set_attribute(&mut self, key: String, value: Value) -> (previous: Option<Value>)
        ensures
            final(self)@ == old(self)@.with_attribute(key@, value@),
            match previous {
                Some(before) => old(self)@.attribute(key@) == Some(before@),
                None => old(self)@.attribute(key@) is None,
            },
            keyed_node(old(self)@) && keyed(value@) ==> keyed_node(final(self)@),
    {
        match &mut self.attributes {
            Some(held) => held.insert(key, value),
            None => {
                let mut held = Attributes::new();
                assert(keyed_entries(held@));
                held.insert(key, value);
                assert(held@ =~= seq![(key@, value@)]);
                self.attributes = Some(held);
                None
            },
        }
    }
}

/// A tree of nodes. The node at place 0 is its root; the children of a node
/// are places in `nodes`. The slots of the expressions in the attributes
/// of the nodes stand in `slots`.
#[derive(Debug)]
pub struct Document {
    pub nodes: Vec<Node>,
    pub slots: Slots,
}

/// The models of a list of nodes, one for one.
pub open spec fn nodes_model(nodes: Seq<Node>) -> Seq<NodeModel> {
    Seq::new(nodes.len(), |i: int| nodes[i]@)
}

impl View for Document {
    type V = Seq<NodeModel>;

    open spec fn view(&self) -> Seq<NodeModel> {
        nodes_model(self.nodes@)
    }
}

/// Every child of a node stands after it in the tree: no node is reached
/// from itself, and walking down from any node ends.
pub open spec fn children_follow(nodes: Seq<NodeModel>) -> bool {
    forall|parent: int, index: int|
        0 <= parent < nodes.len() && 0 <= index < nodes[parent].child_list().len() ==> parent < (
        #[trigger] nodes[parent].child_list()[index]) < nodes.len()
}

/// The number of expressions in the attributes of the first `upto` nodes.
pub open spec fn count_nodes(nodes: Seq<NodeModel>, upto: int) -> nat
    decreases upto,
{
    if upto <= 0 || upto > nodes.len() {
        0
    } else {
        count_nodes(nodes, upto - 1) + count_entries(
            nodes[upto - 1].attribute_list(),
            nodes[upto - 1].attribute_list().len() as int,
        )
    }
}

/// A node with every expression in its attributes placed, the first at `base`.
pub open spec fn placed_node(node: NodeModel, base: nat) -> NodeModel {
    NodeModel {
        attributes: match node.attributes {
            Some(attributes) => Some(placed_entries(attributes, base)),
            None => None,
        },
        ..node
    }
}

/// The nodes with every expression in their attributes placed: each holds
/// a slot of its own, the first the slot at `base`, and those that follow the
/// slots that follow, node by node.
pub open spec fn placed_nodes(nodes: Seq<NodeModel>, base: nat) -> Seq<NodeModel> {
    Seq::new(nodes.len(), |i: int| placed_node(nodes[i], base + count_nodes(nodes, i)))
}

/// Places every expression in the attributes of a node.
fn adopt_node(slots: &mut Slots, node: &mut Node)
    ensures
        final(node)@ == placed_node(old(node)@, old(slots)@.len()),
        final(slots)@ == old(slots)@ + fresh_slots(
            count_entries(old(node)@.attribute_list(), old(node)@.attribute_list().len() as int),
        ),
{
    match &mut node.attributes {
        Some(attributes) => {
            slots.adopt_attributes(attributes);
        },
        None => {
            assert(slots@ =~= old(slots)@ + fresh_slots(0));
        },
    }
}

impl Document {
    /// Gives every expression in the attributes of the nodes a slot of its
    /// own, new in the table of the tree, and its place.
    pub fn adopt(&mut self)
        ensures
            keyed_nodes(old(self)@) ==> keyed_nodes(final(self)@),
            final(self)@ == placed_nodes(old(self)@, old(self).slots@.len()),
            final(self).slots@ == old(self).slots@ + fresh_slots(
                count_nodes(old(self)@, old(self)@.len() as int),
            ),
    {
        proof {
            if keyed_nodes(self@) {
                let base = self.slots@.len();
                let placed = placed_nodes(self@, base);
                assert forall|i: int| 0 <= i < placed.len() implies keyed_node(
                    #[trigger] placed[i],
                ) by {
                    assert(keyed_node(self@[i]));
                    if self@[i].attributes is Some {
                        crate::model::slots::lemma_placed_entries_keyed(
                            self@[i].attributes.unwrap(),
                            base + count_nodes(self@, i),
                        );
                    }
                }
            }
        }
        let ghost before = self@;
        let ghost given = self.slots@;
        let count = self.nodes.len();
        let mut index: usize = 0;
        assert(self.slots@ =~= given + fresh_slots(0));
        while index < count
            invariant
                index <= count,
                count == self.nodes.len(),
                before.len() == count,
                forall|k: int|
                    0 <= k < index ==> (#[trigger] self@[k]) == placed_node(
                        before[k],
                        given.len() + count_nodes(before, k),
                    ),
                forall|k: int| index <= k < count ==> (#[trigger] self@[k]) == before[k],
                self.slots@ == given + fresh_slots(count_nodes(before, index as int)),
            decreases count - index,
        {
            let ghost nodes_before = self@;
            let ghost held = self.nodes@;
            assert(nodes_before[index as int] == before[index as int]);
            assert(nodes_before[index as int] == held[index as int]@);
            adopt_node(&mut self.slots, &mut self.nodes[index]);
            assert(self@[index as int] == self.nodes@[index as int]@);
            assert forall|k: int| 0 <= k < count && k != index implies (#[trigger] self@[k])
                == nodes_before[k] by {
                assert(self.nodes@[k] == held[k]);
                assert(nodes_before[k] == held[k]@);
            }
            index += 1;
            assert(self.slots@ =~= given + fresh_slots(count_nodes(before, index as int)));
        }
        assert(self@ =~= placed_nodes(before, given.len()));
    }

    /// A tree that holds only `root`, with a table without slots.
    pub fn new(root: Node) -> (document: Document)
        ensures
            document@ == seq![root@],
            document.slots@ == Seq::<crate::model::value::ValueModel>::empty(),
    {
        let mut nodes = Vec::new();
        nodes.push(root);
        let document = Document { nodes, slots: Slots::new() };
        assert(document@ =~= seq![root@]);
        document
    }

    /// The number of nodes.
    pub fn len(&self) -> (count: usize)
        ensures
            count == self@.len(),
    {
        self.nodes.len()
    }

    /// The node at a place, if the tree has that place.
    pub fn node(&self, place: NodeRef) -> (node: Option<&Node>)
        ensures
            match node {
                Some(found) => place < self@.len() && found@ == self@[place as int] && *found
                    == self.nodes[place as int],
                None => place >= self@.len(),
            },
    {
        if place < self.nodes.len() {
            Some(&self.nodes[place])
        } else {
            None
        }
    }

    /// The root, if the tree has any node.
    pub fn root(&self) -> (node: Option<&Node>)
        ensures
            match node {
                Some(found) => 0 < self@.len() && found@ == self@[0],
                None => self@.len() == 0,
            },
    {
        self.node(0)
    }
}

} // verus!
