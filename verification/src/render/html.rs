//! HTML from a render tree. Text and attribute values are written as they
//! are: nothing is escaped.

use crate::model::render::{renderables_model, Renderable, RenderableModel};
use crate::model::slots::Slots;
use crate::model::value::{shown, Attributes, AttributesModel, ValueModel};
use crate::text::same_text;
use vstd::prelude::*;
use vstd::string::*;

verus! {

/// Whether an element of this name never has content, and so no closing tag.
pub open spec fn is_void(name: Seq<char>) -> bool {
    name == "area"@ || name == "base"@ || name == "br"@ || name == "col"@ || name == "embed"@
        || name == "hr"@ || name == "img"@ || name == "input"@ || name == "link"@ || name
        == "meta"@ || name == "param"@ || name == "source"@ || name == "track"@ || name == "wbr"@
}

/// The text of the first `count` attributes: for each, a space, its key,
/// `="`, its value as text, and `"`.
pub open spec fn attributes_html(attributes: AttributesModel, count: nat, slots: Seq<ValueModel>) -> Seq<char>
    decreases count,
{
    if count == 0 || count > attributes.len() {
        Seq::empty()
    } else {
        attributes_html(attributes, (count - 1) as nat, slots) + " "@ + attributes[count - 1].0 + "=\""@
            + shown(attributes[count - 1].1, slots) + "\""@
    }
}

/// The HTML of the first `count` pieces of a list, one after the other.
pub open spec fn html_list(items: Seq<RenderableModel>, count: nat, slots: Seq<ValueModel>) -> Seq<char>
    decreases items, count,
{
    if count == 0 || count > items.len() {
        Seq::empty()
    } else {
        html_list(items, (count - 1) as nat, slots) + html(items[count - 1], slots)
    }
}

/// The HTML of a piece of output. Text is itself. A run of pieces is the
/// pieces one after the other. An element is `<`, its name, its attributes
/// and `>`, and then, unless it is void, its children and `</`, its name and
/// `>`. Nothing is empty.
pub open spec fn html(node: RenderableModel, slots: Seq<ValueModel>) -> Seq<char>
    decreases node, 0nat,
{
    match node {
        RenderableModel::String(text) => text,
        RenderableModel::Fragment(children) => html_list(children, children.len(), slots),
        RenderableModel::Tag { name, attributes, children } => {
            let open = "<"@ + name + match attributes {
                Some(found) => attributes_html(found, found.len(), slots),
                None => Seq::empty(),
            } + ">"@;
            if is_void(name) {
                open
            } else {
                open + match children {
                    Some(list) => html_list(list, list.len(), slots),
                    None => Seq::empty(),
                } + "</"@ + name + ">"@
            }
        },
        RenderableModel::Null => Seq::empty(),
    }
}

/// Whether an element of this name never has content.
fn void_element(name: &str) -> (found: bool)
    ensures
        found == is_void(name@),
{
    same_text(name, "area") || same_text(name, "base") || same_text(name, "br") || same_text(
        name,
        "col",
    ) || same_text(name, "embed") || same_text(name, "hr") || same_text(name, "img") || same_text(
        name,
        "input",
    ) || same_text(name, "link") || same_text(name, "meta") || same_text(name, "param")
        || same_text(name, "source") || same_text(name, "track") || same_text(name, "wbr")
}

/// Writes the attributes of an element.
fn render_attributes(attributes: &Attributes, slots: &Slots, out: &mut String)
    ensures
        final(out)@ == old(out)@ + attributes_html(attributes@, attributes@.len(), slots@),
{
    let mut index: usize = 0;
    assert(out@ =~= old(out)@ + attributes_html(attributes@, 0, slots@));
    while index < attributes.entries.len()
        invariant
            index <= attributes.entries.len(),
            attributes@.len() == attributes.entries.len(),
            out@ == old(out)@ + attributes_html(attributes@, index as nat, slots@),
        decreases attributes.entries.len() - index,
    {
        let ghost before = out@;
        let entry = &attributes.entries[index];
        let value = entry.1.to_text(slots);
        out.append(" ");
        out.append(entry.0.as_str());
        out.append("=\"");
        out.append(value.as_str());
        out.append("\"");
        index += 1;
        assert(attributes@[index - 1] == (entry.0@, entry.1@));
        assert(out@ =~= old(out)@ + attributes_html(attributes@, index as nat, slots@));
    }
}

/// Writes a list of pieces, one after the other.
fn render_list(items: &Vec<Renderable>, slots: &Slots, out: &mut String)
    ensures
        final(out)@ == old(out)@ + html_list(renderables_model(items@), items@.len(), slots@),
    decreases items, 1nat,
{
    let mut index: usize = 0;
    assert(out@ =~= old(out)@ + html_list(renderables_model(items@), 0, slots@));
    while index < items.len()
        invariant
            index <= items.len(),
            out@ == old(out)@ + html_list(renderables_model(items@), index as nat, slots@),
        decreases items.len() - index,
    {
        render(&items[index], slots, out);
        index += 1;
        assert(renderables_model(items@)[index - 1] == items@[index - 1]@);
        assert(out@ =~= old(out)@ + html_list(renderables_model(items@), index as nat, slots@));
    }
}

/// Writes the HTML of a piece of output at the end of `out`. The text of a
/// `String` piece is written exactly as it is. The values of attributes
/// are read through `slots`.
pub fn render(node: &Renderable, slots: &Slots, out: &mut String)
    ensures
        final(out)@ == old(out)@ + html(node@, slots@),
        node@ is String ==> final(out)@ == old(out)@ + node@->String_0,
    decreases node, 0nat,
{
    match node {
        Renderable::String(text) => {
            out.append(text.as_str());
        },
        Renderable::Fragment(children) => {
            render_list(children, slots, out);
        },
        Renderable::Tag { name, attributes, children } => {
            out.append("<");
            out.append(name.as_str());
            match attributes {
                Some(found) => {
                    render_attributes(found, slots, out);
                },
                None => {},
            }
            out.append(">");
            let ghost open = "<"@ + name@ + match attributes {
                Some(found) => attributes_html(found@, found@.len(), slots@),
                None => Seq::empty(),
            } + ">"@;
            assert(out@ =~= old(out)@ + open);
            if !void_element(name.as_str()) {
                match children {
                    Some(list) => {
                        render_list(list, slots, out);
                    },
                    None => {},
                }
                out.append("</");
                out.append(name.as_str());
                out.append(">");
                assert(out@ =~= old(out)@ + (open + match children {
                    Some(list) => html_list(renderables_model(list@), list@.len(), slots@),
                    None => Seq::empty(),
                } + "</"@ + name@ + ">"@));
            }
        },
        Renderable::Null => {
            assert(out@ =~= old(out)@ + Seq::<char>::empty());
        },
    }
}

} // verus!
