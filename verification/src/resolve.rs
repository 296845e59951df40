//! Resolving the expressions in attribute values: the slot of each
//! expression gets the value of its variable or of its function call.

use crate::model::node::{Document, Node, NodeModel, NodeRef};
use crate::model::schema::{Callback, Config, FunctionSchema, Variables};
use crate::model::slots::{written, Slots};
use crate::model::value::{
    deep_get_from, entries_model, lookup, read, resolved_model, values_model, Attributes,
    AttributesModel, Expression, ExpressionModel, Value, ValueModel,
};
use crate::text::same_text;
use vstd::prelude::*;

verus! {

/// The value that a variable's path refers to. A callback is asked for
/// it. In a mapping of values, the first step of the path, a string, names an
/// entry, and the rest leads into it; a path that leads nowhere refers to `Undefined`.
pub open spec fn variable_value<C: Callback>(
    variables: Option<Variables<C>>,
    path: Seq<ValueModel>,
) -> ValueModel {
    match variables {
        Some(Variables::Resolver(callback)) => callback.referred(path),
        Some(Variables::Values(values)) => if path.len() > 0 {
            match path[0] {
                ValueModel::String(first) => match lookup(values@, first) {
                    Some(found) => match deep_get_from(found, path, 1) {
                        Some(value) => value,
                        None => ValueModel::Undefined,
                    },
                    None => ValueModel::Undefined,
                },
                _ => ValueModel::Undefined,
            }
        } else {
            ValueModel::Undefined
        },
        None => ValueModel::Undefined,
    }
}

/// The place of the first function named `name` at or after `from`, or the number of functions.
pub open spec fn find_function<C>(
    functions: Seq<(String, FunctionSchema<C>)>,
    name: Seq<char>,
    from: int,
) -> int
    decreases functions.len() - from,
{
    if from < 0 || from >= functions.len() {
        functions.len() as int
    } else if functions[from].0@ == name {
        from
    } else {
        find_function(functions, name, from + 1)
    }
}

/// A list of values as seen through the table of slots.
pub open spec fn seen_values(items: Seq<ValueModel>, slots: Seq<ValueModel>) -> Seq<ValueModel>
    decreases items,
{
    Seq::new(
        items.len(),
        |i: int|
            if 0 <= i < items.len() {
                seen_value(items[i], slots)
            } else {
                ValueModel::Null
            },
    )
}

/// A mapping as seen through the table of slots.
pub open spec fn seen_entries(entries: AttributesModel, slots: Seq<ValueModel>) -> AttributesModel
    decreases entries,
{
    Seq::new(
        entries.len(),
        |i: int|
            if 0 <= i < entries.len() {
                (entries[i].0, seen_value(entries[i].1, slots))
            } else {
                (Seq::empty(), ValueModel::Null)
            },
    )
}

/// A value as seen through the table of slots: each expression in it, in
/// whatever hash or array, is what stands in its slot.
pub open spec fn seen_value(value: ValueModel, slots: Seq<ValueModel>) -> ValueModel
    decreases value,
{
    match value {
        ValueModel::Hash(entries) => ValueModel::Hash(seen_entries(entries, slots)),
        ValueModel::Array(items) => ValueModel::Array(seen_values(items, slots)),
        ValueModel::Expression(place, _) => read(slots, place),
        _ => value,
    }
}

/// The value of a call: what the function of that name evaluates to on
/// the parameters as seen through the slots, and `Undefined` where there is
/// no such function.
pub open spec fn function_value<C: Callback>(
    config: Config<C>,
    name: Seq<char>,
    parameters: AttributesModel,
    slots: Seq<ValueModel>,
) -> ValueModel {
    match config.functions {
        Some(list) => {
            let place = find_function(list@, name, 0);
            if place < list@.len() {
                list@[place].1.evaluate.evaluated(seen_entries(parameters, slots), config)
            } else {
                ValueModel::Undefined
            }
        },
        None => ValueModel::Undefined,
    }
}

/// The table after the first `upto` values of a list are resolved, in order.
pub open spec fn resolved_over_values<C: Callback>(
    slots: Seq<ValueModel>,
    items: Seq<ValueModel>,
    upto: int,
    config: Config<C>,
) -> Seq<ValueModel>
    decreases items, upto,
{
    if upto <= 0 || upto > items.len() {
        slots
    } else {
        resolved_slots(resolved_over_values(slots, items, upto - 1, config), items[upto - 1], config)
    }
}

/// The table after the values of the first `upto` entries of a mapping are resolved, in order.
pub open spec fn resolved_over_entries<C: Callback>(
    slots: Seq<ValueModel>,
    entries: AttributesModel,
    upto: int,
    config: Config<C>,
) -> Seq<ValueModel>
    decreases entries, upto,
{
    if upto <= 0 || upto > entries.len() {
        slots
    } else {
        resolved_slots(
            resolved_over_entries(slots, entries, upto - 1, config),
            entries[upto - 1].1,
            config,
        )
    }
}

/// The value of an expression, given the table in which its parameters are resolved.
pub open spec fn expression_value<C: Callback>(
    slots: Seq<ValueModel>,
    expression: ExpressionModel,
    config: Config<C>,
) -> ValueModel {
    match expression {
        ExpressionModel::Function(name, parameters) => function_value(
            config,
            name,
            parameters,
            slots,
        ),
        ExpressionModel::Variable(_, path) => variable_value(config.variables, path),
    }
}

/// The table after a value is resolved: the slot of every expression in it
/// holds the value of the expression. The parameters of a call are resolved
/// before the call is evaluated on them. Values in hashes and arrays are
/// resolved in order. No other slot changes.
pub open spec fn resolved_slots<C: Callback>(
    slots: Seq<ValueModel>,
    value: ValueModel,
    config: Config<C>,
) -> Seq<ValueModel>
    decreases value, 0int,
{
    match value {
        ValueModel::Hash(entries) => resolved_over_entries(
            slots,
            entries,
            entries.len() as int,
            config,
        ),
        ValueModel::Array(items) => resolved_over_values(slots, items, items.len() as int, config),
        ValueModel::Expression(place, ExpressionModel::Function(name, parameters)) => {
            let ready = resolved_over_entries(slots, parameters, parameters.len() as int, config);
            written(ready, place, function_value(config, name, parameters, ready))
        },
        ValueModel::Expression(place, ExpressionModel::Variable(_, path)) => written(
            slots,
            place,
            variable_value(config.variables, path),
        ),
        _ => slots,
    }
}

/// Resolving keeps the number of slots.
pub proof fn lemma_resolved_length<C: Callback>(
    slots: Seq<ValueModel>,
    value: ValueModel,
    config: Config<C>,
)
    ensures
        resolved_slots(slots, value, config).len() == slots.len(),
    decreases value, 0int,
{
    match value {
        ValueModel::Hash(entries) => {
            lemma_resolved_entries_length(slots, entries, entries.len() as int, config);
        },
        ValueModel::Array(items) => {
            lemma_resolved_values_length(slots, items, items.len() as int, config);
        },
        ValueModel::Expression(_, ExpressionModel::Function(_, parameters)) => {
            lemma_resolved_entries_length(slots, parameters, parameters.len() as int, config);
        },
        _ => {},
    }
}

/// Resolving the values of a list keeps the number of slots.
pub proof fn lemma_resolved_values_length<C: Callback>(
    slots: Seq<ValueModel>,
    items: Seq<ValueModel>,
    upto: int,
    config: Config<C>,
)
    ensures
        resolved_over_values(slots, items, upto, config).len() == slots.len(),
    decreases items, upto,
{
    if 0 < upto <= items.len() {
        lemma_resolved_values_length(slots, items, upto - 1, config);
        lemma_resolved_length(
            resolved_over_values(slots, items, upto - 1, config),
            items[upto - 1],
            config,
        );
    }
}

/// Resolving the values of a mapping keeps the number of slots.
pub proof fn lemma_resolved_entries_length<C: Callback>(
    slots: Seq<ValueModel>,
    entries: AttributesModel,
    upto: int,
    config: Config<C>,
)
    ensures
        resolved_over_entries(slots, entries, upto, config).len() == slots.len(),
    decreases entries, upto,
{
    if 0 < upto <= entries.len() {
        lemma_resolved_entries_length(slots, entries, upto - 1, config);
        lemma_resolved_length(
            resolved_over_entries(slots, entries, upto - 1, config),
            entries[upto - 1].1,
            config,
        );
    }
}

/// The value that a variable's path refers to.
fn variable_of<C: Callback>(config: &Config<C>, path: &Vec<Value>) -> (value: Value)
    ensures
        value@ == variable_value(config.variables, values_model(path@)),
{
    match &config.variables {
        Some(Variables::Resolver(callback)) => callback.variable(path.as_slice()),
        Some(Variables::Values(values)) => {
            if path.len() == 0 {
                return Value::Undefined;
            }
            assert(values_model(path@)[0] == path@[0]@);
            match &path[0] {
                Value::String(first) => match values.get(first.as_str()) {
                    Some(found) => match found.deep_get_at(path.as_slice(), 1) {
                        Some(value) => value.duplicate(),
                        None => Value::Undefined,
                    },
                    None => Value::Undefined,
                },
                _ => Value::Undefined,
            }
        },
        None => Value::Undefined,
    }
}

/// The value of a call of the function `name` on resolved parameters.
fn function_of<C: Callback>(
    config: &Config<C>,
    name: &String,
    parameters: &Attributes,
    slots: &Slots,
) -> (value: Value)
    ensures
        value@ == function_value(*config, name@, parameters@, slots@),
{
    match &config.functions {
        Some(list) => {
            let place = function_place(list, name);
            if place < list.len() {
                list[place].1.evaluate.evaluate(parameters, slots, config)
            } else {
                Value::Undefined
            }
        },
        None => Value::Undefined,
    }
}

/// The place of the first function named `name`, or the number of functions.
fn function_place<C>(list: &Vec<(String, FunctionSchema<C>)>, name: &String) -> (place: usize)
    ensures
        place == find_function(list@, name@, 0),
        place <= list@.len(),
{
    let mut place: usize = 0;
    while place < list.len()
        invariant
            place <= list.len(),
            find_function(list@, name@, 0) == find_function(list@, name@, place as int),
        decreases list.len() - place,
    {
        if same_text(list[place].0.as_str(), name.as_str()) {
            return place;
        }
        place += 1;
    }
    place
}

/// Resolves each value of a list of entries.
fn resolve_entries<C: Callback>(
    entries: &Vec<(String, Value)>,
    config: &Config<C>,
    slots: &mut Slots,
)
    ensures
        final(slots)@ == resolved_over_entries(
            old(slots)@,
            entries_model(entries@),
            entries@.len() as int,
            *config,
        ),
    decreases entries,
{
    let ghost models = entries_model(entries@);
    let mut index: usize = 0;
    while index < entries.len()
        invariant
            index <= entries.len(),
            models == entries_model(entries@),
            slots@ == resolved_over_entries(old(slots)@, models, index as int, *config),
        decreases entries.len() - index,
    {
        assert(models[index as int].1 == entries@[index as int].1@);
        resolve(&entries[index].1, config, slots);
        index += 1;
    }
}

/// Resolves each value of a list.
fn resolve_values<C: Callback>(items: &Vec<Value>, config: &Config<C>, slots: &mut Slots)
    ensures
        final(slots)@ == resolved_over_values(
            old(slots)@,
            values_model(items@),
            items@.len() as int,
            *config,
        ),
    decreases items,
{
    let ghost models = values_model(items@);
    let mut index: usize = 0;
    while index < items.len()
        invariant
            index <= items.len(),
            models == values_model(items@),
            slots@ == resolved_over_values(old(slots)@, models, index as int, *config),
        decreases items.len() - index,
    {
        assert(models[index as int] == items@[index as int]@);
        resolve(&items[index], config, slots);
        index += 1;
    }
}

/// Resolves the values of attributes: writes the slots of their expressions.
pub fn resolve_attributes<C: Callback>(
    attributes: &Attributes,
    config: &Config<C>,
    slots: &mut Slots,
)
    ensures
        final(slots)@ == resolved_over_entries(
            old(slots)@,
            attributes@,
            attributes@.len() as int,
            *config,
        ),
    decreases attributes,
{
    resolve_entries(&attributes.entries, config, slots);
}

/// Resolves a value: the slot of every expression in it gets the value of
/// its variable, or of its call on the resolved parameters, or `Undefined`
/// where the variable or the function is missing. The value itself does not
/// change: whoever holds the place of a slot, this value or a copy of it,
/// reads the new value there.
pub fn resolve<C: Callback>(value: &Value, config: &Config<C>, slots: &mut Slots)
    ensures
        final(slots)@ == resolved_slots(old(slots)@, value@, *config),
        final(slots)@.len() == old(slots)@.len(),
        match value@ {
            ValueModel::Expression(place, expression) => place is Some && place.unwrap() < old(
                slots,
            )@.len() ==> read(final(slots)@, place) == expression_value(
                ready_slots(old(slots)@, expression, *config),
                expression,
                *config,
            ),
            _ => true,
        },
    decreases value,
{
    proof {
        reveal_with_fuel(Value::model, 2);
        reveal_with_fuel(Expression::model, 2);
        lemma_resolved_length(slots@, value@, *config);
    }
    match value {
        Value::Hash(attributes) => {
            resolve_attributes(attributes, config, slots);
        },
        Value::Array(items) => {
            resolve_values(items, config, slots);
        },
        Value::Expression(place, expression) => {
            match expression {
                Expression::Function(name, parameters) => {
                    resolve_attributes(parameters, config, slots);
                    proof {
                        lemma_resolved_entries_length(
                            old(slots)@,
                            parameters@,
                            parameters@.len() as int,
                            *config,
                        );
                    }
                    let found = function_of(config, name, parameters, slots);
                    slots.write(*place, found);
                },
                Expression::Variable(_, path) => {
                    let found = variable_of(config, path);
                    slots.write(*place, found);
                },
            }
        },
        _ => {},
    }
}

/// The table after the children from `from` on of the node at `parent` are
/// resolved, each with all that is below it. A child that does not stand
/// after its parent and before `limit` is passed over.
pub open spec fn resolved_children<C: Callback>(
    nodes: Seq<NodeModel>,
    slots: Seq<ValueModel>,
    parent: int,
    children: Seq<NodeRef>,
    from: int,
    config: Config<C>,
    limit: int,
) -> Seq<ValueModel>
    decreases limit - parent, 0int, children.len() - from,
{
    if from < 0 || from >= children.len() || parent >= limit {
        slots
    } else {
        resolved_children(
            nodes,
            if parent < children[from] < limit {
                resolved_tree(nodes, slots, children[from] as int, config, limit)
            } else {
                slots
            },
            parent,
            children,
            from + 1,
            config,
            limit,
        )
    }
}

/// The table after the attributes of the node at `place` are resolved, and
/// then its children, in order, each with all that is below it.
pub open spec fn resolved_tree<C: Callback>(
    nodes: Seq<NodeModel>,
    slots: Seq<ValueModel>,
    place: int,
    config: Config<C>,
    limit: int,
) -> Seq<ValueModel>
    decreases limit - place, 1int, 0int,
{
    if 0 <= place < nodes.len() && place < limit {
        resolved_children(
            nodes,
            resolved_over_entries(
                slots,
                nodes[place].attribute_list(),
                nodes[place].attribute_list().len() as int,
                config,
            ),
            place,
            nodes[place].child_list(),
            0,
            config,
            limit,
        )
    } else {
        slots
    }
}

/// Resolves the node at `place` and all that is below it.
fn resolve_at<C: Callback>(
    nodes: &Vec<Node>,
    slots: &mut Slots,
    place: NodeRef,
    config: &Config<C>,
    limit: usize,
)
    ensures
        final(slots)@ == resolved_tree(
            crate::model::node::nodes_model(nodes@),
            old(slots)@,
            place as int,
            *config,
            limit as int,
        ),
    decreases limit - place, 0int,
{
    if place >= nodes.len() || place >= limit {
        return ;
    }
    let ghost models = crate::model::node::nodes_model(nodes@);
    let node = &nodes[place];
    match &node.attributes {
        Some(attributes) => {
            resolve_attributes(attributes, config, slots);
        },
        None => {},
    }
    assert(models[place as int].attribute_list() == match node.attributes {
        Some(attributes) => attributes@,
        None => Seq::empty(),
    });
    let ghost started = slots@;
    match &node.children {
        Some(children) => {
            assert(children@ == models[place as int].child_list());
            let mut index: usize = 0;
            while index < children.len()
                invariant
                    index <= children.len(),
                    place < limit,
                    models == crate::model::node::nodes_model(nodes@),
                    resolved_children(
                        models,
                        slots@,
                        place as int,
                        children@,
                        index as int,
                        *config,
                        limit as int,
                    ) == resolved_children(
                        models,
                        started,
                        place as int,
                        children@,
                        0,
                        *config,
                        limit as int,
                    ),
                decreases children.len() - index,
            {
                let child = children[index];
                if place < child && child < limit {
                    resolve_at(nodes, slots, child, config, limit);
                }
                index += 1;
            }
        },
        None => {
            assert(models[place as int].child_list() =~= Seq::<NodeRef>::empty());
        },
    }
}

/// Resolves the attributes of a node of the tree, and then of its children,
/// in order, each with all that is below it: writes the slots of the tree.
/// The nodes do not change.
pub fn resolve_node<C: Callback>(document: &mut Document, node: NodeRef, config: &Config<C>)
    ensures
        final(document).slots@ == resolved_tree(
            old(document)@,
            old(document).slots@,
            node as int,
            *config,
            old(document)@.len() as int,
        ),
        final(document).nodes == old(document).nodes,
{
    let limit = document.nodes.len();
    resolve_at(&document.nodes, &mut document.slots, node, config, limit);
}

/// Whether one of the first `upto` values of a list holds an expression whose slot stands at `place`.
pub open spec fn writes_values(items: Seq<ValueModel>, upto: int, place: usize) -> bool
    decreases items, upto,
{
    0 < upto <= items.len() && (writes_values(items, upto - 1, place) || writes_value(
        items[upto - 1],
        place,
    ))
}

/// Whether one of the first `upto` entries of a mapping holds an expression whose slot stands at `place`.
pub open spec fn writes_entries(entries: AttributesModel, upto: int, place: usize) -> bool
    decreases entries, upto,
{
    0 < upto <= entries.len() && (writes_entries(entries, upto - 1, place) || writes_value(
        entries[upto - 1].1,
        place,
    ))
}

/// Whether a value holds an expression whose slot stands at `place`, so
/// that resolving the value writes that slot.
pub open spec fn writes_value(value: ValueModel, place: usize) -> bool
    decreases value, 0int,
{
    match value {
        ValueModel::Hash(entries) => writes_entries(entries, entries.len() as int, place),
        ValueModel::Array(items) => writes_values(items, items.len() as int, place),
        ValueModel::Expression(held, ExpressionModel::Function(_, parameters)) => held == Some(
            place,
        ) || writes_entries(parameters, parameters.len() as int, place),
        ValueModel::Expression(held, ExpressionModel::Variable(_, _)) => held == Some(place),
        _ => false,
    }
}

/// Resolving a value leaves the slots alone that none of its expressions holds.
pub proof fn lemma_frame<C: Callback>(
    slots: Seq<ValueModel>,
    value: ValueModel,
    config: Config<C>,
    place: usize,
)
    requires
        place < slots.len(),
        !writes_value(value, place),
    ensures
        resolved_slots(slots, value, config)[place as int] == slots[place as int],
    decreases value, 0int,
{
    match value {
        ValueModel::Hash(entries) => {
            lemma_frame_entries(slots, entries, entries.len() as int, config, place);
        },
        ValueModel::Array(items) => {
            lemma_frame_values(slots, items, items.len() as int, config, place);
        },
        ValueModel::Expression(_, ExpressionModel::Function(_, parameters)) => {
            lemma_frame_entries(slots, parameters, parameters.len() as int, config, place);
            lemma_resolved_entries_length(slots, parameters, parameters.len() as int, config);
        },
        _ => {},
    }
}

/// The same for the values of a list.
pub proof fn lemma_frame_values<C: Callback>(
    slots: Seq<ValueModel>,
    items: Seq<ValueModel>,
    upto: int,
    config: Config<C>,
    place: usize,
)
    requires
        place < slots.len(),
        0 <= upto <= items.len(),
        !writes_values(items, upto, place),
    ensures
        resolved_over_values(slots, items, upto, config)[place as int] == slots[place as int],
    decreases items, upto,
{
    if upto > 0 {
        lemma_frame_values(slots, items, upto - 1, config, place);
        lemma_resolved_values_length(slots, items, upto - 1, config);
        lemma_frame(
            resolved_over_values(slots, items, upto - 1, config),
            items[upto - 1],
            config,
            place,
        );
    }
}

/// The same for the values of a mapping.
pub proof fn lemma_frame_entries<C: Callback>(
    slots: Seq<ValueModel>,
    entries: AttributesModel,
    upto: int,
    config: Config<C>,
    place: usize,
)
    requires
        place < slots.len(),
        0 <= upto <= entries.len(),
        !writes_entries(entries, upto, place),
    ensures
        resolved_over_entries(slots, entries, upto, config)[place as int] == slots[place as int],
    decreases entries, upto,
{
    if upto > 0 {
        lemma_frame_entries(slots, entries, upto - 1, config, place);
        lemma_resolved_entries_length(slots, entries, upto - 1, config);
        lemma_frame(
            resolved_over_entries(slots, entries, upto - 1, config),
            entries[upto - 1].1,
            config,
            place,
        );
    }
}

/// What a member of a list writes, the list writes.
proof fn lemma_member_writes_values(items: Seq<ValueModel>, upto: int, index: int, place: usize)
    requires
        0 <= index < upto <= items.len(),
        writes_value(items[index], place),
    ensures
        writes_values(items, upto, place),
    decreases upto,
{
    if index < upto - 1 {
        lemma_member_writes_values(items, upto - 1, index, place);
    }
}

/// What a member of a mapping writes, the mapping writes.
proof fn lemma_member_writes_entries(entries: AttributesModel, upto: int, index: int, place: usize)
    requires
        0 <= index < upto <= entries.len(),
        writes_value(entries[index].1, place),
    ensures
        writes_entries(entries, upto, place),
    decreases upto,
{
    if index < upto - 1 {
        lemma_member_writes_entries(entries, upto - 1, index, place);
    }
}

/// Two tables that agree in the slots of a value's expressions show the same value.
pub proof fn lemma_seen_agrees(value: ValueModel, left: Seq<ValueModel>, right: Seq<ValueModel>)
    requires
        left.len() == right.len(),
        forall|place: usize|
            place < left.len() && #[trigger] writes_value(value, place) ==> left[place as int]
                == right[place as int],
    ensures
        seen_value(value, left) == seen_value(value, right),
    decreases value, 0int,
{
    match value {
        ValueModel::Hash(entries) => {
            assert forall|place: usize|
                place < left.len() && #[trigger] writes_entries(
                    entries,
                    entries.len() as int,
                    place,
                ) implies left[place as int] == right[place as int] by {
                assert(writes_value(value, place));
            }
            lemma_seen_entries_agree(entries, left, right);
        },
        ValueModel::Array(items) => {
            assert forall|i: int| 0 <= i < items.len() implies seen_value(#[trigger] items[i], left)
                == seen_value(items[i], right) by {
                assert forall|place: usize|
                    place < left.len() && #[trigger] writes_value(
                        items[i],
                        place,
                    ) implies left[place as int] == right[place as int] by {
                    lemma_member_writes_values(items, items.len() as int, i, place);
                    assert(writes_value(value, place));
                }
                lemma_seen_agrees(items[i], left, right);
            }
            assert(seen_values(items, left) =~= seen_values(items, right));
        },
        ValueModel::Expression(held, _) => {
            match held {
                Some(place) => {
                    if place < left.len() {
                        assert(writes_value(value, place));
                    }
                },
                None => {},
            }
        },
        _ => {},
    }
}

/// The same for the values of a mapping.
pub proof fn lemma_seen_entries_agree(
    entries: AttributesModel,
    left: Seq<ValueModel>,
    right: Seq<ValueModel>,
)
    requires
        left.len() == right.len(),
        forall|place: usize|
            place < left.len() && #[trigger] writes_entries(
                entries,
                entries.len() as int,
                place,
            ) ==> left[place as int] == right[place as int],
    ensures
        seen_entries(entries, left) == seen_entries(entries, right),
    decreases entries, 1int,
{
    assert forall|i: int| 0 <= i < entries.len() implies seen_value(
        (#[trigger] entries[i]).1,
        left,
    ) == seen_value(entries[i].1, right) by {
        assert forall|place: usize|
            place < left.len() && #[trigger] writes_value(
                entries[i].1,
                place,
            ) implies left[place as int] == right[place as int] by {
            lemma_member_writes_entries(entries, entries.len() as int, i, place);
        }
        lemma_seen_agrees(entries[i].1, left, right);
    }
    assert(seen_entries(entries, left) =~= seen_entries(entries, right));
}

/// What resolving a value writes into a slot does not depend on what the table held before.
pub proof fn lemma_agree<C: Callback>(
    left: Seq<ValueModel>,
    right: Seq<ValueModel>,
    value: ValueModel,
    config: Config<C>,
    place: usize,
)
    requires
        left.len() == right.len(),
        place < left.len(),
        writes_value(value, place),
    ensures
        resolved_slots(left, value, config)[place as int] == resolved_slots(
            right,
            value,
            config,
        )[place as int],
    decreases value, 0int,
{
    match value {
        ValueModel::Hash(entries) => {
            lemma_agree_entries(left, right, entries, entries.len() as int, config, place);
        },
        ValueModel::Array(items) => {
            lemma_agree_values(left, right, items, items.len() as int, config, place);
        },
        ValueModel::Expression(held, ExpressionModel::Function(name, parameters)) => {
            let count = parameters.len() as int;
            let ready_left = resolved_over_entries(left, parameters, count, config);
            let ready_right = resolved_over_entries(right, parameters, count, config);
            lemma_resolved_entries_length(left, parameters, count, config);
            lemma_resolved_entries_length(right, parameters, count, config);
            assert forall|other: usize|
                other < ready_left.len() && #[trigger] writes_entries(
                    parameters,
                    count,
                    other,
                ) implies ready_left[other as int] == ready_right[other as int] by {
                lemma_agree_entries(left, right, parameters, count, config, other);
            }
            lemma_seen_entries_agree(parameters, ready_left, ready_right);
            if held != Some(place) {
                lemma_agree_entries(left, right, parameters, count, config, place);
            }
        },
        _ => {},
    }
}

/// The same for the values of a list.
pub proof fn lemma_agree_values<C: Callback>(
    left: Seq<ValueModel>,
    right: Seq<ValueModel>,
    items: Seq<ValueModel>,
    upto: int,
    config: Config<C>,
    place: usize,
)
    requires
        left.len() == right.len(),
        place < left.len(),
        0 <= upto <= items.len(),
        writes_values(items, upto, place),
    ensures
        resolved_over_values(left, items, upto, config)[place as int] == resolved_over_values(
            right,
            items,
            upto,
            config,
        )[place as int],
    decreases items, upto,
{
    let before_left = resolved_over_values(left, items, upto - 1, config);
    let before_right = resolved_over_values(right, items, upto - 1, config);
    lemma_resolved_values_length(left, items, upto - 1, config);
    lemma_resolved_values_length(right, items, upto - 1, config);
    if writes_value(items[upto - 1], place) {
        lemma_agree(before_left, before_right, items[upto - 1], config, place);
    } else {
        lemma_agree_values(left, right, items, upto - 1, config, place);
        lemma_frame(before_left, items[upto - 1], config, place);
        lemma_frame(before_right, items[upto - 1], config, place);
    }
}

/// The same for the values of a mapping.
pub proof fn lemma_agree_entries<C: Callback>(
    left: Seq<ValueModel>,
    right: Seq<ValueModel>,
    entries: AttributesModel,
    upto: int,
    config: Config<C>,
    place: usize,
)
    requires
        left.len() == right.len(),
        place < left.len(),
        0 <= upto <= entries.len(),
        writes_entries(entries, upto, place),
    ensures
        resolved_over_entries(left, entries, upto, config)[place as int] == resolved_over_entries(
            right,
            entries,
            upto,
            config,
        )[place as int],
    decreases entries, upto,
{
    let before_left = resolved_over_entries(left, entries, upto - 1, config);
    let before_right = resolved_over_entries(right, entries, upto - 1, config);
    lemma_resolved_entries_length(left, entries, upto - 1, config);
    lemma_resolved_entries_length(right, entries, upto - 1, config);
    if writes_value(entries[upto - 1].1, place) {
        lemma_agree(before_left, before_right, entries[upto - 1].1, config, place);
    } else {
        lemma_agree_entries(left, right, entries, upto - 1, config, place);
        lemma_frame(before_left, entries[upto - 1].1, config, place);
        lemma_frame(before_right, entries[upto - 1].1, config, place);
    }
}

/// The table in which an expression is evaluated: the one in which the
/// parameters of a call are resolved, and the table itself for a variable.
pub open spec fn ready_slots<C: Callback>(
    slots: Seq<ValueModel>,
    expression: ExpressionModel,
    config: Config<C>,
) -> Seq<ValueModel> {
    match expression {
        ExpressionModel::Function(_, parameters) => resolved_over_entries(
            slots,
            parameters,
            parameters.len() as int,
            config,
        ),
        ExpressionModel::Variable(_, _) => slots,
    }
}

/// Every holder of a slot reads what resolution wrote there: once an
/// expression with a slot in the table is resolved, any expression that
/// holds the same place, a copy of the first or not, stands for the value of
/// the one that was resolved.
pub proof fn lemma_holders_read<C: Callback>(
    slots: Seq<ValueModel>,
    place: usize,
    expression: ExpressionModel,
    holder: ExpressionModel,
    config: Config<C>,
)
    requires
        place < slots.len(),
    ensures
        resolved_model(
            ValueModel::Expression(Some(place), holder),
            resolved_slots(slots, ValueModel::Expression(Some(place), expression), config),
        ) == expression_value(ready_slots(slots, expression, config), expression, config),
{
    match expression {
        ExpressionModel::Function(_, parameters) => {
            lemma_resolved_entries_length(slots, parameters, parameters.len() as int, config);
        },
        ExpressionModel::Variable(_, _) => {},
    }
}

/// Resolving twice gives what resolving once gives: after a value is
/// resolved, resolving it again with the same variables and functions
/// leaves every slot as it is, in a table within the machine's limits.
pub proof fn lemma_resolved_again<C: Callback>(
    slots: Seq<ValueModel>,
    value: ValueModel,
    config: Config<C>,
)
    requires
        slots.len() <= usize::MAX,
    ensures
        resolved_slots(resolved_slots(slots, value, config), value, config) == resolved_slots(
            slots,
            value,
            config,
        ),
{
    let once = resolved_slots(slots, value, config);
    let twice = resolved_slots(once, value, config);
    lemma_resolved_length(slots, value, config);
    lemma_resolved_length(once, value, config);
    assert forall|i: int| 0 <= i < once.len() implies twice[i] == once[i] by {
        let place = i as usize;
        if writes_value(value, place) {
            lemma_agree(once, slots, value, config, place);
        } else {
            lemma_frame(once, value, config, place);
        }
    }
    assert(twice =~= once);
}

} // verus!
