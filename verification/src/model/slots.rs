//! The table of slots: where the values of expressions stand.
//!
//! An expression holds the place of its slot, and so does every copy of
//! it. Resolution writes the table; whoever holds the place reads what was
//! written.

use crate::model::value::{
    entries_model, keyed, keyed_entries, keyed_values, read, values_model, Attributes,
    AttributesModel, Expression, ExpressionModel, Value, ValueModel,
};
use vstd::prelude::*;

verus! {

/// A table of slots. A slot holds `Undefined` until its expression is resolved.
#[derive(Debug)]
pub struct Slots {
    pub values: Vec<Value>,
}

impl View for Slots {
    type V = Seq<ValueModel>;

    open spec fn view(&self) -> Seq<ValueModel> {
        values_model(self.values@)
    }
}

/// A run of `count` slots that hold `Undefined`.
pub open spec fn fresh_slots(count: nat) -> Seq<ValueModel> {
    Seq::new(count, |i: int| ValueModel::Undefined)
}

/// The table with `value` in the slot at `place`; the table itself where it has no such slot.
pub open spec fn written(slots: Seq<ValueModel>, place: Option<usize>, value: ValueModel) -> Seq<
    ValueModel,
> {
    match place {
        Some(found) => if found < slots.len() {
            slots.update(found as int, value)
        } else {
            slots
        },
        None => slots,
    }
}

/// The number of expressions in the first `upto` values of a list.
pub open spec fn count_values(items: Seq<ValueModel>, upto: int) -> nat
    decreases items, upto,
{
    if upto <= 0 || upto > items.len() {
        0
    } else {
        count_values(items, upto - 1) + expression_count(items[upto - 1])
    }
}

/// The number of expressions in the values of the first `upto` entries of a mapping.
pub open spec fn count_entries(entries: AttributesModel, upto: int) -> nat
    decreases entries, upto,
{
    if upto <= 0 || upto > entries.len() {
        0
    } else {
        count_entries(entries, upto - 1) + expression_count(entries[upto - 1].1)
    }
}

/// The number of expressions in a value, those inside other expressions included.
pub open spec fn expression_count(value: ValueModel) -> nat
    decreases value, 0int,
{
    match value {
        ValueModel::Hash(entries) => count_entries(entries, entries.len() as int),
        ValueModel::Array(items) => count_values(items, items.len() as int),
        ValueModel::Expression(_, ExpressionModel::Variable(_, path)) => 1 + count_values(
            path,
            path.len() as int,
        ),
        ValueModel::Expression(_, ExpressionModel::Function(_, parameters)) => 1 + count_entries(
            parameters,
            parameters.len() as int,
        ),
        _ => 0,
    }
}

/// A list of values with every expression placed, the first at `base`.
pub open spec fn placed_values(items: Seq<ValueModel>, base: nat) -> Seq<ValueModel>
    decreases items,
{
    Seq::new(
        items.len(),
        |i: int|
            if 0 <= i < items.len() {
                placed_value(items[i], base + count_values(items, i))
            } else {
                ValueModel::Null
            },
    )
}

/// A mapping with every expression placed, the first at `base`.
pub open spec fn placed_entries(entries: AttributesModel, base: nat) -> AttributesModel
    decreases entries,
{
    Seq::new(
        entries.len(),
        |i: int|
            if 0 <= i < entries.len() {
                (entries[i].0, placed_value(entries[i].1, base + count_entries(entries, i)))
            } else {
                (Seq::empty(), ValueModel::Null)
            },
    )
}

/// A value with every expression in it placed: each holds a slot of its
/// own, the first the slot at `base`, and those that follow the slots that
/// follow, an expression before what it holds.
pub open spec fn placed_value(value: ValueModel, base: nat) -> ValueModel
    decreases value,
{
    match value {
        ValueModel::Hash(entries) => ValueModel::Hash(placed_entries(entries, base)),
        ValueModel::Array(items) => ValueModel::Array(placed_values(items, base)),
        ValueModel::Expression(_, ExpressionModel::Variable(prefix, path)) => {
            ValueModel::Expression(
                Some(base as usize),
                ExpressionModel::Variable(prefix, placed_values(path, base + 1)),
            )
        },
        ValueModel::Expression(_, ExpressionModel::Function(name, parameters)) => {
            ValueModel::Expression(
                Some(base as usize),
                ExpressionModel::Function(name, placed_entries(parameters, base + 1)),
            )
        },
        _ => value,
    }
}

/// Places every expression of a list of values.
fn adopt_values(slots: &mut Slots, items: &mut Vec<Value>)
    ensures
        values_model(final(items)@) == placed_values(
            values_model(old(items)@),
            old(slots)@.len(),
        ),
        final(slots)@ == old(slots)@ + fresh_slots(
            count_values(values_model(old(items)@), old(items)@.len() as int),
        ),
    decreases *old(items),
{
    let ghost before = items@;
    let ghost given = slots@;
    let ghost models = values_model(before);
    let count = items.len();
    let mut index: usize = 0;
    assert(slots@ =~= given + fresh_slots(0));
    while index < count
        invariant
            index <= count,
            count == items.len(),
            before.len() == count,
            models == values_model(before),
            forall|k: int|
                0 <= k < index ==> (#[trigger] items@[k])@ == placed_value(
                    before[k]@,
                    given.len() + count_values(models, k),
                ),
            forall|k: int| index <= k < count ==> items@[k] == before[k],
            forall|k: int| 0 <= k < count ==> decreases_to!(*old(items) => #[trigger] before[k]),
            slots@ == given + fresh_slots(count_values(models, index as int)),
        decreases count - index,
    {
        let ghost so_far = count_values(models, index as int);
        assert(models[index as int] == before[index as int]@);
        adopt_value(slots, &mut items[index]);
        index += 1;
        assert(slots@ =~= given + fresh_slots(count_values(models, index as int)));
    }
    assert(values_model(items@) =~= placed_values(models, given.len()));
}

/// Places every expression of a list of entries.
fn adopt_entries(slots: &mut Slots, entries: &mut Vec<(String, Value)>)
    ensures
        entries_model(final(entries)@) == placed_entries(
            entries_model(old(entries)@),
            old(slots)@.len(),
        ),
        final(slots)@ == old(slots)@ + fresh_slots(
            count_entries(entries_model(old(entries)@), old(entries)@.len() as int),
        ),
    decreases *old(entries),
{
    let ghost before = entries@;
    let ghost given = slots@;
    let ghost models = entries_model(before);
    let count = entries.len();
    let mut index: usize = 0;
    assert(slots@ =~= given + fresh_slots(0));
    while index < count
        invariant
            index <= count,
            count == entries.len(),
            before.len() == count,
            models == entries_model(before),
            forall|k: int|
                0 <= k < index ==> (#[trigger] entries@[k]).0@ == before[k].0@ && entries@[k].1@
                    == placed_value(before[k].1@, given.len() + count_entries(models, k)),
            forall|k: int| index <= k < count ==> entries@[k] == before[k],
            forall|k: int| 0 <= k < count ==> decreases_to!(*old(entries) => #[trigger] before[k]),
            slots@ == given + fresh_slots(count_entries(models, index as int)),
        decreases count - index,
    {
        assert(models[index as int] == (before[index as int].0@, before[index as int].1@));
        let entry = &mut entries[index];
        adopt_value(slots, &mut entry.1);
        index += 1;
        assert(slots@ =~= given + fresh_slots(count_entries(models, index as int)));
    }
    assert(entries_model(entries@) =~= placed_entries(models, given.len()));
}

/// Places every expression of a value.
fn adopt_value(slots: &mut Slots, value: &mut Value)
    ensures
        final(value)@ == placed_value(old(value)@, old(slots)@.len()),
        final(slots)@ == old(slots)@ + fresh_slots(expression_count(old(value)@)),
    decreases *old(value),
{
    proof {
        reveal_with_fuel(Value::model, 2);
        reveal_with_fuel(Expression::model, 2);
    }
    let ghost given = slots@;
    match value {
        Value::Hash(attributes) => {
            adopt_entries(slots, &mut attributes.entries);
        },
        Value::Array(items) => {
            adopt_values(slots, items);
        },
        Value::Expression(place, expression) => {
            let taken = slots.values.len();
            slots.values.push(Value::Undefined);
            *place = Some(taken);
            assert(slots@ =~= given + fresh_slots(1));
            let ghost first = slots@;
            match expression {
                Expression::Variable(_, path) => {
                    adopt_values(slots, path);
                    assert(slots@ =~= given + fresh_slots(
                        1 + count_values(values_model(old(value)->Expression_1->Variable_1@),
                            old(value)->Expression_1->Variable_1@.len() as int),
                    ));
                },
                Expression::Function(_, parameters) => {
                    adopt_entries(slots, &mut parameters.entries);
                    assert(slots@ =~= given + fresh_slots(
                        1 + count_entries(
                            old(value)->Expression_1->Function_1@,
                            old(value)->Expression_1->Function_1@.len() as int,
                        ),
                    ));
                },
            }
        },
        _ => {
            assert(slots@ =~= given + fresh_slots(0));
        },
    }
}

impl Slots {
    /// A table without slots.
    pub fn new() -> (slots: Slots)
        ensures
            slots@ == Seq::<ValueModel>::empty(),
    {
        let slots = Slots { values: Vec::new() };
        assert(slots@ =~= Seq::<ValueModel>::empty());
        slots
    }

    /// The number of slots.
    pub fn len(&self) -> (count: usize)
        ensures
            count == self@.len(),
    {
        self.values.len()
    }

    /// What stands in the slot at `place`; nothing where there is no such
    /// slot, which stands for `Undefined`.
    pub fn read(&self, place: Option<usize>) -> (value: Option<&Value>)
        ensures
            match value {
                Some(found) => place is Some && place.unwrap() < self@.len() && found@ == read(
                    self@,
                    place,
                ) && *found == self.values@[place.unwrap() as int],
                None => read(self@, place) == ValueModel::Undefined && !(place is Some
                    && place.unwrap() < self@.len()),
            },
    {
        match place {
            Some(found) => if found < self.values.len() {
                Some(&self.values[found])
            } else {
                None
            },
            None => None,
        }
    }

    /// Puts `value` into the slot at `place`: whoever holds that place reads
    /// it from now on. Where there is no such slot, nothing changes.
    pub fn write(&mut self, place: Option<usize>, value: Value)
        ensures
            final(self)@ == written(old(self)@, place, value@),
            final(self)@.len() == old(self)@.len(),
            place is Some && place.unwrap() < old(self)@.len() ==> read(final(self)@, place)
                == value@,
    {
        match place {
            Some(found) => {
                if found < self.values.len() {
                    let mut held = value;
                    let slot = &mut self.values[found];
                    std::mem::swap(slot, &mut held);
                    assert(self@ =~= written(old(self)@, place, value@));
                }
            },
            None => {},
        }
    }

    /// Gives every expression of a value a slot of its own, new in the
    /// table, and its place: the first expression the first new slot, and
    /// so on, an expression before what it holds.
    pub fn adopt(&mut self, value: &mut Value)
        ensures
            final(value)@ == placed_value(old(value)@, old(self)@.len()),
            final(self)@ == old(self)@ + fresh_slots(expression_count(old(value)@)),
    {
        adopt_value(self, value);
    }

    /// Gives every expression of a mapping a slot of its own, new in the table, and its place.
    pub fn adopt_attributes(&mut self, attributes: &mut Attributes)
        ensures
            final(attributes)@ == placed_entries(old(attributes)@, old(self)@.len()),
            final(self)@ == old(self)@ + fresh_slots(
                count_entries(old(attributes)@, old(attributes)@.len() as int),
            ),
    {
        adopt_entries(self, &mut attributes.entries);
    }
}

/// Placing the expressions of a list of values keeps the keys of its mappings unique.
pub proof fn lemma_placed_values_keyed(items: Seq<ValueModel>, base: nat)
    requires
        keyed_values(items),
    ensures
        keyed_values(placed_values(items, base)),
    decreases items, 1int,
{
    let placed = placed_values(items, base);
    assert forall|i: int| 0 <= i < placed.len() implies keyed(#[trigger] placed[i]) by {
        assert(keyed(items[i]));
        lemma_placed_keyed(items[i], base + count_values(items, i));
    }
}

/// Placing the expressions of a mapping keeps its keys unique, and those of the mappings in it.
pub proof fn lemma_placed_entries_keyed(entries: AttributesModel, base: nat)
    requires
        keyed_entries(entries),
    ensures
        keyed_entries(placed_entries(entries, base)),
    decreases entries, 1int,
{
    let placed = placed_entries(entries, base);
    assert forall|i: int| 0 <= i < placed.len() implies keyed((#[trigger] placed[i]).1) by {
        assert(keyed(entries[i].1));
        lemma_placed_keyed(entries[i].1, base + count_entries(entries, i));
    }
    assert forall|i: int, j: int| 0 <= i < j < placed.len() implies (#[trigger] placed[i]).0 != (
    #[trigger] placed[j]).0 by {
        assert(entries[i].0 != entries[j].0);
    }
}

/// Placing the expressions of a value keeps the keys of its mappings unique.
pub proof fn lemma_placed_keyed(value: ValueModel, base: nat)
    requires
        keyed(value),
    ensures
        keyed(placed_value(value, base)),
    decreases value, 0int,
{
    match value {
        ValueModel::Hash(entries) => {
            lemma_placed_entries_keyed(entries, base);
        },
        ValueModel::Array(items) => {
            lemma_placed_values_keyed(items, base);
        },
        ValueModel::Expression(_, ExpressionModel::Variable(_, path)) => {
            lemma_placed_values_keyed(path, base + 1);
        },
        ValueModel::Expression(_, ExpressionModel::Function(_, parameters)) => {
            lemma_placed_entries_keyed(parameters, base + 1);
        },
        _ => {},
    }
}

} // verus!
