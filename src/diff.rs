use crate::path::PathComponent;
use crate::value::{Value, ValueKind};
use vstd::prelude::*;

verus! {

/// A value that differs at `path`, the variant being the same on both sides.
pub struct ValueChange<'a> {
    pub path: Vec<PathComponent>,
    pub old_value: &'a Value,
    pub new_value: &'a Value,
}

/// A value whose variant differs at `path`.
pub struct TypeChange<'a> {
    pub path: Vec<PathComponent>,
    pub old_type: ValueKind,
    pub new_type: ValueKind,
    pub old_value: &'a Value,
    pub new_value: &'a Value,
}

/// A mapping entry or a sequence element present on one side only.
pub struct ItemChange<'a> {
    pub path: Vec<PathComponent>,
    pub value: &'a Value,
}

/// The differences between two values, in six categories, each entry
/// addressed by the path at which it was found.
pub struct Diff<'a> {
    pub values_changed: Vec<ValueChange<'a>>,
    pub type_changes: Vec<TypeChange<'a>>,
    pub dictionary_item_added: Vec<ItemChange<'a>>,
    pub dictionary_item_removed: Vec<ItemChange<'a>>,
    pub iterable_item_added: Vec<ItemChange<'a>>,
    pub iterable_item_removed: Vec<ItemChange<'a>>,
}

/// A change of value or of type: the path, then the old and the new value.
pub type ChangeEntry = (Seq<PathComponent>, Value, Value);

/// An entry on one side only: the path, then the value.
pub type ItemEntry = (Seq<PathComponent>, Value);

/// What a `Diff` holds, category by category, in order of recording.
#[verifier::ext_equal]
pub struct DiffModel {
    pub values_changed: Seq<ChangeEntry>,
    pub type_changes: Seq<ChangeEntry>,
    pub dictionary_item_added: Seq<ItemEntry>,
    pub dictionary_item_removed: Seq<ItemEntry>,
    pub iterable_item_added: Seq<ItemEntry>,
    pub iterable_item_removed: Seq<ItemEntry>,
}

pub open spec fn empty_model() -> DiffModel {
    DiffModel {
        values_changed: Seq::empty(),
        type_changes: Seq::empty(),
        dictionary_item_added: Seq::empty(),
        dictionary_item_removed: Seq::empty(),
        iterable_item_added: Seq::empty(),
        iterable_item_removed: Seq::empty(),
    }
}

/// The entries of `a`, then those of `b`, category by category.
pub open spec fn join(a: DiffModel, b: DiffModel) -> DiffModel {
    DiffModel {
        values_changed: a.values_changed + b.values_changed,
        type_changes: a.type_changes + b.type_changes,
        dictionary_item_added: a.dictionary_item_added + b.dictionary_item_added,
        dictionary_item_removed: a.dictionary_item_removed + b.dictionary_item_removed,
        iterable_item_added: a.iterable_item_added + b.iterable_item_added,
        iterable_item_removed: a.iterable_item_removed + b.iterable_item_removed,
    }
}

pub open spec fn value_changed(path: Seq<PathComponent>, before: Value, after: Value) -> DiffModel {
    DiffModel { values_changed: seq![(path, before, after)], ..empty_model() }
}

pub open spec fn type_changed(path: Seq<PathComponent>, before: Value, after: Value) -> DiffModel {
    DiffModel { type_changes: seq![(path, before, after)], ..empty_model() }
}

pub open spec fn dictionary_added(path: Seq<PathComponent>, v: Value) -> DiffModel {
    DiffModel { dictionary_item_added: seq![(path, v)], ..empty_model() }
}

pub open spec fn dictionary_removed(path: Seq<PathComponent>, v: Value) -> DiffModel {
    DiffModel { dictionary_item_removed: seq![(path, v)], ..empty_model() }
}

pub open spec fn iterable_added(path: Seq<PathComponent>, v: Value) -> DiffModel {
    DiffModel { iterable_item_added: seq![(path, v)], ..empty_model() }
}

pub open spec fn iterable_removed(path: Seq<PathComponent>, v: Value) -> DiffModel {
    DiffModel { iterable_item_removed: seq![(path, v)], ..empty_model() }
}

pub open spec fn is_empty_model(m: DiffModel) -> bool {
    &&& m.values_changed.len() == 0
    &&& m.type_changes.len() == 0
    &&& m.dictionary_item_added.len() == 0
    &&& m.dictionary_item_removed.len() == 0
    &&& m.iterable_item_added.len() == 0
    &&& m.iterable_item_removed.len() == 0
}

pub proof fn lemma_join_assoc(a: DiffModel, b: DiffModel, c: DiffModel)
    ensures
        join(join(a, b), c) == join(a, join(b, c)),
{
    assert(join(join(a, b), c) =~= join(a, join(b, c)));
}

pub proof fn lemma_join_empty(a: DiffModel)
    ensures
        join(a, empty_model()) == a,
        join(empty_model(), a) == a,
{
    assert(join(a, empty_model()) =~= a);
    assert(join(empty_model(), a) =~= a);
}

pub open spec fn change_view(c: ValueChange) -> ChangeEntry {
    (c.path@, *c.old_value, *c.new_value)
}

pub open spec fn type_view(c: TypeChange) -> ChangeEntry {
    (c.path@, *c.old_value, *c.new_value)
}

pub open spec fn item_view(c: ItemChange) -> ItemEntry {
    (c.path@, *c.value)
}

impl<'a> Diff<'a> {
    pub open spec fn view(&self) -> DiffModel {
        DiffModel {
            values_changed: self.values_changed@.map_values(|c: ValueChange<'a>| change_view(c)),
            type_changes: self.type_changes@.map_values(|c: TypeChange<'a>| type_view(c)),
            dictionary_item_added: self.dictionary_item_added@.map_values(
                |c: ItemChange<'a>| item_view(c),
            ),
            dictionary_item_removed: self.dictionary_item_removed@.map_values(
                |c: ItemChange<'a>| item_view(c),
            ),
            iterable_item_added: self.iterable_item_added@.map_values(
                |c: ItemChange<'a>| item_view(c),
            ),
            iterable_item_removed: self.iterable_item_removed@.map_values(
                |c: ItemChange<'a>| item_view(c),
            ),
        }
    }

    /// Each type change records the variants of its two values.
    pub open spec fn wf(&self) -> bool {
        forall|i: int|
            0 <= i < self.type_changes.len() ==> {
                &&& (#[trigger] self.type_changes[i]).old_type == self.type_changes[i].old_value.kind_spec()
                &&& self.type_changes[i].new_type == self.type_changes[i].new_value.kind_spec()
            }
    }

    /// A diff with no entries.
    pub fn new() -> (r: Diff<'a>)
        ensures
            r@ == empty_model(),
            r.wf(),
    {
        let r = Diff {
            values_changed: Vec::new(),
            type_changes: Vec::new(),
            dictionary_item_added: Vec::new(),
            dictionary_item_removed: Vec::new(),
            iterable_item_added: Vec::new(),
            iterable_item_removed: Vec::new(),
        };
        assert(r@ =~= empty_model());
        r
    }

    /// No category holds an entry.
    pub fn is_empty(&self) -> (r: bool)
        ensures
            r == is_empty_model(self@),
    {
        self.values_changed.len() == 0 && self.type_changes.len() == 0
            && self.dictionary_item_added.len() == 0 && self.dictionary_item_removed.len() == 0
            && self.iterable_item_added.len() == 0 && self.iterable_item_removed.len() == 0
    }

    pub fn record_value_change(&mut self, path: Vec<PathComponent>, before: &'a Value, after: &'a Value)
        requires
            old(self).wf(),
        ensures
            final(self).wf(),
            final(self)@ == join(old(self)@, value_changed(path@, *before, *after)),
    {
        self.values_changed.push(ValueChange { path, old_value: before, new_value: after });
        assert(final(self)@ =~= join(old(self)@, value_changed(path@, *before, *after)));
    }

    pub fn record_type_change(&mut self, path: Vec<PathComponent>, before: &'a Value, after: &'a Value)
        requires
            old(self).wf(),
        ensures
            final(self).wf(),
            final(self)@ == join(old(self)@, type_changed(path@, *before, *after)),
    {
        let old_type = before.kind();
        let new_type = after.kind();
        self.type_changes.push(
            TypeChange { path, old_type, new_type, old_value: before, new_value: after },
        );
        assert(final(self)@ =~= join(old(self)@, type_changed(path@, *before, *after)));
    }

    pub fn record_dictionary_added(&mut self, path: Vec<PathComponent>, v: &'a Value)
        requires
            old(self).wf(),
        ensures
            final(self).wf(),
            final(self)@ == join(old(self)@, dictionary_added(path@, *v)),
    {
        self.dictionary_item_added.push(ItemChange { path, value: v });
        assert(final(self)@ =~= join(old(self)@, dictionary_added(path@, *v)));
    }

    pub fn record_dictionary_removed(&mut self, path: Vec<PathComponent>, v: &'a Value)
        requires
            old(self).wf(),
        ensures
            final(self).wf(),
            final(self)@ == join(old(self)@, dictionary_removed(path@, *v)),
    {
        self.dictionary_item_removed.push(ItemChange { path, value: v });
        assert(final(self)@ =~= join(old(self)@, dictionary_removed(path@, *v)));
    }

    pub fn record_iterable_added(&mut self, path: Vec<PathComponent>, v: &'a Value)
        requires
            old(self).wf(),
        ensures
            final(self).wf(),
            final(self)@ == join(old(self)@, iterable_added(path@, *v)),
    {
        self.iterable_item_added.push(ItemChange { path, value: v });
        assert(final(self)@ =~= join(old(self)@, iterable_added(path@, *v)));
    }

    pub fn record_iterable_removed(&mut self, path: Vec<PathComponent>, v: &'a Value)
        requires
            old(self).wf(),
        ensures
            final(self).wf(),
            final(self)@ == join(old(self)@, iterable_removed(path@, *v)),
    {
        self.iterable_item_removed.push(ItemChange { path, value: v });
        assert(final(self)@ =~= join(old(self)@, iterable_removed(path@, *v)));
    }
}

} // verus!
