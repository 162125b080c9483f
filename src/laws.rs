use crate::compare::{added_entries, added_items, diff_at, diff_entries, diff_items, removed_items};
use crate::diff::{
    dictionary_added, dictionary_removed, empty_model, iterable_added, iterable_removed, join,
    lemma_join_empty, type_changed, value_changed, ChangeEntry, DiffModel, ItemEntry,
};
use vstd::multiset::Multiset;
use vstd::seq_lib::lemma_multiset_commutative;
use crate::path::PathComponent;
use crate::value::{
    key_index, keys_unique, lemma_key_index_from_found, lemma_key_index_of_entry,
    lemma_value_eq_reflexive, value_eq, Value,
};
use vstd::prelude::*;

verus! {

broadcast use {
    vstd::std_specs::vec::group_vec_axioms,
    vstd::multiset::group_multiset_axioms,
    vstd::seq_lib::group_to_multiset_ensures,
};

/// A well-formed value compared with itself gives no difference at all,
/// wherever it stands.
pub proof fn lemma_identity(x: Value, path: Seq<PathComponent>)
    requires
        x.wf(),
    ensures
        diff_at(x, x, path) == empty_model(),
    decreases x, 1int, 0int,
{
    lemma_join_empty(empty_model());
    match x {
        Value::Mapping(xs) => {
            lemma_identity_entries(x, path, xs.len() as int);
            lemma_no_added_entries(xs@, path, xs.len() as int);
        },
        Value::Sequence(xs) => {
            lemma_identity_items(x, path, xs.len() as int);
        },
        _ => {
            lemma_value_eq_reflexive(x);
        },
    }
}

proof fn lemma_identity_entries(x: Value, path: Seq<PathComponent>, n: int)
    requires
        x.wf(),
        x is Mapping,
        n <= x->Mapping_0.len(),
    ensures
        diff_entries(x, x, path, n) == empty_model(),
    decreases x, 0int, n,
{
    lemma_join_empty(empty_model());
    if n > 0 {
        let xs = x->Mapping_0;
        lemma_identity_entries(x, path, n - 1);
        lemma_key_index_of_entry(xs@, n - 1, 0);
        assert(xs[n - 1].1.wf());
        lemma_identity(xs[n - 1].1, path.push(PathComponent::Key(xs[n - 1].0)));
    }
}

proof fn lemma_no_added_entries(xs: Seq<(String, Value)>, path: Seq<PathComponent>, n: int)
    requires
        n <= xs.len(),
    ensures
        added_entries(xs, xs, path, n) == empty_model(),
    decreases n,
{
    lemma_join_empty(empty_model());
    if n > 0 {
        lemma_no_added_entries(xs, path, n - 1);
        crate::value::lemma_key_index_from_found(xs, xs[n - 1].0@, 0);
        if crate::value::key_index(xs, xs[n - 1].0@) == -1 {
            assert(xs[n - 1].0@ != xs[n - 1].0@);
        }
    }
}

proof fn lemma_identity_items(x: Value, path: Seq<PathComponent>, n: int)
    requires
        x.wf(),
        x is Sequence,
        n <= x->Sequence_0.len(),
    ensures
        diff_items(x, x, path, n) == empty_model(),
    decreases x, 0int, n,
{
    lemma_join_empty(empty_model());
    if n > 0 {
        let xs = x->Sequence_0;
        lemma_identity_items(x, path, n - 1);
        assert(xs[n - 1].wf());
        lemma_identity(xs[n - 1], path.push(PathComponent::Index((n - 1) as usize)));
    }
}

/// Where the two values differ in variant, the one entry is a type change
/// at that path: nothing is recorded below it.
pub proof fn lemma_type_change_terminal(old: Value, new: Value, path: Seq<PathComponent>)
    requires
        old.kind_spec() != new.kind_spec(),
    ensures
        diff_at(old, new, path) == type_changed(path, old, new),
{
}

/// Two sets are compared as whole values: at most one value change at their
/// path, never an entry per element.
pub proof fn lemma_sets_compared_whole(old: Value, new: Value, path: Seq<PathComponent>)
    requires
        old is UnorderedSet,
        new is UnorderedSet,
    ensures
        value_eq(old, new) ==> diff_at(old, new, path) == empty_model(),
        !value_eq(old, new) ==> diff_at(old, new, path) == value_changed(path, old, new),
{
}

pub open spec fn change_paths(s: Seq<ChangeEntry>) -> Seq<Seq<PathComponent>> {
    s.map_values(|e: ChangeEntry| e.0)
}

pub open spec fn item_paths(s: Seq<ItemEntry>) -> Seq<Seq<PathComponent>> {
    s.map_values(|e: ItemEntry| e.0)
}

/// Every path recorded in `m`, over all six categories, with its multiplicity.
pub open spec fn recorded_paths(m: DiffModel) -> Multiset<Seq<PathComponent>> {
    change_paths(m.values_changed).to_multiset().add(change_paths(m.type_changes).to_multiset()).add(
        item_paths(m.dictionary_item_added).to_multiset(),
    ).add(item_paths(m.dictionary_item_removed).to_multiset()).add(
        item_paths(m.iterable_item_added).to_multiset(),
    ).add(item_paths(m.iterable_item_removed).to_multiset())
}

/// `q` starts with the components of `p`.
pub open spec fn extends(p: Seq<PathComponent>, q: Seq<PathComponent>) -> bool {
    p.len() <= q.len() && forall|i: int| #![trigger q[i]] 0 <= i < p.len() ==> q[i] == p[i]
}

/// No path is recorded twice in `m`, in one category or across two, and
/// every recorded path starts with `p`.
pub open spec fn distinct_under(m: DiffModel, p: Seq<PathComponent>) -> bool {
    forall|q: Seq<PathComponent>|
        #![trigger recorded_paths(m).count(q)]
        recorded_paths(m).count(q) <= 1 && (recorded_paths(m).count(q) > 0 ==> extends(p, q))
}

proof fn lemma_recorded_join(a: DiffModel, b: DiffModel)
    ensures
        recorded_paths(join(a, b)) == recorded_paths(a).add(recorded_paths(b)),
{
    assert(change_paths(a.values_changed + b.values_changed) =~= change_paths(a.values_changed)
        + change_paths(b.values_changed));
    assert(change_paths(a.type_changes + b.type_changes) =~= change_paths(a.type_changes)
        + change_paths(b.type_changes));
    assert(item_paths(a.dictionary_item_added + b.dictionary_item_added) =~= item_paths(
        a.dictionary_item_added,
    ) + item_paths(b.dictionary_item_added));
    assert(item_paths(a.dictionary_item_removed + b.dictionary_item_removed) =~= item_paths(
        a.dictionary_item_removed,
    ) + item_paths(b.dictionary_item_removed));
    assert(item_paths(a.iterable_item_added + b.iterable_item_added) =~= item_paths(
        a.iterable_item_added,
    ) + item_paths(b.iterable_item_added));
    assert(item_paths(a.iterable_item_removed + b.iterable_item_removed) =~= item_paths(
        a.iterable_item_removed,
    ) + item_paths(b.iterable_item_removed));
    lemma_multiset_commutative(change_paths(a.values_changed), change_paths(b.values_changed));
    lemma_multiset_commutative(change_paths(a.type_changes), change_paths(b.type_changes));
    lemma_multiset_commutative(
        item_paths(a.dictionary_item_added),
        item_paths(b.dictionary_item_added),
    );
    lemma_multiset_commutative(
        item_paths(a.dictionary_item_removed),
        item_paths(b.dictionary_item_removed),
    );
    lemma_multiset_commutative(item_paths(a.iterable_item_added), item_paths(b.iterable_item_added));
    lemma_multiset_commutative(
        item_paths(a.iterable_item_removed),
        item_paths(b.iterable_item_removed),
    );
    assert(recorded_paths(join(a, b)) =~= recorded_paths(a).add(recorded_paths(b)));
}

proof fn lemma_recorded_single(p: Seq<PathComponent>, a: Value, b: Value)
    ensures
        recorded_paths(empty_model()) =~= Multiset::empty(),
        recorded_paths(value_changed(p, a, b)) =~= Multiset::singleton(p),
        recorded_paths(type_changed(p, a, b)) =~= Multiset::singleton(p),
        recorded_paths(dictionary_added(p, a)) =~= Multiset::singleton(p),
        recorded_paths(dictionary_removed(p, a)) =~= Multiset::singleton(p),
        recorded_paths(iterable_added(p, a)) =~= Multiset::singleton(p),
        recorded_paths(iterable_removed(p, a)) =~= Multiset::singleton(p),
{
    assert(change_paths(Seq::empty()) =~= Seq::empty());
    assert(item_paths(Seq::empty()) =~= Seq::empty());
    assert(change_paths(seq![(p, a, b)]) =~= Seq::empty().push(p));
    assert(item_paths(seq![(p, a)]) =~= Seq::empty().push(p));
}

proof fn lemma_extends_push(p: Seq<PathComponent>, c: PathComponent, q: Seq<PathComponent>)
    requires
        extends(p.push(c), q),
    ensures
        extends(p, q),
        p.len() < q.len(),
        q[p.len() as int] == c,
{
    assert(q[p.len() as int] == p.push(c)[p.len() as int]);
    assert forall|i: int| #![trigger q[i]] 0 <= i < p.len() implies q[i] == p[i] by {
        assert(q[i] == p.push(c)[i]);
    }
}

/// A comparison of two well-formed values records no path twice, whether
/// in one category or in two, and every path it records starts with the
/// path at which the comparison stands.
pub proof fn lemma_paths_distinct(old: Value, new: Value, path: Seq<PathComponent>)
    requires
        old.wf(),
        new.wf(),
    ensures
        distinct_under(diff_at(old, new, path), path),
    decreases old, 1int, 0int,
{
    lemma_recorded_single(path, old, new);
    assert(extends(path, path));
    if old.kind_spec() == new.kind_spec() {
        match old {
            Value::Mapping(xs) => {
                let ys = new->Mapping_0;
                let e = diff_entries(old, new, path, xs.len() as int);
                let a = added_entries(xs@, ys@, path, ys.len() as int);
                lemma_entries_distinct(old, new, path, xs.len() as int);
                lemma_added_entries_distinct(xs@, ys@, path, ys.len() as int);
                lemma_recorded_join(e, a);
                assert forall|q: Seq<PathComponent>|
                    #![trigger recorded_paths(diff_at(old, new, path)).count(q)]
                    recorded_paths(diff_at(old, new, path)).count(q) <= 1 && (recorded_paths(
                        diff_at(old, new, path),
                    ).count(q) > 0 ==> extends(path, q)) by {
                    assert(recorded_paths(e).count(q) <= 1);
                    assert(recorded_paths(a).count(q) <= 1);
                }
            },
            Value::Sequence(xs) => {
                let ys = new->Sequence_0;
                let common = if xs.len() <= ys.len() {
                    xs.len()
                } else {
                    ys.len()
                };
                let d = diff_items(old, new, path, common as int);
                let r = removed_items(xs@, path, ys.len() as int, xs.len() as int);
                let a = added_items(ys@, path, xs.len() as int, ys.len() as int);
                lemma_items_distinct(old, new, path, common as int);
                lemma_removed_items_distinct(xs@, path, ys.len() as int, xs.len() as int);
                lemma_added_items_distinct(ys@, path, xs.len() as int, ys.len() as int);
                lemma_recorded_join(d, r);
                lemma_recorded_join(join(d, r), a);
                assert forall|q: Seq<PathComponent>|
                    #![trigger recorded_paths(diff_at(old, new, path)).count(q)]
                    recorded_paths(diff_at(old, new, path)).count(q) <= 1 && (recorded_paths(
                        diff_at(old, new, path),
                    ).count(q) > 0 ==> extends(path, q)) by {
                    assert(recorded_paths(d).count(q) <= 1);
                    assert(recorded_paths(r).count(q) <= 1);
                    assert(recorded_paths(a).count(q) <= 1);
                }
            },
            _ => {},
        }
    }
}

proof fn lemma_single_under(p: Seq<PathComponent>, q: Seq<PathComponent>)
    ensures
        Multiset::singleton(p).count(q) > 0 ==> q == p && extends(p, q),
{
}

proof fn lemma_entries_distinct(old: Value, new: Value, p: Seq<PathComponent>, n: int)
    requires
        old.wf(),
        new.wf(),
        old is Mapping,
        new is Mapping,
        0 <= n <= old->Mapping_0.len(),
    ensures
        forall|q: Seq<PathComponent>|
            #![trigger recorded_paths(diff_entries(old, new, p, n)).count(q)]
            recorded_paths(diff_entries(old, new, p, n)).count(q) <= 1 && (recorded_paths(
                diff_entries(old, new, p, n),
            ).count(q) > 0 ==> {
                &&& p.len() < q.len()
                &&& extends(p, q)
                &&& q[p.len() as int] is Key
                &&& 0 <= key_index(old->Mapping_0@, q[p.len() as int]->Key_0@) < n
            }),
    decreases old, 0int, n,
{
    lemma_recorded_single(p, old, new);
    if n > 0 {
        let xs = old->Mapping_0;
        let ys = new->Mapping_0;
        let k = xs[n - 1].0;
        let c = PathComponent::Key(k);
        let cp = p.push(c);
        let j = key_index(ys@, k@);
        let prev = diff_entries(old, new, p, n - 1);
        let step = if j >= 0 {
            diff_at(xs[n - 1].1, ys[j].1, cp)
        } else {
            dictionary_removed(cp, xs[n - 1].1)
        };
        lemma_entries_distinct(old, new, p, n - 1);
        lemma_key_index_of_entry(xs@, n - 1, 0);
        assert(xs[n - 1].1.wf());
        if j >= 0 {
            lemma_key_index_from_found(ys@, k@, 0);
            assert(ys[j].1.wf());
            lemma_paths_distinct(xs[n - 1].1, ys[j].1, cp);
        } else {
            lemma_recorded_single(cp, xs[n - 1].1, xs[n - 1].1);
        }
        lemma_recorded_join(prev, step);
        assert forall|q: Seq<PathComponent>|
            #![trigger recorded_paths(diff_entries(old, new, p, n)).count(q)]
            recorded_paths(diff_entries(old, new, p, n)).count(q) <= 1 && (recorded_paths(
                diff_entries(old, new, p, n),
            ).count(q) > 0 ==> {
                &&& p.len() < q.len()
                &&& extends(p, q)
                &&& q[p.len() as int] is Key
                &&& 0 <= key_index(xs@, q[p.len() as int]->Key_0@) < n
            }) by {
            assert(recorded_paths(prev).count(q) <= 1);
            lemma_single_under(cp, q);
            if recorded_paths(step).count(q) > 0 {
                assert(extends(cp, q));
                lemma_extends_push(p, c, q);
            }
        }
    }
}

proof fn lemma_added_entries_distinct(
    xs: Seq<(String, Value)>,
    ys: Seq<(String, Value)>,
    p: Seq<PathComponent>,
    n: int,
)
    requires
        keys_unique(ys),
        0 <= n <= ys.len(),
    ensures
        forall|q: Seq<PathComponent>|
            #![trigger recorded_paths(added_entries(xs, ys, p, n)).count(q)]
            recorded_paths(added_entries(xs, ys, p, n)).count(q) <= 1 && (recorded_paths(
                added_entries(xs, ys, p, n),
            ).count(q) > 0 ==> {
                &&& p.len() < q.len()
                &&& extends(p, q)
                &&& q[p.len() as int] is Key
                &&& key_index(xs, q[p.len() as int]->Key_0@) == -1
                &&& 0 <= key_index(ys, q[p.len() as int]->Key_0@) < n
            }),
    decreases n,
{
    lemma_recorded_single(p, ys[0].1, ys[0].1);
    if n > 0 {
        let c = PathComponent::Key(ys[n - 1].0);
        let cp = p.push(c);
        let prev = added_entries(xs, ys, p, n - 1);
        let step = if key_index(xs, ys[n - 1].0@) == -1 {
            dictionary_added(cp, ys[n - 1].1)
        } else {
            empty_model()
        };
        lemma_added_entries_distinct(xs, ys, p, n - 1);
        lemma_key_index_of_entry(ys, n - 1, 0);
        lemma_recorded_single(cp, ys[n - 1].1, ys[n - 1].1);
        lemma_recorded_join(prev, step);
        assert forall|q: Seq<PathComponent>|
            #![trigger recorded_paths(added_entries(xs, ys, p, n)).count(q)]
            recorded_paths(added_entries(xs, ys, p, n)).count(q) <= 1 && (recorded_paths(
                added_entries(xs, ys, p, n),
            ).count(q) > 0 ==> {
                &&& p.len() < q.len()
                &&& extends(p, q)
                &&& q[p.len() as int] is Key
                &&& key_index(xs, q[p.len() as int]->Key_0@) == -1
                &&& 0 <= key_index(ys, q[p.len() as int]->Key_0@) < n
            }) by {
            assert(recorded_paths(prev).count(q) <= 1);
            lemma_single_under(cp, q);
            if recorded_paths(step).count(q) > 0 {
                lemma_extends_push(p, c, q);
            }
        }
    }
}

proof fn lemma_items_distinct(old: Value, new: Value, p: Seq<PathComponent>, n: int)
    requires
        old.wf(),
        new.wf(),
        old is Sequence,
        new is Sequence,
        0 <= n <= old->Sequence_0.len(),
        n <= new->Sequence_0.len(),
    ensures
        forall|q: Seq<PathComponent>|
            #![trigger recorded_paths(diff_items(old, new, p, n)).count(q)]
            recorded_paths(diff_items(old, new, p, n)).count(q) <= 1 && (recorded_paths(
                diff_items(old, new, p, n),
            ).count(q) > 0 ==> {
                &&& p.len() < q.len()
                &&& extends(p, q)
                &&& q[p.len() as int] is Index
                &&& q[p.len() as int]->Index_0 < n
            }),
    decreases old, 0int, n,
{
    lemma_recorded_single(p, old, new);
    if n > 0 {
        let xs = old->Sequence_0;
        let ys = new->Sequence_0;
        let c = PathComponent::Index((n - 1) as usize);
        let cp = p.push(c);
        let prev = diff_items(old, new, p, n - 1);
        let step = diff_at(xs[n - 1], ys[n - 1], cp);
        lemma_items_distinct(old, new, p, n - 1);
        assert(xs[n - 1].wf());
        assert(ys[n - 1].wf());
        lemma_paths_distinct(xs[n - 1], ys[n - 1], cp);
        lemma_recorded_join(prev, step);
        assert forall|q: Seq<PathComponent>|
            #![trigger recorded_paths(diff_items(old, new, p, n)).count(q)]
            recorded_paths(diff_items(old, new, p, n)).count(q) <= 1 && (recorded_paths(
                diff_items(old, new, p, n),
            ).count(q) > 0 ==> {
                &&& p.len() < q.len()
                &&& extends(p, q)
                &&& q[p.len() as int] is Index
                &&& q[p.len() as int]->Index_0 < n
            }) by {
            assert(recorded_paths(prev).count(q) <= 1);
            assert(recorded_paths(step).count(q) <= 1);
            if recorded_paths(step).count(q) > 0 {
                assert(extends(cp, q));
                lemma_extends_push(p, c, q);
            }
        }
    }
}

proof fn lemma_removed_items_distinct(xs: Seq<Value>, p: Seq<PathComponent>, from: int, to: int)
    requires
        0 <= from,
        to <= xs.len(),
        to <= usize::MAX,
    ensures
        forall|q: Seq<PathComponent>|
            #![trigger recorded_paths(removed_items(xs, p, from, to)).count(q)]
            recorded_paths(removed_items(xs, p, from, to)).count(q) <= 1 && (recorded_paths(
                removed_items(xs, p, from, to),
            ).count(q) > 0 ==> {
                &&& p.len() < q.len()
                &&& extends(p, q)
                &&& q[p.len() as int] is Index
                &&& from <= q[p.len() as int]->Index_0 < to
            }),
    decreases to - from,
{
    lemma_recorded_single(p, Value::Null, Value::Null);
    if to > from {
        let c = PathComponent::Index((to - 1) as usize);
        let cp = p.push(c);
        let prev = removed_items(xs, p, from, to - 1);
        let step = iterable_removed(cp, xs[to - 1]);
        lemma_removed_items_distinct(xs, p, from, to - 1);
        lemma_recorded_single(cp, xs[to - 1], xs[to - 1]);
        lemma_recorded_join(prev, step);
        assert forall|q: Seq<PathComponent>|
            #![trigger recorded_paths(removed_items(xs, p, from, to)).count(q)]
            recorded_paths(removed_items(xs, p, from, to)).count(q) <= 1 && (recorded_paths(
                removed_items(xs, p, from, to),
            ).count(q) > 0 ==> {
                &&& p.len() < q.len()
                &&& extends(p, q)
                &&& q[p.len() as int] is Index
                &&& from <= q[p.len() as int]->Index_0 < to
            }) by {
            assert(recorded_paths(prev).count(q) <= 1);
            lemma_single_under(cp, q);
            if recorded_paths(step).count(q) > 0 {
                lemma_extends_push(p, c, q);
            }
        }
    }
}

proof fn lemma_added_items_distinct(ys: Seq<Value>, p: Seq<PathComponent>, from: int, to: int)
    requires
        0 <= from,
        to <= ys.len(),
        to <= usize::MAX,
    ensures
        forall|q: Seq<PathComponent>|
            #![trigger recorded_paths(added_items(ys, p, from, to)).count(q)]
            recorded_paths(added_items(ys, p, from, to)).count(q) <= 1 && (recorded_paths(
                added_items(ys, p, from, to),
            ).count(q) > 0 ==> {
                &&& p.len() < q.len()
                &&& extends(p, q)
                &&& q[p.len() as int] is Index
                &&& from <= q[p.len() as int]->Index_0 < to
            }),
    decreases to - from,
{
    lemma_recorded_single(p, Value::Null, Value::Null);
    if to > from {
        let c = PathComponent::Index((to - 1) as usize);
        let cp = p.push(c);
        let prev = added_items(ys, p, from, to - 1);
        let step = iterable_added(cp, ys[to - 1]);
        lemma_added_items_distinct(ys, p, from, to - 1);
        lemma_recorded_single(cp, ys[to - 1], ys[to - 1]);
        lemma_recorded_join(prev, step);
        assert forall|q: Seq<PathComponent>|
            #![trigger recorded_paths(added_items(ys, p, from, to)).count(q)]
            recorded_paths(added_items(ys, p, from, to)).count(q) <= 1 && (recorded_paths(
                added_items(ys, p, from, to),
            ).count(q) > 0 ==> {
                &&& p.len() < q.len()
                &&& extends(p, q)
                &&& q[p.len() as int] is Index
                &&& from <= q[p.len() as int]->Index_0 < to
            }) by {
            assert(recorded_paths(prev).count(q) <= 1);
            lemma_single_under(cp, q);
            if recorded_paths(step).count(q) > 0 {
                lemma_extends_push(p, c, q);
            }
        }
    }
}

} // verus!
