use crate::diff::{
    dictionary_added, dictionary_removed, empty_model, iterable_added, iterable_removed, join,
    lemma_join_assoc, lemma_join_empty, type_changed, value_changed, Diff, DiffModel,
};
use crate::path::{copy_path, extend_path, PathComponent};
use crate::value::{
    find_key, key_index, lemma_element_decreases, lemma_entry_decreases, lemma_key_index_from_found,
    value_eq, values_equal, Value,
};
use vstd::prelude::*;

verus! {

broadcast use vstd::std_specs::vec::group_vec_axioms;

/// The differences found when `old` and `new` stand at `path`, in the order
/// in which the walk records them:
/// - different variants: one type change, and nothing below `path`;
/// - two mappings: the keys of `old` in order, each compared below `path`
///   where `new` has it too and removed where it does not, then the keys
///   only `new` has, as added;
/// - two sequences: the common positions compared in order, then the
///   positions only `old` has, as removed, then those only `new` has, as added;
/// - anything else, sets included: one value change where the two differ.
pub open spec fn diff_at(old: Value, new: Value, path: Seq<PathComponent>) -> DiffModel
    decreases old, 1int, 0int,
{
    if old.kind_spec() != new.kind_spec() {
        type_changed(path, old, new)
    } else {
        match old {
            Value::Mapping(xs) => join(
                diff_entries(old, new, path, xs.len() as int),
                added_entries(xs@, new->Mapping_0@, path, new->Mapping_0.len() as int),
            ),
            Value::Sequence(xs) => {
                let ys = new->Sequence_0;
                let common = if xs.len() <= ys.len() {
                    xs.len()
                } else {
                    ys.len()
                };
                join(
                    join(
                        diff_items(old, new, path, common as int),
                        removed_items(xs@, path, ys.len() as int, xs.len() as int),
                    ),
                    added_items(ys@, path, xs.len() as int, ys.len() as int),
                )
            },
            _ => if value_eq(old, new) {
                empty_model()
            } else {
                value_changed(path, old, new)
            },
        }
    }
}

/// What the first `n` entries of the mapping `old` give against the mapping `new`.
pub open spec fn diff_entries(old: Value, new: Value, path: Seq<PathComponent>, n: int) -> DiffModel
    decreases old, 0int, n,
{
    if n <= 0 || !(old is Mapping) || !(new is Mapping) || n > old->Mapping_0.len() {
        empty_model()
    } else {
        let xs = old->Mapping_0;
        let ys = new->Mapping_0;
        let k = xs[n - 1].0;
        let j = key_index(ys@, k@);
        join(
            diff_entries(old, new, path, n - 1),
            if j >= 0 {
                diff_at(xs[n - 1].1, ys[j].1, path.push(PathComponent::Key(k)))
            } else {
                dictionary_removed(path.push(PathComponent::Key(k)), xs[n - 1].1)
            },
        )
    }
}

/// The entries among the first `n` of `ys` whose key `xs` lacks, as added.
pub open spec fn added_entries(
    xs: Seq<(String, Value)>,
    ys: Seq<(String, Value)>,
    path: Seq<PathComponent>,
    n: int,
) -> DiffModel
    decreases n,
{
    if n <= 0 || n > ys.len() {
        empty_model()
    } else {
        join(
            added_entries(xs, ys, path, n - 1),
            if key_index(xs, ys[n - 1].0@) == -1 {
                dictionary_added(path.push(PathComponent::Key(ys[n - 1].0)), ys[n - 1].1)
            } else {
                empty_model()
            },
        )
    }
}

/// What the first `n` positions of the sequences `old` and `new` give.
pub open spec fn diff_items(old: Value, new: Value, path: Seq<PathComponent>, n: int) -> DiffModel
    decreases old, 0int, n,
{
    if n <= 0 || !(old is Sequence) || !(new is Sequence) || n > old->Sequence_0.len() || n
        > new->Sequence_0.len() {
        empty_model()
    } else {
        join(
            diff_items(old, new, path, n - 1),
            diff_at(
                old->Sequence_0[n - 1],
                new->Sequence_0[n - 1],
                path.push(PathComponent::Index((n - 1) as usize)),
            ),
        )
    }
}

/// The elements of `xs` at positions `from .. to`, as removed.
pub open spec fn removed_items(xs: Seq<Value>, path: Seq<PathComponent>, from: int, to: int) -> DiffModel
    decreases to - from,
{
    if to <= from {
        empty_model()
    } else {
        join(
            removed_items(xs, path, from, to - 1),
            iterable_removed(path.push(PathComponent::Index((to - 1) as usize)), xs[to - 1]),
        )
    }
}

/// The elements of `ys` at positions `from .. to`, as added.
pub open spec fn added_items(ys: Seq<Value>, path: Seq<PathComponent>, from: int, to: int) -> DiffModel
    decreases to - from,
{
    if to <= from {
        empty_model()
    } else {
        join(
            added_items(ys, path, from, to - 1),
            iterable_added(path.push(PathComponent::Index((to - 1) as usize)), ys[to - 1]),
        )
    }
}

/// Walks `t1` and `t2` in step below `path` and records every difference
/// found into `diff`, after what it already holds.
pub fn compare_objects<'a>(
    t1: &'a Value,
    t2: &'a Value,
    path: &Vec<PathComponent>,
    diff: &mut Diff<'a>,
)
    requires
        old(diff).wf(),
    ensures
        final(diff).wf(),
        final(diff)@ == join(old(diff)@, diff_at(*t1, *t2, path@)),
    decreases t1, 1int,
{
    if t1.kind() != t2.kind() {
        diff.record_type_change(copy_path(path), t1, t2);
        return;
    }
    match t1 {
        Value::Mapping(_) => {
            compare_dicts(t1, t2, path, diff);
        },
        Value::Sequence(_) => {
            compare_iterables(t1, t2, path, diff);
        },
        _ => {
            if !values_equal(t1, t2) {
                diff.record_value_change(copy_path(path), t1, t2);
            } else {
                proof {
                    lemma_join_empty(old(diff)@);
                }
            }
        },
    }
}

/// Compares two mappings key by key below `path`.
pub fn compare_dicts<'a>(t1: &'a Value, t2: &'a Value, path: &Vec<PathComponent>, diff: &mut Diff<'a>)
    requires
        old(diff).wf(),
        t1 is Mapping,
        t2 is Mapping,
    ensures
        final(diff).wf(),
        final(diff)@ == join(old(diff)@, diff_at(*t1, *t2, path@)),
    decreases t1, 0int,
{
    let (xs, ys) = match (t1, t2) {
        (Value::Mapping(xs), Value::Mapping(ys)) => (xs, ys),
        _ => {
            return;
        },
    };
    let ghost d0 = diff@;
    proof {
        lemma_join_empty(d0);
    }
    let mut i: usize = 0;
    while i < xs.len()
        invariant
            0 <= i <= xs.len(),
            *t1 == Value::Mapping(*xs),
            *t2 == Value::Mapping(*ys),
            diff.wf(),
            diff@ == join(d0, diff_entries(*t1, *t2, path@, i as int)),
        decreases xs.len() - i,
    {
        let ghost before = diff@;
        let ghost k = xs[i as int].0;
        let ghost jj = key_index(ys@, k@);
        let ghost step = if jj >= 0 {
            diff_at(xs[i as int].1, ys[jj].1, path@.push(PathComponent::Key(k)))
        } else {
            dictionary_removed(path@.push(PathComponent::Key(k)), xs[i as int].1)
        };
        let step_path = extend_path(path, PathComponent::Key(xs[i].0.clone()));
        match find_key(ys, &xs[i].0) {
            Some(j) => {
                proof {
                    lemma_entry_decreases(*xs, i as int);
                    lemma_key_index_from_found(ys@, k@, 0);
                    assert(decreases_to!(*t1 => t1->Mapping_0));
                }
                compare_objects(&xs[i].1, &ys[j].1, &step_path, diff);
            },
            None => {
                diff.record_dictionary_removed(step_path, &xs[i].1);
            },
        }
        proof {
            lemma_join_assoc(d0, diff_entries(*t1, *t2, path@, i as int), step);
        }
        i = i + 1;
    }
    let ghost entries = diff_entries(*t1, *t2, path@, xs.len() as int);
    proof {
        lemma_join_empty(entries);
    }
    let mut j: usize = 0;
    while j < ys.len()
        invariant
            0 <= j <= ys.len(),
            *t1 == Value::Mapping(*xs),
            *t2 == Value::Mapping(*ys),
            entries == diff_entries(*t1, *t2, path@, xs.len() as int),
            diff.wf(),
            diff@ == join(d0, join(entries, added_entries(xs@, ys@, path@, j as int))),
        decreases ys.len() - j,
    {
        let ghost added = added_entries(xs@, ys@, path@, j as int);
        let ghost step = if key_index(xs@, ys[j as int].0@) == -1 {
            dictionary_added(path@.push(PathComponent::Key(ys[j as int].0)), ys[j as int].1)
        } else {
            empty_model()
        };
        if find_key(xs, &ys[j].0).is_none() {
            let step_path = extend_path(path, PathComponent::Key(ys[j].0.clone()));
            diff.record_dictionary_added(step_path, &ys[j].1);
        } else {
            proof {
                lemma_join_empty(diff@);
            }
        }
        proof {
            lemma_join_assoc(d0, join(entries, added), step);
            lemma_join_assoc(entries, added, step);
        }
        j = j + 1;
    }
}

/// Compares two sequences position by position below `path`.
pub fn compare_iterables<'a>(
    t1: &'a Value,
    t2: &'a Value,
    path: &Vec<PathComponent>,
    diff: &mut Diff<'a>,
)
    requires
        old(diff).wf(),
        t1 is Sequence,
        t2 is Sequence,
    ensures
        final(diff).wf(),
        final(diff)@ == join(old(diff)@, diff_at(*t1, *t2, path@)),
    decreases t1, 0int,
{
    let (xs, ys) = match (t1, t2) {
        (Value::Sequence(xs), Value::Sequence(ys)) => (xs, ys),
        _ => {
            return;
        },
    };
    let ghost d0 = diff@;
    proof {
        lemma_join_empty(d0);
    }
    let common: usize = if xs.len() <= ys.len() {
        xs.len()
    } else {
        ys.len()
    };
    let mut i: usize = 0;
    while i < common
        invariant
            0 <= i <= common,
            common <= xs.len(),
            common <= ys.len(),
            *t1 == Value::Sequence(*xs),
            *t2 == Value::Sequence(*ys),
            diff.wf(),
            diff@ == join(d0, diff_items(*t1, *t2, path@, i as int)),
        decreases common - i,
    {
        let ghost step = diff_at(
            xs[i as int],
            ys[i as int],
            path@.push(PathComponent::Index(i)),
        );
        let step_path = extend_path(path, PathComponent::Index(i));
        proof {
            lemma_element_decreases(*xs, i as int);
            assert(decreases_to!(*t1 => t1->Sequence_0));
            lemma_join_assoc(d0, diff_items(*t1, *t2, path@, i as int), step);
        }
        compare_objects(&xs[i], &ys[i], &step_path, diff);
        i = i + 1;
    }
    let ghost items = diff_items(*t1, *t2, path@, common as int);
    proof {
        lemma_join_empty(items);
    }
    let mut i: usize = ys.len();
    while i < xs.len()
        invariant
            ys.len() <= i,
            i <= xs.len() || i == ys.len(),
            *t1 == Value::Sequence(*xs),
            *t2 == Value::Sequence(*ys),
            diff.wf(),
            diff@ == join(d0, join(items, removed_items(xs@, path@, ys.len() as int, i as int))),
        decreases xs.len() - i,
    {
        let ghost removed = removed_items(xs@, path@, ys.len() as int, i as int);
        let ghost step = iterable_removed(path@.push(PathComponent::Index(i)), xs[i as int]);
        let step_path = extend_path(path, PathComponent::Index(i));
        diff.record_iterable_removed(step_path, &xs[i]);
        proof {
            lemma_join_assoc(d0, join(items, removed), step);
            lemma_join_assoc(items, removed, step);
        }
        i = i + 1;
    }
    let ghost shrunk = join(items, removed_items(xs@, path@, ys.len() as int, xs.len() as int));
    proof {
        lemma_join_empty(shrunk);
    }
    let mut i: usize = xs.len();
    while i < ys.len()
        invariant
            xs.len() <= i,
            i <= ys.len() || i == xs.len(),
            *t1 == Value::Sequence(*xs),
            *t2 == Value::Sequence(*ys),
            diff.wf(),
            diff@ == join(d0, join(shrunk, added_items(ys@, path@, xs.len() as int, i as int))),
        decreases ys.len() - i,
    {
        let ghost added = added_items(ys@, path@, xs.len() as int, i as int);
        let ghost step = iterable_added(path@.push(PathComponent::Index(i)), ys[i as int]);
        let step_path = extend_path(path, PathComponent::Index(i));
        diff.record_iterable_added(step_path, &ys[i]);
        proof {
            lemma_join_assoc(d0, join(shrunk, added), step);
            lemma_join_assoc(shrunk, added, step);
        }
        i = i + 1;
    }
}

/// Every difference between `t1` and `t2`, found by walking the two in
/// step from the root.
pub fn generate_diff<'a>(t1: &'a Value, t2: &'a Value) -> (r: Diff<'a>)
    ensures
        r.wf(),
        r@ == diff_at(*t1, *t2, Seq::empty()),
{
    let mut diff = Diff::new();
    let root: Vec<PathComponent> = Vec::new();
    compare_objects(t1, t2, &root, &mut diff);
    proof {
        lemma_join_empty(diff_at(*t1, *t2, root@));
        assert(root@ =~= Seq::<PathComponent>::empty());
    }
    diff
}


} // verus!
