use crate::number::Number;
use vstd::prelude::*;

verus! {

broadcast use vstd::std_specs::vec::group_vec_axioms;

/// A comparable datum: a scalar, an ordered sequence, a mapping from string
/// keys to values (in insertion order), or an unordered set.
#[derive(Debug)]
pub enum Value {
    Null,
    Bool(bool),
    Number(Number),
    Str(String),
    Sequence(Vec<Value>),
    Mapping(Vec<(String, Value)>),
    UnorderedSet(Vec<Value>),
}

/// The variant of a `Value`, without its payload.
#[derive(Clone, Copy, Debug, PartialEq, Eq, Structural)]
pub enum ValueKind {
    Null,
    Bool,
    Number,
    Str,
    Sequence,
    Mapping,
    UnorderedSet,
}

/// The keys of a mapping's entries are pairwise distinct.
pub open spec fn keys_unique(entries: Seq<(String, Value)>) -> bool {
    forall|i: int, j: int|
        0 <= i < j < entries.len() ==> #[trigger] entries[i].0@ != #[trigger] entries[j].0@
}

impl Value {
    pub open spec fn kind_spec(self) -> ValueKind {
        match self {
            Value::Null => ValueKind::Null,
            Value::Bool(_) => ValueKind::Bool,
            Value::Number(_) => ValueKind::Number,
            Value::Str(_) => ValueKind::Str,
            Value::Sequence(_) => ValueKind::Sequence,
            Value::Mapping(_) => ValueKind::Mapping,
            Value::UnorderedSet(_) => ValueKind::UnorderedSet,
        }
    }

    /// Every mapping in the tree, at any depth, has pairwise distinct keys.
    pub open spec fn wf(self) -> bool
        decreases self,
    {
        match self {
            Value::Sequence(xs) => forall|i: int| 0 <= i < xs.len() ==> (#[trigger] xs[i]).wf(),
            Value::UnorderedSet(xs) => forall|i: int| 0 <= i < xs.len() ==> (#[trigger] xs[i]).wf(),
            Value::Mapping(xs) => keys_unique(xs@) && forall|i: int|
                0 <= i < xs.len() ==> (#[trigger] xs[i]).1.wf(),
            _ => true,
        }
    }

    pub fn kind(&self) -> (r: ValueKind)
        ensures
            r == self.kind_spec(),
    {
        match self {
            Value::Null => ValueKind::Null,
            Value::Bool(_) => ValueKind::Bool,
            Value::Number(_) => ValueKind::Number,
            Value::Str(_) => ValueKind::Str,
            Value::Sequence(_) => ValueKind::Sequence,
            Value::Mapping(_) => ValueKind::Mapping,
            Value::UnorderedSet(_) => ValueKind::UnorderedSet,
        }
    }
}

/// The index of the first entry of `entries` at or after `from` whose key
/// is `key`, or -1 where there is none.
pub open spec fn key_index_from(entries: Seq<(String, Value)>, key: Seq<char>, from: int) -> int
    decreases entries.len() - from,
{
    if from < 0 || from >= entries.len() {
        -1
    } else if entries[from].0@ == key {
        from
    } else {
        key_index_from(entries, key, from + 1)
    }
}

/// The index of the entry of `entries` whose key is `key`, or -1.
pub open spec fn key_index(entries: Seq<(String, Value)>, key: Seq<char>) -> int {
    key_index_from(entries, key, 0)
}

/// Equality of values: same variant and equal payload. Sequences compare
/// element by element; mappings compare by key, whatever the order of their
/// entries; sets compare as sets, each element having an equal one on the
/// other side.
pub open spec fn value_eq(a: Value, b: Value) -> bool
    decreases a, 1int,
{
    match a {
        Value::Null => b is Null,
        Value::Bool(x) => b is Bool && b->Bool_0 == x,
        Value::Number(x) => b is Number && b->Number_0 == x,
        Value::Str(x) => b is Str && b->Str_0@ == x@,
        Value::Sequence(xs) => {
            &&& b is Sequence
            &&& xs.len() == b->Sequence_0.len()
            &&& forall|i: int|
                #![trigger xs[i]]
                0 <= i < xs.len() ==> value_eq(xs[i], b->Sequence_0[i])
        },
        Value::Mapping(xs) => {
            &&& b is Mapping
            &&& xs.len() == b->Mapping_0.len()
            &&& forall|i: int|
                #![trigger xs[i]]
                0 <= i < xs.len() ==> {
                    let j = key_index(b->Mapping_0@, xs[i].0@);
                    0 <= j && value_eq(xs[i].1, b->Mapping_0[j].1)
                }
        },
        Value::UnorderedSet(xs) => {
            &&& b is UnorderedSet
            &&& forall|i: int|
                #![trigger xs[i]]
                0 <= i < xs.len() ==> has_equal(xs[i], b->UnorderedSet_0, b->UnorderedSet_0.len() as int)
            &&& forall|j: int|
                #![trigger b->UnorderedSet_0[j]]
                0 <= j < b->UnorderedSet_0.len() ==> equal_in(xs, b->UnorderedSet_0[j], xs.len() as int)
        },
    }
}

/// Some one of the first `n` elements of `ys` equals `x`.
pub open spec fn has_equal(x: Value, ys: Vec<Value>, n: int) -> bool
    decreases x, 2 + n,
{
    if n <= 0 || n > ys.len() {
        false
    } else {
        value_eq(x, ys[n - 1]) || has_equal(x, ys, n - 1)
    }
}

/// `y` equals some one of the first `n` elements of `xs`.
pub open spec fn equal_in(xs: Vec<Value>, y: Value, n: int) -> bool
    decreases xs, n,
{
    if n <= 0 || n > xs.len() {
        false
    } else {
        value_eq(xs[n - 1], y) || equal_in(xs, y, n - 1)
    }
}

/// With distinct keys, each entry's key leads back to that entry.
pub proof fn lemma_key_index_of_entry(entries: Seq<(String, Value)>, i: int, from: int)
    requires
        keys_unique(entries),
        0 <= from <= i < entries.len(),
    ensures
        key_index_from(entries, entries[i].0@, from) == i,
    decreases i - from,
{
    if from < i {
        assert(entries[from].0@ != entries[i].0@);
        lemma_key_index_of_entry(entries, i, from + 1);
    }
}

/// What `key_index_from` returns is -1 or an entry with that key.
pub proof fn lemma_key_index_from_found(entries: Seq<(String, Value)>, key: Seq<char>, from: int)
    ensures
        key_index_from(entries, key, from) == -1 || (from <= key_index_from(entries, key, from)
            < entries.len() && entries[key_index_from(entries, key, from)].0@ == key),
        key_index_from(entries, key, from) == -1 && 0 <= from ==> forall|j: int|
            from <= j < entries.len() ==> (#[trigger] entries[j]).0@ != key,
    decreases entries.len() - from,
{
    if 0 <= from < entries.len() && entries[from].0@ != key {
        lemma_key_index_from_found(entries, key, from + 1);
    }
}

pub proof fn lemma_has_equal(x: Value, ys: Vec<Value>, k: int, n: int)
    requires
        0 <= k < n <= ys.len(),
        value_eq(x, ys[k]),
    ensures
        has_equal(x, ys, n),
    decreases n,
{
    if k < n - 1 {
        lemma_has_equal(x, ys, k, n - 1);
    }
}

pub proof fn lemma_equal_in(xs: Vec<Value>, y: Value, k: int, n: int)
    requires
        0 <= k < n <= xs.len(),
        value_eq(xs[k], y),
    ensures
        equal_in(xs, y, n),
    decreases n,
{
    if k < n - 1 {
        lemma_equal_in(xs, y, k, n - 1);
    }
}

/// Every well-formed value equals itself.
pub proof fn lemma_value_eq_reflexive(a: Value)
    requires
        a.wf(),
    ensures
        value_eq(a, a),
    decreases a,
{
    match a {
        Value::Sequence(xs) => {
            assert forall|i: int| #![trigger xs[i]] 0 <= i < xs.len() implies value_eq(xs[i], xs[i]) by {
                lemma_value_eq_reflexive(xs[i]);
            }
        },
        Value::Mapping(xs) => {
            assert forall|i: int| #![trigger xs[i]] 0 <= i < xs.len() implies {
                let j = key_index(xs@, xs[i].0@);
                0 <= j && value_eq(xs[i].1, xs[j].1)
            } by {
                lemma_key_index_of_entry(xs@, i, 0);
                lemma_value_eq_reflexive(xs[i].1);
            }
        },
        Value::UnorderedSet(xs) => {
            assert forall|i: int| #![trigger xs[i]] 0 <= i < xs.len() implies has_equal(xs[i], xs, xs.len() as int) by {
                lemma_value_eq_reflexive(xs[i]);
                lemma_has_equal(xs[i], xs, i, xs.len() as int);
            }
            assert forall|i: int| #![trigger xs[i]] 0 <= i < xs.len() implies equal_in(xs, xs[i], xs.len() as int) by {
                lemma_value_eq_reflexive(xs[i]);
                lemma_equal_in(xs, xs[i], i, xs.len() as int);
            }
        },
        _ => {},
    }
}

pub(crate) proof fn lemma_element_decreases(xs: Vec<Value>, i: int)
    requires
        0 <= i < xs.len(),
    ensures
        decreases_to!(xs => xs[i]),
{
    assert(decreases_to!(xs => xs@));
    assert(decreases_to!(xs@ => xs@[i]));
}

pub(crate) proof fn lemma_entry_decreases(xs: Vec<(String, Value)>, i: int)
    requires
        0 <= i < xs.len(),
    ensures
        decreases_to!(xs => xs[i].1),
{
    assert(decreases_to!(xs => xs@));
    assert(decreases_to!(xs@ => xs@[i]));
    assert(decreases_to!(xs@[i] => xs@[i].1));
}

proof fn lemma_set_eq_elim(a: Value, b: Value, i: int)
    requires
        a is UnorderedSet,
        b is UnorderedSet,
        value_eq(a, b),
    ensures
        0 <= i < a->UnorderedSet_0.len() ==> has_equal(
            a->UnorderedSet_0[i],
            b->UnorderedSet_0,
            b->UnorderedSet_0.len() as int,
        ),
        forall|j: int|
            #![trigger b->UnorderedSet_0[j]]
            0 <= j < b->UnorderedSet_0.len() ==> equal_in(
                a->UnorderedSet_0,
                b->UnorderedSet_0[j],
                a->UnorderedSet_0.len() as int,
            ),
{
    let xs = a->UnorderedSet_0;
    if 0 <= i < xs.len() {
        assert(xs[i] == a->UnorderedSet_0[i]);
    }
}

/// The position of the entry whose key is `key`, the first one if several are.
pub fn find_key(entries: &Vec<(String, Value)>, key: &String) -> (r: Option<usize>)
    ensures
        r is None <==> key_index(entries@, key@) == -1,
        r matches Some(j) ==> j == key_index(entries@, key@),
{
    let mut i: usize = 0;
    while i < entries.len()
        invariant
            0 <= i <= entries.len(),
            key_index(entries@, key@) == key_index_from(entries@, key@, i as int),
        decreases entries.len() - i,
    {
        if entries[i].0 == *key {
            return Some(i);
        }
        i = i + 1;
    }
    None
}

/// Whether the keys of `entries` are pairwise distinct, as those of a
/// mapping must be.
pub fn keys_distinct(entries: &Vec<(String, Value)>) -> (r: bool)
    ensures
        r == keys_unique(entries@),
{
    let mut j: usize = 0;
    while j < entries.len()
        invariant
            0 <= j <= entries.len(),
            forall|a: int, b: int|
                0 <= a < b < j ==> #[trigger] entries@[a].0@ != #[trigger] entries@[b].0@,
        decreases entries.len() - j,
    {
        let mut i: usize = 0;
        while i < j
            invariant
                0 <= i <= j < entries.len(),
                forall|a: int| 0 <= a < i ==> #[trigger] entries@[a].0@ != entries@[j as int].0@,
            decreases j - i,
        {
            if entries[i].0 == entries[j].0 {
                return false;
            }
            i = i + 1;
        }
        j = j + 1;
    }
    true
}

/// Decides `value_eq`.
pub fn values_equal(a: &Value, b: &Value) -> (r: bool)
    ensures
        r == value_eq(*a, *b),
    decreases a,
{
    match (a, b) {
        (Value::Null, Value::Null) => true,
        (Value::Bool(x), Value::Bool(y)) => *x == *y,
        (Value::Number(x), Value::Number(y)) => *x == *y,
        (Value::Str(x), Value::Str(y)) => *x == *y,
        (Value::Sequence(xs), Value::Sequence(ys)) => {
            if xs.len() != ys.len() {
                return false;
            }
            let mut i: usize = 0;
            while i < xs.len()
                invariant
                    0 <= i <= xs.len() == ys.len(),
                    *a == Value::Sequence(*xs),
                    *b == Value::Sequence(*ys),
                    forall|k: int| #![trigger xs[k]] 0 <= k < i ==> value_eq(xs[k], ys[k]),
                decreases xs.len() - i,
            {
                proof {
                    lemma_element_decreases(*xs, i as int);
                    assert(decreases_to!(*a => a->Sequence_0));
                }
                if !values_equal(&xs[i], &ys[i]) {
                    return false;
                }
                i = i + 1;
            }
            true
        },
        (Value::Mapping(xs), Value::Mapping(ys)) => {
            if xs.len() != ys.len() {
                return false;
            }
            let mut i: usize = 0;
            while i < xs.len()
                invariant
                    0 <= i <= xs.len() == ys.len(),
                    *a == Value::Mapping(*xs),
                    *b == Value::Mapping(*ys),
                    forall|k: int|
                        #![trigger xs[k]]
                        0 <= k < i ==> {
                            let j = key_index(ys@, xs[k].0@);
                            0 <= j < ys.len() && value_eq(xs[k].1, ys[j].1)
                        },
                decreases xs.len() - i,
            {
                match find_key(ys, &xs[i].0) {
                    None => {
                        return false;
                    },
                    Some(j) => {
                        proof {
                            lemma_key_index_from_found(ys@, xs[i as int].0@, 0);
                        }
                        proof {
                            lemma_entry_decreases(*xs, i as int);
                            assert(decreases_to!(*a => a->Mapping_0));
                        }
                        if !values_equal(&xs[i].1, &ys[j].1) {
                            return false;
                        }
                    },
                }
                i = i + 1;
            }
            true
        },
        (Value::UnorderedSet(xs), Value::UnorderedSet(ys)) => {
            let mut i: usize = 0;
            while i < xs.len()
                invariant
                    0 <= i <= xs.len(),
                    *a == Value::UnorderedSet(*xs),
                    *b == Value::UnorderedSet(*ys),
                    forall|k: int|
                        #![trigger xs[k]]
                        0 <= k < i ==> has_equal(xs[k], *ys, ys.len() as int),
                decreases xs.len() - i,
            {
                let mut found = false;
                let mut j: usize = 0;
                while j < ys.len()
                    invariant
                        0 <= i < xs.len(),
                        0 <= j <= ys.len(),
                        *a == Value::UnorderedSet(*xs),
                        found == has_equal(xs[i as int], *ys, j as int),
                    decreases ys.len() - j,
                {
                    proof {
                        lemma_element_decreases(*xs, i as int);
                        assert(decreases_to!(*a => a->UnorderedSet_0));
                    }
                    let e = values_equal(&xs[i], &ys[j]);
                    found = e || found;
                    j = j + 1;
                }
                if !found {
                    proof {
                        if value_eq(*a, *b) {
                            lemma_set_eq_elim(*a, *b, i as int);
                        }
                    }
                    return false;
                }
                i = i + 1;
            }
            let mut j: usize = 0;
            while j < ys.len()
                invariant
                    0 <= j <= ys.len(),
                    *a == Value::UnorderedSet(*xs),
                    *b == Value::UnorderedSet(*ys),
                    forall|k: int| 0 <= k < xs.len() ==> has_equal(#[trigger] xs[k], *ys, ys.len() as int),
                    forall|k: int|
                        #![trigger ys[k]]
                        0 <= k < j ==> equal_in(*xs, ys[k], xs.len() as int),
                decreases ys.len() - j,
            {
                let mut found = false;
                let mut i: usize = 0;
                while i < xs.len()
                    invariant
                        0 <= j < ys.len(),
                        0 <= i <= xs.len(),
                        *a == Value::UnorderedSet(*xs),
                        found == equal_in(*xs, ys[j as int], i as int),
                    decreases xs.len() - i,
                {
                    proof {
                        lemma_element_decreases(*xs, i as int);
                        assert(decreases_to!(*a => a->UnorderedSet_0));
                    }
                    let e = values_equal(&xs[i], &ys[j]);
                    found = e || found;
                    i = i + 1;
                }
                if !found {
                    proof {
                        if value_eq(*a, *b) {
                            lemma_set_eq_elim(*a, *b, 0);
                        }
                    }
                    return false;
                }
                j = j + 1;
            }
            true
        },
        _ => false,
    }
}

} // verus!
