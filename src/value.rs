use vstd::prelude::*;

verus! {

broadcast use {
    vstd::seq::group_seq_axioms,
    vstd::std_specs::vec::axiom_vec_index_decreases,
    vstd::std_specs::vec::axiom_vec_decreases_to_view,
};

/// A document value as a mathematical object: the model that contracts
/// speak of. An object is its sequence of entries, in insertion order.
pub enum ValueModel {
    Nil,
    Boolean(bool),
    Integer(int),
    Float(Seq<char>),
    Str(Seq<char>),
    Array(Seq<ValueModel>),
    Object(Seq<(Seq<char>, ValueModel)>),
}

/// The depth one level down: a negative depth stays unbounded.
pub open spec fn next_depth(depth: int) -> int {
    if depth < 0 { depth } else { depth - 1 }
}

/// Whether some entry has the given key.
pub open spec fn has_key(entries: Seq<(Seq<char>, ValueModel)>, key: Seq<char>) -> bool {
    exists|i: int| 0 <= i < entries.len() && entries[i].0 == key
}

/// Whether `i` is the position of the first entry with the given key.
pub open spec fn is_first_index(entries: Seq<(Seq<char>, ValueModel)>, key: Seq<char>, i: int) -> bool {
    &&& 0 <= i < entries.len()
    &&& entries[i].0 == key
    &&& forall|j: int| 0 <= j < i ==> entries[j].0 != key
}

/// The value of the first entry with the given key.
pub open spec fn value_of(entries: Seq<(Seq<char>, ValueModel)>, key: Seq<char>) -> ValueModel {
    entries[choose|i: int| is_first_index(entries, key, i)].1
}

proof fn lemma_value_of(entries: Seq<(Seq<char>, ValueModel)>, key: Seq<char>, i: int)
    requires
        is_first_index(entries, key, i),
    ensures
        value_of(entries, key) == entries[i].1,
        has_key(entries, key),
{
    let c = choose|c: int| is_first_index(entries, key, c);
    assert(is_first_index(entries, key, c));
    if c < i {
        assert(entries[c].0 != key);
    } else if i < c {
        assert(entries[i].0 != key);
    }
}

/// Whether no two entries share a key.
pub open spec fn unique_keys(entries: Seq<(Seq<char>, ValueModel)>) -> bool {
    forall|i: int, j: int| 0 <= i < j < entries.len() ==> entries[i].0 != entries[j].0
}

/// The merge of two values: `depth` levels of arrays and objects are merged
/// element by element; below that, and wherever the shapes differ, the right
/// value wins. A negative depth has no bound.
pub open spec fn merge_spec(left: ValueModel, right: ValueModel, depth: int) -> ValueModel
    decreases left,
{
    if depth == 0 {
        right
    } else {
        match (left, right) {
            (ValueModel::Array(a), ValueModel::Array(b)) => ValueModel::Array(
                Seq::new(
                    if a.len() < b.len() { b.len() } else { a.len() },
                    |i: int|
                        if 0 <= i < a.len() && i < b.len() {
                            merge_spec(a[i], b[i], next_depth(depth))
                        } else if 0 <= i < a.len() {
                            a[i]
                        } else {
                            b[i]
                        },
                ),
            ),
            (ValueModel::Object(a), ValueModel::Object(b)) => ValueModel::Object(
                Seq::new(
                    a.len(),
                    |i: int|
                        if 0 <= i < a.len() {
                            (
                                a[i].0,
                                if has_key(b, a[i].0) {
                                    merge_spec(a[i].1, value_of(b, a[i].0), next_depth(depth))
                                } else {
                                    a[i].1
                                },
                            )
                        } else {
                            a[i]
                        },
                ) + b.filter(|e: (Seq<char>, ValueModel)| !has_key(a, e.0)),
            ),
            _ => right,
        }
    }
}

/// Whether every object, at every depth, has non-empty keys, no two of
/// them equal.
pub open spec fn well_formed(v: ValueModel) -> bool
    decreases v,
{
    match v {
        ValueModel::Array(a) => forall|i: int| 0 <= i < a.len() ==> well_formed(#[trigger] a[i]),
        ValueModel::Object(o) => unique_keys(o) && forall|i: int|
            0 <= i < o.len() ==> (#[trigger] o[i]).0.len() > 0 && well_formed(o[i].1),
        _ => true,
    }
}

proof fn lemma_filter_entries(
    b: Seq<(Seq<char>, ValueModel)>,
    p: spec_fn((Seq<char>, ValueModel)) -> bool,
)
    ensures
        forall|i: int|
            0 <= i < b.filter(p).len() ==> p(#[trigger] b.filter(p)[i]) && exists|j: int|
                0 <= j < b.len() && b[j] == b.filter(p)[i],
        unique_keys(b) ==> unique_keys(b.filter(p)),
    decreases b.len(),
{
    reveal(Seq::filter);
    if b.len() > 0 {
        let rest = b.drop_last();
        lemma_filter_entries(rest, p);
        let f = b.filter(p);
        let g = rest.filter(p);
        assert forall|i: int| 0 <= i < f.len() implies p(#[trigger] f[i]) && exists|j: int|
            0 <= j < b.len() && b[j] == f[i] by {
            if i < g.len() {
                assert(f[i] == g[i]);
                let j = choose|j: int| 0 <= j < rest.len() && rest[j] == g[i];
                assert(b[j] == f[i]);
            } else {
                assert(f[i] == b.last());
                assert(b[b.len() - 1] == f[i]);
            }
        }
        if unique_keys(b) {
            assert(unique_keys(rest));
            assert forall|i: int, j: int| 0 <= i < j < f.len() implies f[i].0 != f[j].0 by {
                if j < g.len() {
                    assert(f[i] == g[i] && f[j] == g[j]);
                } else {
                    assert(f[j] == b.last());
                    assert(f[i] == g[i]);
                    let k = choose|k: int| 0 <= k < rest.len() && rest[k] == g[i];
                    assert(b[k] == f[i]);
                    assert(b[k].0 != b[b.len() - 1].0);
                }
            }
        }
    }
}

/// A merge of well-formed values is well formed: the object keys stay
/// unique.
pub proof fn lemma_merge_well_formed(left: ValueModel, right: ValueModel, depth: int)
    requires
        well_formed(left),
        well_formed(right),
    ensures
        well_formed(merge_spec(left, right, depth)),
    decreases left,
{
    if depth != 0 {
        match (left, right) {
            (ValueModel::Array(a), ValueModel::Array(b)) => {
                let m = merge_spec(left, right, depth);
                let s = m->Array_0;
                assert forall|i: int| 0 <= i < s.len() implies well_formed(#[trigger] s[i]) by {
                    if i < a.len() && i < b.len() {
                        lemma_merge_well_formed(a[i], b[i], next_depth(depth));
                    }
                }
            },
            (ValueModel::Object(a), ValueModel::Object(b)) => {
                let m = merge_spec(left, right, depth);
                let s = m->Object_0;
                let p = |e: (Seq<char>, ValueModel)| !has_key(a, e.0);
                lemma_filter_entries(b, p);
                let f = b.filter(p);
                assert(s =~= Seq::new(
                    a.len(),
                    |i: int|
                        if 0 <= i < a.len() {
                            (
                                a[i].0,
                                if has_key(b, a[i].0) {
                                    merge_spec(a[i].1, value_of(b, a[i].0), next_depth(depth))
                                } else {
                                    a[i].1
                                },
                            )
                        } else {
                            a[i]
                        },
                ) + f);
                assert forall|i: int| 0 <= i < s.len() implies well_formed(#[trigger] s[i].1) by {
                    if i < a.len() {
                        if has_key(b, a[i].0) {
                            let w = choose|w: int| 0 <= w < b.len() && b[w].0 == a[i].0;
                            lemma_first_exists(b, a[i].0, w);
                            lemma_merge_well_formed(a[i].1, value_of(b, a[i].0), next_depth(depth));
                        }
                    } else {
                        let k = i - a.len();
                        assert(s[i] == f[k]);
                        let j = choose|j: int| 0 <= j < b.len() && b[j] == f[k];
                        assert(well_formed(b[j].1));
                    }
                }
                assert forall|i: int, j: int| 0 <= i < j < s.len() implies s[i].0 != s[j].0 by {
                    if j < a.len() {
                        assert(a[i].0 != a[j].0);
                    } else if i >= a.len() {
                        assert(s[i] == f[i - a.len()] && s[j] == f[j - a.len()]);
                    } else {
                        assert(s[j] == f[j - a.len()]);
                        assert(p(f[j - a.len()]));
                        assert(s[i].0 == a[i].0);
                    }
                }
            },
            _ => {},
        }
    }
}

proof fn lemma_first_exists(entries: Seq<(Seq<char>, ValueModel)>, key: Seq<char>, w: int)
    requires
        0 <= w < entries.len(),
        entries[w].0 == key,
    ensures
        exists|c: int| is_first_index(entries, key, c),
    decreases w,
{
    if exists|j: int| 0 <= j < w && entries[j].0 == key {
        let j = choose|j: int| 0 <= j < w && entries[j].0 == key;
        lemma_first_exists(entries, key, j);
    } else {
        assert(is_first_index(entries, key, w));
    }
}

/// A merge at depth zero gives the right value, whatever the left one is.
pub proof fn lemma_merge_depth_zero(left: ValueModel, right: ValueModel)
    ensures
        merge_spec(left, right, 0) == right,
{
}

/// The class of a value when fields are reordered for a table format:
/// scalars first, then arrays, then objects.
pub open spec fn table_class(v: ValueModel) -> int {
    match v {
        ValueModel::Array(_) => 1,
        ValueModel::Object(_) => 2,
        _ => 0,
    }
}

/// An object's fields reordered so that scalar fields come first, then array
/// fields, then object fields, each class in the order it had; nested
/// objects are reordered the same way. Any other value is kept as it is.
pub open spec fn reorder_spec(v: ValueModel) -> ValueModel
    decreases v, 1int,
{
    match v {
        ValueModel::Object(o) => ValueModel::Object(
            reorder_class(o, 0) + reorder_class(o, 1) + reorder_class(o, 2),
        ),
        _ => v,
    }
}

/// The fields of one class, in order, each reordered.
pub open spec fn reorder_class(o: Seq<(Seq<char>, ValueModel)>, class: int) -> Seq<
    (Seq<char>, ValueModel),
>
    decreases o, 0int,
{
    if o.len() == 0 {
        o
    } else {
        let rest = reorder_class(o.drop_last(), class);
        if table_class(o.last().1) == class {
            rest.push((o.last().0, reorder_spec(o.last().1)))
        } else {
            rest
        }
    }
}

proof fn lemma_reorder_class(o: Seq<(Seq<char>, ValueModel)>, class: int)
    requires
        forall|i: int| 0 <= i < o.len() ==> well_formed(#[trigger] o[i].1),
    ensures
        forall|k: int|
            0 <= k < reorder_class(o, class).len() ==> exists|j: int|
                0 <= j < o.len() && o[j].0 == (#[trigger] reorder_class(o, class)[k]).0
                    && table_class(o[j].1) == class,
        forall|k: int|
            0 <= k < reorder_class(o, class).len() ==> well_formed(
                (#[trigger] reorder_class(o, class)[k]).1,
            ),
        unique_keys(o) ==> unique_keys(reorder_class(o, class)),
    decreases o, 0int,
{
    if o.len() > 0 {
        let rest = o.drop_last();
        lemma_reorder_class(rest, class);
        let g = reorder_class(rest, class);
        let r = reorder_class(o, class);
        let n = o.len() - 1;
        if table_class(o.last().1) == class {
            assert(o[n] == o.last());
            lemma_reorder_well_formed(o.last().1);
            assert(r == g.push((o.last().0, reorder_spec(o.last().1))));
            assert forall|k: int| 0 <= k < r.len() implies exists|j: int|
                0 <= j < o.len() && o[j].0 == (#[trigger] r[k]).0 && table_class(o[j].1) == class by {
                if k < g.len() {
                    let j = choose|j: int|
                        0 <= j < rest.len() && rest[j].0 == g[k].0 && table_class(rest[j].1) == class;
                    assert(o[j] == rest[j]);
                } else {
                    assert(o[n].0 == r[k].0);
                }
            }
            assert forall|k: int| 0 <= k < r.len() implies well_formed((#[trigger] r[k]).1) by {
                if k < g.len() {
                    assert(r[k] == g[k]);
                }
            }
            if unique_keys(o) {
                assert forall|i: int, j: int| 0 <= i < j < r.len() implies r[i].0 != r[j].0 by {
                    if j < g.len() {
                        assert(r[i] == g[i] && r[j] == g[j]);
                    } else {
                        let x = choose|x: int|
                            0 <= x < rest.len() && rest[x].0 == g[i].0 && table_class(rest[x].1)
                                == class;
                        assert(o[x] == rest[x]);
                        assert(o[x].0 != o[n].0);
                        assert(r[i] == g[i]);
                    }
                }
            }
        } else {
            assert forall|k: int| 0 <= k < r.len() implies exists|j: int|
                0 <= j < o.len() && o[j].0 == (#[trigger] r[k]).0 && table_class(o[j].1) == class by {
                let j = choose|j: int|
                    0 <= j < rest.len() && rest[j].0 == g[k].0 && table_class(rest[j].1) == class;
                assert(o[j] == rest[j]);
            }
        }
    }
}

/// Reordering the fields of a well-formed value keeps it well formed.
pub proof fn lemma_reorder_well_formed(v: ValueModel)
    requires
        well_formed(v),
    ensures
        well_formed(reorder_spec(v)),
    decreases v, 1int,
{
    match v {
        ValueModel::Object(o) => {
            lemma_reorder_class(o, 0);
            lemma_reorder_class(o, 1);
            lemma_reorder_class(o, 2);
            let r0 = reorder_class(o, 0);
            let r1 = reorder_class(o, 1);
            let r2 = reorder_class(o, 2);
            let s = r0 + r1 + r2;
            assert(reorder_spec(v) == ValueModel::Object(s));
            assert forall|i: int| 0 <= i < s.len() implies well_formed(#[trigger] s[i].1) by {
                if i < r0.len() {
                    assert(s[i] == r0[i]);
                } else if i < r0.len() + r1.len() {
                    assert(s[i] == r1[i - r0.len()]);
                } else {
                    assert(s[i] == r2[i - r0.len() - r1.len()]);
                }
            }
            assert forall|i: int, j: int| 0 <= i < j < s.len() implies s[i].0 != s[j].0 by {
                let (ci, ki) = if i < r0.len() {
                    (0int, i)
                } else if i < r0.len() + r1.len() {
                    (1int, i - r0.len())
                } else {
                    (2int, i - r0.len() - r1.len())
                };
                let (cj, kj) = if j < r0.len() {
                    (0int, j)
                } else if j < r0.len() + r1.len() {
                    (1int, j - r0.len())
                } else {
                    (2int, j - r0.len() - r1.len())
                };
                assert(s[i] == reorder_class(o, ci)[ki]);
                assert(s[j] == reorder_class(o, cj)[kj]);
                if ci != cj {
                    let x = choose|x: int|
                        0 <= x < o.len() && o[x].0 == reorder_class(o, ci)[ki].0 && table_class(
                            o[x].1,
                        ) == ci;
                    let y = choose|y: int|
                        0 <= y < o.len() && o[y].0 == reorder_class(o, cj)[kj].0 && table_class(
                            o[y].1,
                        ) == cj;
                    assert(x != y);
                    if x < y {
                        assert(o[x].0 != o[y].0);
                    } else {
                        assert(o[y].0 != o[x].0);
                    }
                }
            }
        },
        _ => {},
    }
}

/// A document value. An `Object` holds its entries in insertion order;
/// a `Float` holds the decimal text of a 64-bit float.
///
/// Object entries sit in a `Vec` with unique keys (see `well_formed`) and
/// not in an ordered hash map: Verus refuses a declared outside map whose
/// values are this type ("non-positive position"), and a map hidden in an
/// opaque struct leaves the recursive specs with no measure to decrease.
#[derive(PartialEq, Debug)]
pub enum Value {
    Nil,
    Boolean(bool),
    Integer(i64),
    Float(String),
    String(String),
    Array(Vec<Value>),
    Object(Vec<(String, Value)>),
}

/// The models of a sequence of values.
pub open spec fn models(s: Seq<Value>) -> Seq<ValueModel>
    decreases s,
{
    Seq::new(s.len(), |i: int| if 0 <= i < s.len() { s[i]@ } else { ValueModel::Nil })
}

/// The models of a sequence of object entries.
pub open spec fn entry_models(s: Seq<(String, Value)>) -> Seq<(Seq<char>, ValueModel)>
    decreases s,
{
    Seq::new(
        s.len(),
        |i: int| if 0 <= i < s.len() { (s[i].0@, s[i].1@) } else { (Seq::empty(), ValueModel::Nil) },
    )
}

impl View for Value {
    type V = ValueModel;

    open spec fn view(&self) -> ValueModel
        decreases self,
    {
        match self {
            Value::Nil => ValueModel::Nil,
            Value::Boolean(b) => ValueModel::Boolean(*b),
            Value::Integer(i) => ValueModel::Integer(*i as int),
            Value::Float(f) => ValueModel::Float(f@),
            Value::String(s) => ValueModel::Str(s@),
            Value::Array(a) => ValueModel::Array(models(a@)),
            Value::Object(o) => ValueModel::Object(entry_models(o@)),
        }
    }
}


impl Value {
    /// A copy of this value, equal to it in every part.
    #[verifier::loop_isolation(false)]
    pub fn duplicate(&self) -> (r: Value)
        ensures
            r@ == self@,
        decreases self,
    {
        match self {
            Value::Nil => Value::Nil,
            Value::Boolean(b) => Value::Boolean(*b),
            Value::Integer(i) => Value::Integer(*i),
            Value::Float(f) => Value::Float(f.clone()),
            Value::String(s) => Value::String(s.clone()),
            Value::Array(a) => {
                let mut r: Vec<Value> = Vec::new();
                let mut i: usize = 0;
                while i < a.len()
                    invariant
                        i <= a@.len(),
                        r@.len() == i,
                        forall|j: int| 0 <= j < i ==> r@[j]@ == a@[j]@,
                    decreases a@.len() - i,
                {
                    proof {
                        assert(decreases_to!(*self => *a));
                        assert(decreases_to!(*a => a[i as int]));
                        assert(decreases_to!(*self => a[i as int]));
                    }
                    r.push(a[i].duplicate());
                    i += 1;
                }
                proof {
                    assert(models(r@) =~= models(a@));
                }
                Value::Array(r)
            },
            Value::Object(o) => {
                let mut r: Vec<(String, Value)> = Vec::new();
                let mut i: usize = 0;
                while i < o.len()
                    invariant
                        i <= o@.len(),
                        r@.len() == i,
                        forall|j: int| 0 <= j < i ==> r@[j].0@ == o@[j].0@ && r@[j].1@ == o@[j].1@,
                    decreases o@.len() - i,
                {
                    proof {
                        assert(decreases_to!(*self => *o));
                        assert(decreases_to!(*o => o[i as int]));
                        assert(decreases_to!(*self => o[i as int].1));
                    }
                    r.push((o[i].0.clone(), o[i].1.duplicate()));
                    i += 1;
                }
                proof {
                    assert(entry_models(r@) =~= entry_models(o@));
                }
                Value::Object(r)
            },
        }
    }
}

impl Clone for Value {
    fn clone(&self) -> (r: Value)
        ensures
            r@ == self@,
    {
        self.duplicate()
    }
}


/// The position of the first entry with the given key, if any.
pub fn find_key(entries: &Vec<(String, Value)>, key: &String) -> (r: Option<usize>)
    ensures
        match r {
            Some(i) => is_first_index(entry_models(entries@), key@, i as int),
            None => !has_key(entry_models(entries@), key@),
        },
{
    let ghost em = entry_models(entries@);
    let mut i: usize = 0;
    while i < entries.len()
        invariant
            i <= entries@.len(),
            em == entry_models(entries@),
            forall|j: int| 0 <= j < i ==> em[j].0 != key@,
        decreases entries@.len() - i,
    {
        if entries[i].0 == *key {
            return Some(i);
        }
        i += 1;
    }
    None
}

/// Merges two values; see `merge_spec`. A negative depth has no bound.
#[verifier::loop_isolation(false)]
pub fn merge_values(left: &Value, right: &Value, depth: isize) -> (r: Value)
    ensures
        r@ == merge_spec(left@, right@, depth as int),
        well_formed(left@) && well_formed(right@) ==> well_formed(r@),
    decreases left,
{
    proof {
        if well_formed(left@) && well_formed(right@) {
            lemma_merge_well_formed(left@, right@, depth as int);
        }
    }
    if depth == 0 {
        return right.duplicate();
    }
    let nd: isize = if depth < 0 { depth } else { depth - 1 };
    match (left, right) {
        (Value::Array(l), Value::Array(r)) => {
            let len: usize = if l.len() < r.len() { r.len() } else { l.len() };
            let ghost a = models(l@);
            let ghost b = models(r@);
            let mut s: Vec<Value> = Vec::new();
            let mut i: usize = 0;
            while i < len
                invariant
                    i <= len,
                    s@.len() == i,
                    forall|k: int|
                        0 <= k < i ==> #[trigger] s@[k]@ == (if k < a.len() && k < b.len() {
                            merge_spec(a[k], b[k], nd as int)
                        } else if k < a.len() {
                            a[k]
                        } else {
                            b[k]
                        }),
                decreases len - i,
            {
                if i < l.len() && i < r.len() {
                    proof {
                        assert(decreases_to!(*left => *l));
                        assert(decreases_to!(*l => l[i as int]));
                    }
                    s.push(merge_values(&l[i], &r[i], nd));
                } else if i < l.len() {
                    s.push(l[i].duplicate());
                } else {
                    s.push(r[i].duplicate());
                }
                i += 1;
            }
            proof {
                assert(left@ == ValueModel::Array(a));
                assert(right@ == ValueModel::Array(b));
                let m = match merge_spec(left@, right@, depth as int) {
                    ValueModel::Array(m) => m,
                    _ => Seq::empty(),
                };
                assert(m.len() == s@.len());
                assert forall|k: int| 0 <= k < m.len() implies models(s@)[k] == m[k] by {
                    assert(s@[k]@ == models(s@)[k]);
                }
                assert(models(s@) =~= match merge_spec(left@, right@, depth as int) {
                    ValueModel::Array(m) => m,
                    _ => Seq::empty(),
                });
            }
            Value::Array(s)
        },
        (Value::Object(l), Value::Object(r)) => {
            let ghost a = entry_models(l@);
            let ghost b = entry_models(r@);
            let mut s: Vec<(String, Value)> = Vec::new();
            let mut i: usize = 0;
            while i < l.len()
                invariant
                    i <= l@.len(),
                    s@.len() == i,
                    forall|k: int|
                        0 <= k < i ==> s@[k].0@ == a[k].0 && #[trigger] s@[k].1@ == (if has_key(
                            b,
                            a[k].0,
                        ) {
                            merge_spec(a[k].1, value_of(b, a[k].0), nd as int)
                        } else {
                            a[k].1
                        }),
                decreases l@.len() - i,
            {
                let v = match find_key(r, &l[i].0) {
                    Some(j) => {
                        proof {
                            assert(b[j as int] == (r@[j as int].0@, r@[j as int].1@));
                            assert(a[i as int] == (l@[i as int].0@, l@[i as int].1@));
                            lemma_value_of(b, l[i as int].0@, j as int);
                            assert(decreases_to!(*left => *l));
                            assert(decreases_to!(*l => l[i as int]));
                        }
                        merge_values(&l[i].1, &r[j].1, nd)
                    },
                    None => {
                        proof {
                            assert(a[i as int] == (l@[i as int].0@, l@[i as int].1@));
                        }
                        l[i].1.duplicate()
                    },
                };
                s.push((l[i].0.clone(), v));
                i += 1;
            }
            let ghost left_part = entry_models(s@);
            let ghost pred = |e: (Seq<char>, ValueModel)| !has_key(a, e.0);
            proof {
                assert(left@ == ValueModel::Object(a));
                assert(right@ == ValueModel::Object(b));
                assert forall|k: int| 0 <= k < a.len() implies #[trigger] left_part[k] == (
                    a[k].0,
                    if has_key(b, a[k].0) {
                        merge_spec(a[k].1, value_of(b, a[k].0), nd as int)
                    } else {
                        a[k].1
                    },
                ) by {
                    assert(left_part[k] == (s@[k].0@, s@[k].1@));
                }
                assert(left_part =~= Seq::new(
                    a.len(),
                    |k: int|
                        if 0 <= k < a.len() {
                            (
                                a[k].0,
                                if has_key(b, a[k].0) {
                                    merge_spec(a[k].1, value_of(b, a[k].0), nd as int)
                                } else {
                                    a[k].1
                                },
                            )
                        } else {
                            a[k]
                        },
                ));
                assert(b.subrange(0, 0) =~= Seq::empty());
                reveal(Seq::filter);
                assert(left_part =~= left_part + b.subrange(0, 0).filter(pred));
            }
            let mut j: usize = 0;
            while j < r.len()
                invariant
                    j <= r@.len(),
                    entry_models(s@) == left_part + b.subrange(0, j as int).filter(pred),
                decreases r@.len() - j,
            {
                let ghost old_s = s@;
                let found = find_key(l, &r[j].0);
                proof {
                    assert(b.subrange(0, j + 1).drop_last() =~= b.subrange(0, j as int));
                    assert(b.subrange(0, j + 1).last() == b[j as int]);
                    reveal(Seq::filter);
                    match found {
                        Some(k) => {
                            assert(a[k as int].0 == b[j as int].0);
                        },
                        None => {},
                    }
                }
                match found {
                    Some(_) => {},
                    None => {
                        s.push((r[j].0.clone(), r[j].1.duplicate()));
                        proof {
                            assert(entry_models(s@) =~= entry_models(old_s).push(b[j as int]));
                        }
                    },
                }
                j += 1;
            }
            proof {
                assert(b.subrange(0, r@.len() as int) =~= b);
                assert(entry_models(s@) =~= match merge_spec(left@, right@, depth as int) {
                    ValueModel::Object(m) => m,
                    _ => Seq::empty(),
                });
            }
            Value::Object(s)
        },
        _ => right.duplicate(),
    }
}


/// The class of a value for table reordering; see `table_class`.
fn class_of(v: &Value) -> (r: u8)
    ensures
        r as int == table_class(v@),
{
    match v {
        Value::Array(_) => 1,
        Value::Object(_) => 2,
        _ => 0,
    }
}

/// Reorders an object's fields for a table format; see `reorder_spec`.
#[verifier::loop_isolation(false)]
pub fn fix_toml(value: &Value) -> (r: Value)
    ensures
        r@ == reorder_spec(value@),
        well_formed(value@) ==> well_formed(r@),
    decreases value,
{
    proof {
        if well_formed(value@) {
            lemma_reorder_well_formed(value@);
        }
    }
    match value {
        Value::Object(o) => {
            let ghost m = entry_models(o@);
            let mut scalars: Vec<(String, Value)> = Vec::new();
            let mut arrays: Vec<(String, Value)> = Vec::new();
            let mut objects: Vec<(String, Value)> = Vec::new();
            let mut i: usize = 0;
            while i < o.len()
                invariant
                    i <= o@.len(),
                    entry_models(scalars@) == reorder_class(m.subrange(0, i as int), 0),
                    entry_models(arrays@) == reorder_class(m.subrange(0, i as int), 1),
                    entry_models(objects@) == reorder_class(m.subrange(0, i as int), 2),
                decreases o@.len() - i,
            {
                let ghost (s0, a0, b0) = (scalars@, arrays@, objects@);
                proof {
                    assert(decreases_to!(*value => *o));
                    assert(decreases_to!(*o => o[i as int]));
                    assert(m.subrange(0, i + 1).drop_last() =~= m.subrange(0, i as int));
                    assert(m.subrange(0, i + 1).last() == m[i as int]);
                    assert(m[i as int] == (o@[i as int].0@, o@[i as int].1@));
                }
                let class = class_of(&o[i].1);
                let entry = (o[i].0.clone(), fix_toml(&o[i].1));
                if class == 0 {
                    scalars.push(entry);
                    proof {
                        assert(entry_models(scalars@) =~= entry_models(s0).push(
                            (m[i as int].0, reorder_spec(m[i as int].1)),
                        ));
                    }
                } else if class == 1 {
                    arrays.push(entry);
                    proof {
                        assert(entry_models(arrays@) =~= entry_models(a0).push(
                            (m[i as int].0, reorder_spec(m[i as int].1)),
                        ));
                    }
                } else {
                    objects.push(entry);
                    proof {
                        assert(entry_models(objects@) =~= entry_models(b0).push(
                            (m[i as int].0, reorder_spec(m[i as int].1)),
                        ));
                    }
                }
                i += 1;
            }
            let ghost (s0, a0, b0) = (scalars@, arrays@, objects@);
            scalars.append(&mut arrays);
            scalars.append(&mut objects);
            proof {
                assert(m.subrange(0, o@.len() as int) =~= m);
                assert(entry_models(scalars@) =~= entry_models(s0) + entry_models(a0) + entry_models(
                    b0,
                ));
            }
            Value::Object(scalars)
        },
        _ => value.duplicate(),
    }
}

} // verus!
