use vstd::prelude::*;

verus! {

broadcast use {vstd::std_specs::vec::group_vec_axioms, vstd::seq::group_seq_axioms};

/// The mathematical shape of a JSON value. Numbers keep the literal text
/// they were written with; object entries keep the order in which they were
/// given.
pub ghost enum ValueModel {
    Null,
    Bool(bool),
    Number(Seq<char>),
    String(Seq<char>),
    Array(Seq<ValueModel>),
    Object(Seq<(Seq<char>, ValueModel)>),
}

/// Represents a JSON value.
///
/// Variants cover all standard JSON types. A number carries the literal
/// text of its decimal form; an object carries its entries in order.
#[derive(Debug, PartialEq)]
pub enum JsonValue {
    Null,
    Bool(bool),
    Number(String),
    String(String),
    Array(Vec<JsonValue>),
    Object(Vec<(String, JsonValue)>),
}

/// The abstract content of a `JsonValue`.
pub open spec fn jv_view(v: JsonValue) -> ValueModel
    decreases v,
{
    match v {
        JsonValue::Null => ValueModel::Null,
        JsonValue::Bool(b) => ValueModel::Bool(b),
        JsonValue::Number(t) => ValueModel::Number(t@),
        JsonValue::String(s) => ValueModel::String(s@),
        JsonValue::Array(elems) => ValueModel::Array(jv_view_seq(elems@)),
        JsonValue::Object(entries) => ValueModel::Object(jv_view_entries(entries@)),
    }
}

/// The abstract contents of a sequence of JSON values.
pub open spec fn jv_view_seq(elems: Seq<JsonValue>) -> Seq<ValueModel>
    decreases elems,
{
    if elems.len() == 0 {
        Seq::empty()
    } else {
        seq![jv_view(elems[0])] + jv_view_seq(elems.drop_first())
    }
}

/// The abstract contents of a sequence of object entries.
pub open spec fn jv_view_entries(entries: Seq<(String, JsonValue)>) -> Seq<
    (Seq<char>, ValueModel),
>
    decreases entries,
{
    if entries.len() == 0 {
        Seq::empty()
    } else {
        seq![(entries[0].0@, jv_view(entries[0].1))] + jv_view_entries(entries.drop_first())
    }
}

impl View for JsonValue {
    type V = ValueModel;

    open spec fn view(&self) -> ValueModel {
        jv_view(*self)
    }
}

pub proof fn lemma_jv_view_seq_push(elems: Seq<JsonValue>, x: JsonValue)
    ensures
        jv_view_seq(elems.push(x)) == jv_view_seq(elems) + seq![jv_view(x)],
    decreases elems.len(),
{
    reveal_with_fuel(jv_view_seq, 3);
    let t = elems.push(x);
    if elems.len() == 0 {
        assert(t[0] == x);
        assert(t.drop_first() =~= Seq::<JsonValue>::empty());
        assert(jv_view_seq(t) =~= jv_view_seq(elems) + seq![jv_view(x)]);
    } else {
        assert(t[0] == elems[0]);
        assert(t.drop_first() =~= elems.drop_first().push(x));
        lemma_jv_view_seq_push(elems.drop_first(), x);
        assert(jv_view_seq(t) =~= jv_view_seq(elems) + seq![jv_view(x)]);
    }
}

pub proof fn lemma_jv_view_entries_push(entries: Seq<(String, JsonValue)>, x: (String, JsonValue))
    ensures
        jv_view_entries(entries.push(x)) == jv_view_entries(entries) + seq![
            (x.0@, jv_view(x.1)),
        ],
    decreases entries.len(),
{
    reveal_with_fuel(jv_view_entries, 3);
    let t = entries.push(x);
    if entries.len() == 0 {
        assert(t[0] == x);
        assert(t.drop_first() =~= Seq::<(String, JsonValue)>::empty());
        assert(jv_view_entries(t) =~= jv_view_entries(entries) + seq![(x.0@, jv_view(x.1))]);
    } else {
        assert(t[0] == entries[0]);
        assert(t.drop_first() =~= entries.drop_first().push(x));
        lemma_jv_view_entries_push(entries.drop_first(), x);
        assert(jv_view_entries(t) =~= jv_view_entries(entries) + seq![(x.0@, jv_view(x.1))]);
    }
}

pub proof fn lemma_jv_view_seq(elems: Seq<JsonValue>)
    ensures
        jv_view_seq(elems).len() == elems.len(),
        forall|i: int| 0 <= i < elems.len() ==> jv_view_seq(elems)[i] == jv_view(elems[i]),
    decreases elems.len(),
{
    if elems.len() > 0 {
        lemma_jv_view_seq(elems.drop_first());
    }
}

pub proof fn lemma_jv_view_entries(entries: Seq<(String, JsonValue)>)
    ensures
        jv_view_entries(entries).len() == entries.len(),
        forall|i: int|
            0 <= i < entries.len() ==> jv_view_entries(entries)[i] == (
                entries[i].0@,
                jv_view(entries[i].1),
            ),
    decreases entries.len(),
{
    if entries.len() > 0 {
        lemma_jv_view_entries(entries.drop_first());
    }
}

pub proof fn lemma_jv_view_seq_pointwise(a: Seq<JsonValue>, b: Seq<JsonValue>)
    requires
        a.len() == b.len(),
        forall|q: int| 0 <= q < a.len() ==> jv_view(a[q]) == jv_view(b[q]),
    ensures
        jv_view_seq(a) == jv_view_seq(b),
{
    lemma_jv_view_seq(a);
    lemma_jv_view_seq(b);
    assert(jv_view_seq(a) =~= jv_view_seq(b));
}

pub proof fn lemma_jv_view_entries_pointwise(
    a: Seq<(String, JsonValue)>,
    b: Seq<(String, JsonValue)>,
)
    requires
        a.len() == b.len(),
        forall|q: int| 0 <= q < a.len() ==> a[q].0@ == b[q].0@,
        forall|q: int| 0 <= q < a.len() ==> jv_view(a[q].1) == jv_view(b[q].1),
    ensures
        jv_view_entries(a) == jv_view_entries(b),
{
    lemma_jv_view_entries(a);
    lemma_jv_view_entries(b);
    assert(jv_view_entries(a) =~= jv_view_entries(b));
}

/// A deep copy of `v` with the same abstract content.
fn clone_value(v: &JsonValue) -> (res: JsonValue)
    ensures
        jv_view(res) == jv_view(*v),
    decreases v,
{
    match v {
        JsonValue::Null => JsonValue::Null,
        JsonValue::Bool(b) => JsonValue::Bool(*b),
        JsonValue::Number(t) => JsonValue::Number(t.clone()),
        JsonValue::String(s) => JsonValue::String(s.clone()),
        JsonValue::Array(elems) => {
            let mut out: Vec<JsonValue> = Vec::new();
            let mut idx: usize = 0;
            while idx < elems.len()
                invariant
                    *v == JsonValue::Array(*elems),
                    idx <= elems@.len(),
                    out@.len() == idx,
                    forall|q: int| 0 <= q < idx ==> jv_view(out@[q]) == jv_view(elems@[q]),
                decreases elems@.len() - idx,
            {
                proof {
                    assert(*v == JsonValue::Array(*elems));
                    assert(decreases_to!(*v => (*v)->Array_0));
                    assert(decreases_to!(*v => *elems));
                    assert(decreases_to!(*elems => elems@[idx as int]));
                    assert(decreases_to!(*v => elems@[idx as int]));
                }
                out.push(clone_value(&elems[idx]));
                idx = idx + 1;
            }
            proof {
                lemma_jv_view_seq_pointwise(out@, elems@);
            }
            JsonValue::Array(out)
        },
        JsonValue::Object(entries) => {
            let mut out: Vec<(String, JsonValue)> = Vec::new();
            let mut idx: usize = 0;
            while idx < entries.len()
                invariant
                    *v == JsonValue::Object(*entries),
                    idx <= entries@.len(),
                    out@.len() == idx,
                    forall|q: int| 0 <= q < idx ==> out@[q].0@ == entries@[q].0@,
                    forall|q: int|
                        0 <= q < idx ==> jv_view(out@[q].1) == jv_view(entries@[q].1),
                decreases entries@.len() - idx,
            {
                proof {
                    assert(*v == JsonValue::Object(*entries));
                    assert(decreases_to!(*v => (*v)->Object_0));
                    assert(decreases_to!(*v => *entries));
                    assert(decreases_to!(*entries => entries@[idx as int]));
                    assert(decreases_to!(entries@[idx as int] => entries@[idx as int].1));
                    assert(decreases_to!(*v => entries@[idx as int].1));
                }
                let key = entries[idx].0.clone();
                let val = clone_value(&entries[idx].1);
                out.push((key, val));
                idx = idx + 1;
            }
            proof {
                lemma_jv_view_entries_pointwise(out@, entries@);
            }
            JsonValue::Object(out)
        },
    }
}

impl Clone for JsonValue {
    /// A deep copy with the same abstract content.
    fn clone(&self) -> (res: Self)
        ensures
            res@ == self@,
    {
        clone_value(self)
    }
}

} // verus!
