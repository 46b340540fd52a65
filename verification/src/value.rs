//! Dynamically-typed document nodes. Interface, manifest and error-list
//! documents, as well as broker call payloads, are handed to the library as
//! trees of `JsonValue`; the mathematical model of such a tree is `ValueSpec`.

use vstd::prelude::*;

verus! {

broadcast use vstd::std_specs::vec::group_vec_axioms, vstd::seq::group_seq_axioms;

/// Mathematical model of one document node.
pub enum ValueSpec {
    Null,
    Bool(bool),
    Int(int),
    Num(Seq<char>),
    Str(Seq<char>),
    Arr(Seq<ValueSpec>),
    Obj(Seq<(Seq<char>, ValueSpec)>),
}

/// One node of a structured text document (conventionally JSON): the
/// command-agnostic representation in which documents and broker payloads
/// reach the library. Object entries keep document order. A non-integer
/// number is carried opaquely as its literal text (`Num`): the embedding
/// process converts it losslessly, and no floating-point value enters the
/// library.
#[derive(Debug)]
pub enum JsonValue {
    Null,
    Bool(bool),
    Int(i64),
    Num(String),
    Str(String),
    Arr(Vec<JsonValue>),
    Obj(Vec<(String, JsonValue)>),
}

/// The model of a document node.
pub open spec fn value_view(v: JsonValue) -> ValueSpec
    decreases v,
{
    match v {
        JsonValue::Null => ValueSpec::Null,
        JsonValue::Bool(b) => ValueSpec::Bool(b),
        JsonValue::Int(i) => ValueSpec::Int(i as int),
        JsonValue::Num(s) => ValueSpec::Num(s@),
        JsonValue::Str(s) => ValueSpec::Str(s@),
        JsonValue::Arr(a) => ValueSpec::Arr(values_view(a@)),
        JsonValue::Obj(o) => ValueSpec::Obj(entries_view(o@)),
    }
}

/// The models of the elements of an array node.
pub open spec fn values_view(a: Seq<JsonValue>) -> Seq<ValueSpec>
    decreases a,
{
    if a.len() == 0 {
        Seq::empty()
    } else {
        values_view(a.drop_last()).push(value_view(a.last()))
    }
}

impl View for JsonValue {
    type V = ValueSpec;

    open spec fn view(&self) -> ValueSpec {
        value_view(*self)
    }
}

/// The model of the entry list of an object node.
pub open spec fn entries_view(o: Seq<(String, JsonValue)>) -> Seq<(Seq<char>, ValueSpec)>
    decreases o,
{
    if o.len() == 0 {
        Seq::empty()
    } else {
        entries_view(o.drop_last()).push((o.last().0@, value_view(o.last().1)))
    }
}

/// Element-wise reading of `values_view`.
pub broadcast proof fn lemma_values_view(a: Seq<JsonValue>)
    ensures
        (#[trigger] values_view(a)).len() == a.len(),
        forall|i: int| 0 <= i < a.len() ==> #[trigger] values_view(a)[i] == value_view(a[i]),
    decreases a,
{
    if a.len() > 0 {
        lemma_values_view(a.drop_last());
        assert forall|i: int| 0 <= i < a.len() implies #[trigger] values_view(a)[i] == value_view(
            a[i],
        ) by {
            if i < a.len() - 1 {
                assert(a.drop_last()[i] == a[i]);
                assert(values_view(a)[i] == values_view(a.drop_last())[i]);
            } else {
                assert(a.last() == a[i]);
            }
        }
    }
}

/// Element-wise reading of `entries_view`.
pub broadcast proof fn lemma_entries_view(o: Seq<(String, JsonValue)>)
    ensures
        (#[trigger] entries_view(o)).len() == o.len(),
        forall|i: int|
            0 <= i < o.len() ==> #[trigger] entries_view(o)[i] == (o[i].0@, value_view(o[i].1)),
    decreases o,
{
    if o.len() > 0 {
        lemma_entries_view(o.drop_last());
        assert forall|i: int|
            0 <= i < o.len() implies #[trigger] entries_view(o)[i] == (
            o[i].0@,
            value_view(o[i].1),
        ) by {
            if i < o.len() - 1 {
                assert(o.drop_last()[i] == o[i]);
                assert(entries_view(o)[i] == entries_view(o.drop_last())[i]);
            } else {
                assert(o.last() == o[i]);
            }
        }
    }
}

/// The value under `key`, at its first occurrence in the entry list.
pub open spec fn spec_lookup(fs: Seq<(Seq<char>, ValueSpec)>, key: Seq<char>) -> Option<ValueSpec>
    decreases fs.len(),
{
    if fs.len() == 0 {
        None
    } else if fs[0].0 == key {
        Some(fs[0].1)
    } else {
        spec_lookup(fs.drop_first(), key)
    }
}

/// No two entries of the list share a key.
pub open spec fn unique_keys<T>(s: Seq<(Seq<char>, T)>) -> bool {
    forall|i: int, j: int| 0 <= i < j < s.len() ==> (#[trigger] s[i]).0 != (#[trigger] s[j]).0
}

/// The list holds `key` as a key of some entry.
pub open spec fn spec_has_key<T>(s: Seq<(Seq<char>, T)>, key: Seq<char>) -> bool {
    exists|i: int| 0 <= i < s.len() && (#[trigger] s[i]).0 == key
}

/// Every key of the entry list is one of `allowed`.
pub open spec fn spec_keys_among(fs: Seq<(Seq<char>, ValueSpec)>, allowed: Seq<Seq<char>>) -> bool {
    forall|i: int| 0 <= i < fs.len() ==> allowed.contains(#[trigger] fs[i].0)
}

/// Deep copy of a document node, preserving the model.
#[verifier::loop_isolation(false)]
pub fn clone_value(v: &JsonValue) -> (r: JsonValue)
    ensures
        r@ == v@,
    decreases *v,
{
    match v {
        JsonValue::Null => JsonValue::Null,
        JsonValue::Bool(b) => JsonValue::Bool(*b),
        JsonValue::Int(i) => JsonValue::Int(*i),
        JsonValue::Num(s) => JsonValue::Num(s.clone()),
        JsonValue::Str(s) => JsonValue::Str(s.clone()),
        JsonValue::Arr(a) => {
            let mut out: Vec<JsonValue> = Vec::new();
            let mut i: usize = 0;
            proof {
                lemma_values_view(a@);
            }
            while i < a.len()
                invariant
                    *v == JsonValue::Arr(*a),
                    0 <= i <= a.len(),
                    out@.len() == i,
                    forall|k: int| 0 <= k < i ==> value_view(#[trigger] out@[k]) == value_view(a@[k]),
                decreases a.len() - i,
            {
                proof {
                    vstd::std_specs::vec::axiom_vec_index_decreases(*a, i as int);
                }
                let c = clone_value(&a[i]);
                out.push(c);
                i += 1;
            }
            proof {
                lemma_values_view(a@);
                lemma_values_view(out@);
                assert(values_view(out@) =~= values_view(a@));
            }
            JsonValue::Arr(out)
        },
        JsonValue::Obj(o) => {
            let mut out: Vec<(String, JsonValue)> = Vec::new();
            let mut i: usize = 0;
            while i < o.len()
                invariant
                    *v == JsonValue::Obj(*o),
                    0 <= i <= o.len(),
                    out@.len() == i,
                    forall|k: int|
                        0 <= k < i ==> (#[trigger] out@[k]).0@ == o@[k].0@ && value_view(out@[k].1)
                            == value_view(o@[k].1),
                decreases o.len() - i,
            {
                proof {
                    vstd::std_specs::vec::axiom_vec_index_decreases(*o, i as int);
                }
                let c = clone_value(&o[i].1);
                let key = o[i].0.clone();
                out.push((key, c));
                i += 1;
            }
            proof {
                lemma_entries_view(o@);
                lemma_entries_view(out@);
                assert(entries_view(out@) =~= entries_view(o@));
            }
            JsonValue::Obj(out)
        },
    }
}

/// String comparison, stated over the views.
pub fn str_eq(a: &str, b: &str) -> (r: bool)
    ensures
        r == (a@ == b@),
{
    let sa: String = a.to_owned();
    let sb: String = b.to_owned();
    sa == sb
}

/// Looks a field up in an object's entry list: first occurrence wins.
pub fn get_field<'a>(fs: &'a Vec<(String, JsonValue)>, name: &str) -> (r: Option<&'a JsonValue>)
    ensures
        match r {
            Some(v) => spec_lookup(entries_view(fs@), name@) == Some(value_view(*v)),
            None => spec_lookup(entries_view(fs@), name@) is None,
        },
{
    let ghost all: Seq<(Seq<char>, ValueSpec)> = entries_view(fs@);
    proof {
        lemma_entries_view(fs@);
        assert(all.skip(0) =~= all);
    }
    let mut i: usize = 0;
    while i < fs.len()
        invariant
            0 <= i <= fs.len(),
            all == entries_view(fs@),
            all.len() == fs@.len(),
            forall|k: int| 0 <= k < fs@.len() ==> #[trigger] all[k] == (fs@[k].0@, value_view(fs@[k].1)),
            spec_lookup(all, name@) == spec_lookup(all.skip(i as int), name@),
        decreases fs.len() - i,
    {
        if str_eq(fs[i].0.as_str(), name) {
            proof {
                assert(all.skip(i as int)[0] == all[i as int]);
            }
            return Some(&fs[i].1);
        }
        proof {
            assert(all.skip(i as int).drop_first() =~= all.skip(i as int + 1));
        }
        i += 1;
    }
    proof {
        assert(all.skip(i as int) =~= Seq::<(Seq<char>, ValueSpec)>::empty());
    }
    None
}

/// Does the entry list hold `name` as a key?
pub fn has_key<T>(v: &Vec<(String, T)>, name: &str) -> (r: bool)
    ensures
        r == (exists|i: int| 0 <= i < v@.len() && #[trigger] v@[i].0@ == name@),
{
    let mut i: usize = 0;
    while i < v.len()
        invariant
            0 <= i <= v.len(),
            forall|j: int| 0 <= j < i ==> #[trigger] v@[j].0@ != name@,
        decreases v.len() - i,
    {
        if str_eq(v[i].0.as_str(), name) {
            return true;
        }
        i += 1;
    }
    false
}

/// Is `name` one of the strings of `allowed`?
pub fn name_among(name: &str, allowed: &Vec<&str>) -> (r: bool)
    ensures
        r == strs_view(allowed@).contains(name@),
{
    let mut i: usize = 0;
    while i < allowed.len()
        invariant
            0 <= i <= allowed.len(),
            forall|j: int| 0 <= j < i ==> #[trigger] strs_view(allowed@)[j] != name@,
        decreases allowed.len() - i,
    {
        if str_eq(allowed[i], name) {
            proof {
                assert(strs_view(allowed@)[i as int] == name@);
            }
            return true;
        }
        i += 1;
    }
    proof {
        assert forall|j: int| 0 <= j < strs_view(allowed@).len() implies #[trigger] strs_view(
            allowed@,
        )[j] != name@ by {}
    }
    false
}

/// The views of a list of strings.
pub open spec fn strs_view(a: Seq<&str>) -> Seq<Seq<char>> {
    Seq::new(a.len(), |i: int| a[i]@)
}

/// The first key of the entry list that is not one of `allowed`, so that a
/// rejection can name the offending field itself.
pub fn first_unknown_key<'a>(fs: &'a Vec<(String, JsonValue)>, allowed: &Vec<&str>) -> (r: Option<
    &'a String,
>)
    ensures
        match r {
            None => spec_keys_among(entries_view(fs@), strs_view(allowed@)),
            Some(k) => {
                &&& !spec_keys_among(entries_view(fs@), strs_view(allowed@))
                &&& spec_has_key(entries_view(fs@), k@)
                &&& !strs_view(allowed@).contains(k@)
            },
        },
{
    proof {
        lemma_entries_view(fs@);
    }
    let mut i: usize = 0;
    while i < fs.len()
        invariant
            0 <= i <= fs.len(),
            forall|k: int|
                0 <= k < i ==> strs_view(allowed@).contains(#[trigger] entries_view(fs@)[k].0),
        decreases fs.len() - i,
    {
        proof {
            lemma_entries_view(fs@);
        }
        if !name_among(fs[i].0.as_str(), allowed) {
            proof {
                assert(entries_view(fs@)[i as int].0 == fs@[i as int].0@);
                assert(!strs_view(allowed@).contains(entries_view(fs@)[i as int].0));
            }
            return Some(&fs[i].0);
        }
        proof {
            assert(entries_view(fs@)[i as int].0 == fs@[i as int].0@);
        }
        i += 1;
    }
    None
}

} // verus!
