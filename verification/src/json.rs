//! The library's model of a JSON value. Log lines are JSON most of the
//! time; `parse_json_text` turns a line into this model through
//! `serde_json`, and everything that inspects the model afterwards is
//! verified against it.

use vstd::prelude::*;

verus! {

broadcast use vstd::std_specs::vec::group_vec_axioms;

/// A JSON number: a non-negative integer, a negative integer, or any
/// other number kept as its decimal text (the library never computes
/// with those, it only carries them through).
#[derive(PartialEq, Eq, Debug)]
pub enum JsonNum {
    UInt(u64),
    NInt(i64),
    Other(String),
}

/// A JSON value. Object members keep the order in which `serde_json`
/// hands them out; keys of a parsed object are unique.
#[derive(PartialEq, Eq, Debug)]
pub enum JsonValue {
    Null,
    Bool(bool),
    Num(JsonNum),
    Str(String),
    Arr(Vec<JsonValue>),
    Obj(Vec<(String, JsonValue)>),
}

/// Mathematical model of a JSON number.
#[verifier::ext_equal]
pub ghost enum JsonNumV {
    UInt(u64),
    NInt(i64),
    Other(Seq<char>),
}

/// Mathematical model of a JSON value.
#[verifier::ext_equal]
pub ghost enum JsonValV {
    Null,
    Bool(bool),
    Num(JsonNumV),
    Str(Seq<char>),
    Arr(Seq<JsonValV>),
    Obj(Seq<(Seq<char>, JsonValV)>),
}

impl DeepView for JsonNum {
    type V = JsonNumV;

    open spec fn deep_view(&self) -> JsonNumV {
        match *self {
            JsonNum::UInt(u) => JsonNumV::UInt(u),
            JsonNum::NInt(i) => JsonNumV::NInt(i),
            JsonNum::Other(ref s) => JsonNumV::Other(s@),
        }
    }
}

pub open spec fn json_view(v: JsonValue) -> JsonValV
    decreases v,
{
    match v {
        JsonValue::Null => JsonValV::Null,
        JsonValue::Bool(b) => JsonValV::Bool(b),
        JsonValue::Num(n) => JsonValV::Num(n.deep_view()),
        JsonValue::Str(s) => JsonValV::Str(s@),
        JsonValue::Arr(xs) => JsonValV::Arr(
            Seq::new(
                xs@.len(),
                |i: int|
                    if 0 <= i < xs@.len() {
                        json_view(xs@[i])
                    } else {
                        JsonValV::Null
                    },
            ),
        ),
        JsonValue::Obj(fs) => JsonValV::Obj(
            Seq::new(
                fs@.len(),
                |i: int|
                    if 0 <= i < fs@.len() {
                        (fs@[i].0@, json_view(fs@[i].1))
                    } else {
                        (Seq::empty(), JsonValV::Null)
                    },
            ),
        ),
    }
}

impl DeepView for JsonValue {
    type V = JsonValV;

    open spec fn deep_view(&self) -> JsonValV {
        json_view(*self)
    }
}

/// First member of `fields` named `key`, if any. Objects built by
/// `parse_json_text` have unique keys, so "first" is "the" member.
pub open spec fn spec_lookup(fields: Seq<(Seq<char>, JsonValV)>, key: Seq<char>) -> Option<
    JsonValV,
>
    decreases fields.len(),
{
    if fields.len() == 0 {
        None
    } else if fields[0].0 == key {
        Some(fields[0].1)
    } else {
        spec_lookup(fields.drop_first(), key)
    }
}

/// The lookup finds the member at `k` when no earlier member has the
/// same name.
pub proof fn lemma_lookup_at(fields: Seq<(Seq<char>, JsonValV)>, key: Seq<char>, k: int)
    requires
        0 <= k < fields.len(),
        fields[k].0 == key,
        forall|j: int| 0 <= j < k ==> fields[j].0 != key,
    ensures
        spec_lookup(fields, key) == Some(fields[k].1),
    decreases k,
{
    if k > 0 {
        lemma_lookup_at(fields.drop_first(), key, k - 1);
    }
}

/// Finds the member of `fields` named `key`.
pub fn lookup<'a>(fields: &'a Vec<(String, JsonValue)>, key: &String) -> (r: Option<
    &'a JsonValue,
>)
    ensures
        match r {
            Some(v) => spec_lookup(fields.deep_view(), key@) == Some(v.deep_view()),
            None => spec_lookup(fields.deep_view(), key@) is None,
        },
{
    let ghost m = fields.deep_view();
    let n = fields.len();
    let mut i: usize = 0;
    proof {
        assert(m.subrange(0, m.len() as int) =~= m);
    }
    while i < n
        invariant
            0 <= i <= n,
            n == fields.len(),
            m == fields.deep_view(),
            spec_lookup(m, key@) == spec_lookup(m.subrange(i as int, m.len() as int), key@),
        decreases n - i,
    {
        proof {
            let rest = m.subrange(i as int, m.len() as int);
            assert(rest[0] == m[i as int]);
            assert(rest.drop_first() =~= m.subrange(i + 1, m.len() as int));
        }
        if fields[i].0 == *key {
            return Some(&fields[i].1);
        }
        i = i + 1;
    }
    proof {
        assert(m.subrange(n as int, m.len() as int).len() == 0);
    }
    None
}

impl JsonNum {
    /// A copy of this number with the same model.
    pub fn duplicate(&self) -> (r: JsonNum)
        ensures
            r.deep_view() == self.deep_view(),
    {
        match *self {
            JsonNum::UInt(u) => JsonNum::UInt(u),
            JsonNum::NInt(i) => JsonNum::NInt(i),
            JsonNum::Other(ref s) => JsonNum::Other(s.clone()),
        }
    }
}

/// A copy of `v` with the same model.
pub fn clone_json(v: &JsonValue) -> (r: JsonValue)
    ensures
        r.deep_view() == v.deep_view(),
    decreases *v,
{
    match v {
        JsonValue::Null => JsonValue::Null,
        JsonValue::Bool(b) => JsonValue::Bool(*b),
        JsonValue::Num(n) => JsonValue::Num(n.duplicate()),
        JsonValue::Str(s) => JsonValue::Str(s.clone()),
        JsonValue::Arr(xs) => {
            let mut out: Vec<JsonValue> = Vec::new();
            let n = xs.len();
            let mut i: usize = 0;
            #[verifier::loop_isolation(false)]
            while i < n
                invariant
                    0 <= i <= n,
                    n == xs.len(),
                    out.deep_view() =~= xs.deep_view().subrange(0, i as int),
                decreases n - i,
            {
                proof {
                    assert(decreases_to!(*v => (*v)->Arr_0));
                }
                out.push(clone_json(&xs[i]));
                i = i + 1;
                proof {
                    assert(out.deep_view() =~= xs.deep_view().subrange(0, i as int));
                }
            }
            proof {
                assert(out.deep_view() =~= xs.deep_view());
                assert(*v == JsonValue::Arr(*xs));
                let a = JsonValue::Arr(out).deep_view();
                let b = v.deep_view();
                assert(a is Arr && b is Arr);
                assert forall|j: int| 0 <= j < out@.len() implies a->Arr_0[j] == b->Arr_0[j] by {
                    assert(a->Arr_0[j] == json_view(out@[j]));
                    assert(b->Arr_0[j] == json_view(xs@[j]));
                    assert(out.deep_view()[j] == xs.deep_view()[j]);
                }
                assert(a->Arr_0 =~= b->Arr_0);
                assert(a =~= b);
            }
            JsonValue::Arr(out)
        },
        JsonValue::Obj(fs) => {
            let mut out: Vec<(String, JsonValue)> = Vec::new();
            let n = fs.len();
            let mut i: usize = 0;
            #[verifier::loop_isolation(false)]
            while i < n
                invariant
                    0 <= i <= n,
                    n == fs.len(),
                    out.deep_view() =~= fs.deep_view().subrange(0, i as int),
                decreases n - i,
            {
                proof {
                    assert(decreases_to!(*v => (*v)->Obj_0));
                }
                out.push((fs[i].0.clone(), clone_json(&fs[i].1)));
                i = i + 1;
                proof {
                    assert(out.deep_view() =~= fs.deep_view().subrange(0, i as int));
                }
            }
            proof {
                assert(out.deep_view() =~= fs.deep_view());
                assert(*v == JsonValue::Obj(*fs));
                let a = JsonValue::Obj(out).deep_view();
                let b = v.deep_view();
                assert(a is Obj && b is Obj);
                assert forall|j: int| 0 <= j < out@.len() implies a->Obj_0[j] == b->Obj_0[j] by {
                    assert(a->Obj_0[j] == (out@[j].0@, json_view(out@[j].1)));
                    assert(b->Obj_0[j] == (fs@[j].0@, json_view(fs@[j].1)));
                    assert(out.deep_view()[j] == fs.deep_view()[j]);
                }
                assert(a->Obj_0 =~= b->Obj_0);
                assert(a =~= b);
            }
            JsonValue::Obj(out)
        },
    }
}

/// A copy of an object's members with the same model.
pub fn clone_members(fs: &Vec<(String, JsonValue)>) -> (r: Vec<(String, JsonValue)>)
    ensures
        r.deep_view() == fs.deep_view(),
{
    let mut out: Vec<(String, JsonValue)> = Vec::new();
    let n = fs.len();
    let mut i: usize = 0;
    #[verifier::loop_isolation(false)]
    while i < n
        invariant
            0 <= i <= n,
            n == fs.len(),
            out.deep_view() =~= fs.deep_view().subrange(0, i as int),
        decreases n - i,
    {
        out.push((fs[i].0.clone(), clone_json(&fs[i].1)));
        i = i + 1;
        proof {
            assert(out.deep_view() =~= fs.deep_view().subrange(0, i as int));
        }
    }
    proof {
        assert(out.deep_view() =~= fs.deep_view());
    }
    out
}

/// The model of an object value is the members' models, in order.
pub proof fn lemma_obj_deep_view(fs: Vec<(String, JsonValue)>)
    ensures
        JsonValue::Obj(fs).deep_view() == JsonValV::Obj(fs.deep_view()),
{
    let a = JsonValue::Obj(fs).deep_view();
    assert forall|j: int| 0 <= j < fs@.len() implies a->Obj_0[j] == fs.deep_view()[j] by {
        assert(a->Obj_0[j] == (fs@[j].0@, json_view(fs@[j].1)));
    }
    assert(a->Obj_0 =~= fs.deep_view());
    assert(a =~= JsonValV::Obj(fs.deep_view()));
}

#[verifier::external_type_specification]
#[verifier::external_body]
pub struct ExValue(serde_json::Value);

#[verifier::external_type_specification]
#[verifier::external_body]
pub struct ExNumber(serde_json::Number);

/// Relies on serde_json::Number::as_u64, as_i64 and ToString: a JSON
/// number is a non-negative integer, a negative integer, or kept as its
/// decimal text. Each arm only moves the extracted value into the model.
#[verifier::external_body]
fn num_model(n: serde_json::Number) -> JsonNum {
    if let Some(u) = n.as_u64() {
        JsonNum::UInt(u)
    } else if let Some(i) = n.as_i64() {
        JsonNum::NInt(i)
    } else {
        JsonNum::Other(n.to_string())
    }
}

/// Relies on serde_json::Value's public variants: each arm moves one
/// variant's contents into the library's model, converting nested
/// values the same way.
#[verifier::external_body]
fn value_model(v: serde_json::Value) -> JsonValue {
    match v {
        serde_json::Value::Null => JsonValue::Null,
        serde_json::Value::Bool(b) => JsonValue::Bool(b),
        serde_json::Value::Number(n) => JsonValue::Num(num_model(n)),
        serde_json::Value::String(s) => JsonValue::Str(s),
        serde_json::Value::Array(xs) => JsonValue::Arr(xs.into_iter().map(value_model).collect()),
        serde_json::Value::Object(m) => JsonValue::Obj(
            m.into_iter().map(|(k, x)| (k, value_model(x))).collect(),
        ),
    }
}

/// The JSON value denoted by a piece of text, if it is JSON at all,
/// as serde_json reads it. It depends on the characters alone.
pub uninterp spec fn json_of(s: Seq<char>) -> Option<JsonValV>;

/// Relies on serde_json::from_str::<serde_json::Value>: it accepts a
/// text exactly when the text is one JSON value, and which value that
/// is depends on the text alone.
#[verifier::external_body]
pub(crate) fn parse_json_text(v: &Vec<char>) -> (r: Option<JsonValue>)
    ensures
        match r {
            Some(val) => json_of(v@) == Some(val.deep_view()),
            None => json_of(v@) is None,
        },
{
    let s: String = v.iter().collect();
    match serde_json::from_str::<serde_json::Value>(&s) {
        Ok(val) => Some(value_model(val)),
        Err(_) => None,
    }
}

} // verus!
