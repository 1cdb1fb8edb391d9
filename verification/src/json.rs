//! JSON values as the service stores them: job elements, options and results.

use vstd::prelude::*;
use serde_json::Value;

verus! {

/// A JSON value. Numbers keep the three forms of `serde_json`: non-negative integers,
/// negative integers and floats (held as their text).
#[derive(Debug, PartialEq)]
pub enum Json {
    Null,
    Bool(bool),
    UInt(u64),
    NegInt(i64),
    Float(String),
    Str(String),
    Array(Vec<Json>),
    Object(Vec<(String, Json)>),
}

pub enum JsonView {
    Null,
    Bool(bool),
    UInt(u64),
    NegInt(i64),
    Float(Seq<char>),
    Str(Seq<char>),
    Array(Seq<JsonView>),
    Object(Seq<(Seq<char>, JsonView)>),
}

/// The view of a JSON value: the same value over sequences.
pub open spec fn json_view(j: Json) -> JsonView
    decreases j,
{
    match j {
            Json::Null => JsonView::Null,
            Json::Bool(b) => JsonView::Bool(b),
            Json::UInt(n) => JsonView::UInt(n),
            Json::NegInt(n) => JsonView::NegInt(n),
            Json::Float(t) => JsonView::Float(t@),
            Json::Str(s) => JsonView::Str(s@),
            Json::Array(v) => JsonView::Array(
                Seq::new(
                    v@.len(),
                    |i: int|
                        if 0 <= i < v@.len() {
                            proof {
                                assert(decreases_to!(v => v@));
                                assert(decreases_to!(v@ => v@[i]));
                            }
                            json_view(v@[i])
                        } else {
                            JsonView::Null
                        },
                ),
            ),
            Json::Object(m) => JsonView::Object(
                Seq::new(
                    m@.len(),
                    |i: int|
                        if 0 <= i < m@.len() {
                            proof {
                                assert(decreases_to!(m => m@));
                                assert(decreases_to!(m@ => m@[i]));
                                assert(decreases_to!(m@[i] => m@[i].1));
                            }
                            (m@[i].0@, json_view(m@[i].1))
                        } else {
                            (seq![], JsonView::Null)
                        },
                ),
            ),
        }
    }

impl View for Json {
    type V = JsonView;

    open spec fn view(&self) -> JsonView {
        json_view(*self)
    }
}

pub open spec fn jsons_view(v: Seq<Json>) -> Seq<JsonView> {
    v.map_values(|j: Json| j@)
}

/// The index of the first entry of `m` under `key`.
pub open spec fn lookup_index(m: Seq<(Seq<char>, JsonView)>, key: Seq<char>) -> Option<int>
    decreases m.len(),
{
    if m.len() == 0 {
        None
    } else {
        match lookup_index(m.drop_last(), key) {
            Some(i) => Some(i),
            None => if m.last().0 == key {
                Some(m.len() - 1)
            } else {
                None
            },
        }
    }
}

pub proof fn lemma_lookup_index_range(m: Seq<(Seq<char>, JsonView)>, key: Seq<char>)
    ensures
        lookup_index(m, key) matches Some(i) ==> 0 <= i < m.len() && m[i].0 == key,
    decreases m.len(),
{
    if m.len() > 0 {
        lemma_lookup_index_range(m.drop_last(), key);
    }
}

/// `Value::get` with a string key: the member of an object, if there is one.
pub open spec fn jv_get(j: JsonView, key: Seq<char>) -> Option<JsonView> {
    match j {
        JsonView::Object(m) => match lookup_index(m, key) {
            Some(i) => Some(m[i].1),
            None => None,
        },
        _ => None,
    }
}

pub open spec fn jv_opt_get(j: Option<JsonView>, key: Seq<char>) -> Option<JsonView> {
    match j {
        Some(v) => jv_get(v, key),
        None => None,
    }
}

/// `Value::as_str`.
pub open spec fn jv_str(j: Option<JsonView>) -> Option<Seq<char>> {
    match j {
        Some(JsonView::Str(s)) => Some(s),
        _ => None,
    }
}

/// `Value::as_bool`.
pub open spec fn jv_bool(j: Option<JsonView>) -> Option<bool> {
    match j {
        Some(JsonView::Bool(b)) => Some(b),
        _ => None,
    }
}

/// `Value::as_u64`: only non-negative integers.
pub open spec fn jv_u64(j: Option<JsonView>) -> Option<u64> {
    match j {
        Some(JsonView::UInt(n)) => Some(n),
        _ => None,
    }
}

/// `Value::as_array`.
pub open spec fn jv_array(j: Option<JsonView>) -> Option<Seq<JsonView>> {
    match j {
        Some(JsonView::Array(xs)) => Some(xs),
        _ => None,
    }
}

/// `Value::as_object`.
pub open spec fn jv_object(j: Option<JsonView>) -> Option<Seq<(Seq<char>, JsonView)>> {
    match j {
        Some(JsonView::Object(m)) => Some(m),
        _ => None,
    }
}

pub open spec fn opt_json_view(r: Option<&Json>) -> Option<JsonView> {
    match r {
        Some(j) => Some(j@),
        None => None,
    }
}

impl Json {
    /// The member under `key` when this is an object that has one.
    pub fn get(&self, key: &str) -> (r: Option<&Json>)
        ensures
            opt_json_view(r) == jv_get(self@, key@),
    {
        match self {
            Json::Object(m) => {
                let ghost mv = Seq::new(
                    m@.len(),
                    |i: int| (m@[i].0@, m@[i].1@),
                );
                proof {
                    lemma_view_object(*m);
                    if let JsonView::Object(xs) = self@ {
                        assert(xs =~= mv);
                    }
                }
                let mut i: usize = 0;
                while i < m.len()
                    invariant
                        self@ == JsonView::Object(mv),
                        i <= m@.len(),
                        mv.len() == m@.len(),
                        forall|k: int| 0 <= k < m@.len() ==> #[trigger] mv[k] == (m@[k].0@, m@[k].1@),
                        lookup_index(mv.take(i as int), key@) is None,
                    decreases m@.len() - i,
                {
                    assert(mv.take(i + 1).drop_last() =~= mv.take(i as int));
                    if crate::text::str_eq(m[i].0.as_str(), key) {
                        proof {
                            lemma_lookup_prefix(mv, key@, i as int);
                        }
                        return Some(&m[i].1);
                    }
                    i = i + 1;
                }
                assert(mv.take(i as int) =~= mv);
                None
            },
            _ => None,
        }
    }

    /// The string, when this is one.
    pub fn as_str(&self) -> (r: Option<&str>)
        ensures
            match r {
                Some(s) => jv_str(Some(self@)) == Some(s@),
                None => jv_str(Some(self@)) is None,
            },
    {
        match self {
            Json::Str(s) => Some(s.as_str()),
            _ => None,
        }
    }

    /// The boolean, when this is one.
    pub fn as_bool(&self) -> (r: Option<bool>)
        ensures
            r == jv_bool(Some(self@)),
    {
        match self {
            Json::Bool(b) => Some(*b),
            _ => None,
        }
    }

    /// The number, when this is a non-negative integer.
    pub fn as_u64(&self) -> (r: Option<u64>)
        ensures
            r == jv_u64(Some(self@)),
    {
        match self {
            Json::UInt(n) => Some(*n),
            _ => None,
        }
    }

    /// The elements, when this is an array.
    pub fn as_array(&self) -> (r: Option<&Vec<Json>>)
        ensures
            match r {
                Some(v) => jv_array(Some(self@)) == Some(jsons_view(v@)),
                None => jv_array(Some(self@)) is None,
            },
    {
        match self {
            Json::Array(v) => {
                proof {
                    lemma_view_array(*v);
                }
                Some(v)
            },
            _ => None,
        }
    }

    /// A copy of this value.
    pub fn deep_clone(&self) -> (r: Json)
        ensures
            r@ == self@,
        decreases self,
    {
        match self {
            Json::Null => Json::Null,
            Json::Bool(b) => Json::Bool(*b),
            Json::UInt(n) => Json::UInt(*n),
            Json::NegInt(n) => Json::NegInt(*n),
            Json::Float(t) => Json::Float(t.clone()),
            Json::Str(s) => Json::Str(s.clone()),
            Json::Array(v) => {
                let mut out: Vec<Json> = Vec::new();
                let mut i: usize = 0;
                while i < v.len()
                    invariant
                        *self == Json::Array(*v),
                        i <= v@.len(),
                        out@.len() == i,
                        forall|k: int| 0 <= k < i ==> #[trigger] out@[k]@ == v@[k]@,
                    decreases v@.len() - i,
                {
                    proof {
                        assert(decreases_to!(*self => (*self)->Array_0));
                        assert(decreases_to!(*v => v@));
                        assert(decreases_to!(v@ => v@[i as int]));
                    }
                    let c = v[i].deep_clone();
                    out.push(c);
                    i = i + 1;
                }
                proof {
                    lemma_view_array(out);
                    lemma_view_array(*v);
                    assert(jsons_view(out@) =~= jsons_view(v@));
                }
                Json::Array(out)
            },
            Json::Object(m) => {
                let mut out: Vec<(String, Json)> = Vec::new();
                let mut i: usize = 0;
                while i < m.len()
                    invariant
                        *self == Json::Object(*m),
                        i <= m@.len(),
                        out@.len() == i,
                        forall|k: int| 0 <= k < i ==> #[trigger] out@[k].0@ == m@[k].0@ && out@[k].1@ == m@[k].1@,
                    decreases m@.len() - i,
                {
                    proof {
                        assert(decreases_to!(*self => (*self)->Object_0));
                        assert(decreases_to!(*m => m@));
                        assert(decreases_to!(m@ => m@[i as int]));
                        assert(decreases_to!(m@[i as int] => m@[i as int].1));
                    }
                    let c = m[i].1.deep_clone();
                    out.push((m[i].0.clone(), c));
                    i = i + 1;
                }
                proof {
                    lemma_view_object(out);
                    lemma_view_object(*m);
                    assert(Seq::new(out@.len(), |i: int| (out@[i].0@, out@[i].1@)) =~= Seq::new(
                        m@.len(),
                        |i: int| (m@[i].0@, m@[i].1@),
                    ));
                }
                Json::Object(out)
            },
        }
    }

    /// A string value.
    pub fn string(s: String) -> (r: Json)
        ensures
            r@ == JsonView::Str(s@),
    {
        Json::Str(s)
    }

    /// An object with one member.
    pub fn single(key: String, value: Json) -> (r: Json)
        ensures
            r@ == JsonView::Object(seq![(key@, value@)]),
    {
        let mut m: Vec<(String, Json)> = Vec::new();
        m.push((key, value));
        proof {
            lemma_view_object(m);
            assert(Seq::new(m@.len(), |i: int| (m@[i].0@, m@[i].1@)) =~= seq![(key@, value@)]);
        }
        Json::Object(m)
    }

    /// An array.
    pub fn array(v: Vec<Json>) -> (r: Json)
        ensures
            r@ == JsonView::Array(jsons_view(v@)),
    {
        proof {
            lemma_view_array(v);
        }
        Json::Array(v)
    }
}

/// The view of an array is the views of its elements.
pub proof fn lemma_view_array(v: Vec<Json>)
    ensures
        (Json::Array(v))@ == JsonView::Array(jsons_view(v@)),
{
    let j = Json::Array(v);
    if let JsonView::Array(xs) = j@ {
        assert(xs.len() == v@.len());
        assert forall|i: int| 0 <= i < xs.len() implies xs[i] == jsons_view(v@)[i] by {}
        assert(xs =~= jsons_view(v@));
    }
}

/// The view of an object is the views of its members.
pub proof fn lemma_view_object(m: Vec<(String, Json)>)
    ensures
        (Json::Object(m))@ == JsonView::Object(Seq::new(m@.len(), |i: int| (m@[i].0@, m@[i].1@))),
{
    let j = Json::Object(m);
    if let JsonView::Object(xs) = j@ {
        assert(xs.len() == m@.len());
        assert forall|i: int| 0 <= i < xs.len() implies xs[i] == (m@[i].0@, m@[i].1@) by {}
        assert(xs =~= Seq::new(m@.len(), |i: int| (m@[i].0@, m@[i].1@)));
    }
}

proof fn lemma_lookup_prefix(m: Seq<(Seq<char>, JsonView)>, key: Seq<char>, i: int)
    requires
        0 <= i < m.len(),
        lookup_index(m.take(i), key) is None,
        m[i].0 == key,
    ensures
        lookup_index(m, key) == Some(i),
    decreases m.len(),
{
    if i < m.len() - 1 {
        assert(m.drop_last().take(i) =~= m.take(i));
        lemma_lookup_prefix(m.drop_last(), key, i);
    } else {
        assert(m.drop_last() =~= m.take(i));
    }
}

} // verus!

verus! {

#[verifier::external_type_specification]
#[verifier::external_body]
pub struct ExValue(Value);

/// The compact JSON text of a value, as `serde_json::Value`'s `Display` writes it.
pub uninterp spec fn json_text(v: JsonView) -> Seq<char>;

/// The pretty-printed JSON text of a value, as `serde_json::to_string_pretty` writes it.
pub uninterp spec fn json_pretty(v: JsonView) -> Seq<char>;

/// The `serde_json::Value` with the same content: a float is read back from its text,
/// and an object's members go into a `serde_json::Map`.
///
/// Trusted: a conversion, one variant for one; nothing is claimed of it.
#[verifier::external_body]
pub(crate) fn serde_value(j: &Json) -> Value {
    match j {
        Json::Null => Value::Null,
        Json::Bool(b) => Value::Bool(*b),
        Json::UInt(n) => Value::from(*n),
        Json::NegInt(n) => Value::from(*n),
        Json::Float(t) => serde_json::from_str(t).unwrap_or_default(),
        Json::Str(s) => Value::String(s.clone()),
        Json::Array(a) => Value::Array(a.iter().map(serde_value).collect()),
        Json::Object(m) => Value::Object(m.iter().map(|(k, v)| (k.clone(), serde_value(v))).collect()),
    }
}

/// The `Json` with the same content as a `serde_json::Value`: a number is kept as a
/// non-negative integer, a negative integer or, otherwise, its text.
///
/// Trusted: a conversion, one variant for one; nothing is claimed of it.
#[verifier::external_body]
pub(crate) fn from_serde_value(v: &Value) -> Json {
    match v {
        Value::Null => Json::Null,
        Value::Bool(b) => Json::Bool(*b),
        Value::Number(n) => match (n.as_u64(), n.as_i64()) {
            (Some(u), _) => Json::UInt(u),
            (None, Some(i)) => Json::NegInt(i),
            (None, None) => Json::Float(n.to_string()),
        },
        Value::String(s) => Json::Str(s.clone()),
        Value::Array(a) => Json::Array(a.iter().map(from_serde_value).collect()),
        Value::Object(m) => Json::Object(m.iter().map(|(k, v)| (k.clone(), from_serde_value(v))).collect()),
    }
}

/// The compact JSON text of `j`.
///
/// Trusted: `serde_json::Value`'s `Display` (`to_string`) on the converted value; the
/// contract names the text.
#[verifier::external_body]
pub(crate) fn to_json_text(j: &Json) -> (r: String)
    ensures
        r@ == json_text(j@),
{
    serde_value(j).to_string()
}

/// The pretty-printed JSON text of `j`.
///
/// Trusted: `serde_json::to_string_pretty` on the converted value, which cannot fail for a
/// `Value` (its keys are strings); the contract names the text.
#[verifier::external_body]
pub(crate) fn to_json_pretty(j: &Json) -> (r: String)
    ensures
        r@ == json_pretty(j@),
{
    serde_json::to_string_pretty(&serde_value(j)).unwrap_or_default()
}

} // verus!

verus! {

/// What `serde_json::from_str::<serde_json::Value>` makes of a text: the value it reads,
/// or the text of its error.
pub uninterp spec fn json_read(text: Seq<char>) -> Result<JsonView, Seq<char>>;

/// Reads a JSON text.
///
/// Trusted: `serde_json::from_str::<serde_json::Value>`, its value converted to `Json` and
/// its error turned into its text; the contract names the outcome, which depends on the
/// text alone.
#[verifier::external_body]
pub(crate) fn read_json_text(text: &str) -> (r: Result<Json, String>)
    ensures
        match r {
            Ok(j) => json_read(text@) == Ok::<JsonView, Seq<char>>(j@),
            Err(m) => json_read(text@) == Err::<JsonView, Seq<char>>(m@),
        },
{
    match serde_json::from_str::<Value>(text) {
        Ok(v) => Ok(from_serde_value(&v)),
        Err(e) => Err(e.to_string()),
    }
}

} // verus!
