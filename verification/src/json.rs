//! A JSON tree held as plain values, its mathematical model, and the trusted
//! boundary to the JSON parser.

use vstd::prelude::*;
use vstd::string::*;

verus! {

broadcast use vstd::std_specs::vec::axiom_vec_index_decreases, vstd::std_specs::vec::axiom_vec_decreases_to_view;

/// The mathematical model of a JSON document.
pub enum Json {
    /// `null`.
    Null,
    /// `true` or `false`.
    Bool(bool),
    /// A number, kept as its decimal text.
    Num(Seq<char>),
    /// A string.
    Str(Seq<char>),
    /// An array.
    Arr(Seq<Json>),
    /// An object: fields in order, keys unique.
    Obj(Seq<(Seq<char>, Json)>),
}

/// A JSON document held as plain executable values.
#[derive(Debug)]
pub enum JsonValue {
    /// `null`.
    Null,
    /// `true` or `false`.
    Bool(bool),
    /// A number, kept as its decimal text.
    Num(String),
    /// A string.
    Str(String),
    /// An array.
    Arr(Vec<JsonValue>),
    /// An object: fields in order, keys unique.
    Obj(Vec<(String, JsonValue)>),
}

/// The models of a sequence of values.
pub open spec fn arr_views(a: Seq<JsonValue>) -> Seq<Json>
    decreases a,
{
    Seq::new(
        a.len(),
        |i: int|
            if 0 <= i < a.len() {
                a[i]@
            } else {
                Json::Null
            },
    )
}

/// The models of a sequence of fields.
pub open spec fn obj_views(o: Seq<(String, JsonValue)>) -> Seq<(Seq<char>, Json)>
    decreases o,
{
    Seq::new(
        o.len(),
        |i: int|
            if 0 <= i < o.len() {
                (o[i].0@, o[i].1@)
            } else {
                (Seq::empty(), Json::Null)
            },
    )
}

impl View for JsonValue {
    type V = Json;

    open spec fn view(&self) -> Json
        decreases self,
    {
        match self {
            JsonValue::Null => Json::Null,
            JsonValue::Bool(b) => Json::Bool(*b),
            JsonValue::Num(s) => Json::Num(s@),
            JsonValue::Str(s) => Json::Str(s@),
            JsonValue::Arr(a) => Json::Arr(arr_views(a@)),
            JsonValue::Obj(o) => Json::Obj(obj_views(o@)),
        }
    }
}

/// How `arr_views` relates to its input, element by element.
pub proof fn lemma_arr_views(a: Seq<JsonValue>)
    ensures
        arr_views(a).len() == a.len(),
        forall|i: int| 0 <= i < a.len() ==> #[trigger] arr_views(a)[i] == a[i]@,
{
}

/// How `obj_views` relates to its input, field by field.
pub proof fn lemma_obj_views(o: Seq<(String, JsonValue)>)
    ensures
        obj_views(o).len() == o.len(),
        forall|i: int| 0 <= i < o.len() ==> #[trigger] obj_views(o)[i] == (o[i].0@, o[i].1@),
{
}

/// Value of the first field named `key`, searching from position `i`.
pub open spec fn spec_obj_lookup_at(
    fields: Seq<(Seq<char>, Json)>,
    key: Seq<char>,
    i: int,
) -> Option<Json>
    decreases fields.len() - i,
{
    if i < 0 || i >= fields.len() {
        None
    } else if fields[i].0 == key {
        Some(fields[i].1)
    } else {
        spec_obj_lookup_at(fields, key, i + 1)
    }
}

/// Field lookup: the value under `key` when `j` is an object with such a
/// field, absent otherwise.
pub open spec fn spec_lookup(j: Json, key: Seq<char>) -> Option<Json> {
    match j {
        Json::Obj(fields) => spec_obj_lookup_at(fields, key, 0),
        _ => None,
    }
}

/// The string content of `j`, when `j` is a string.
pub open spec fn spec_as_str(j: Json) -> Option<Seq<char>> {
    match j {
        Json::Str(s) => Some(s),
        _ => None,
    }
}

impl JsonValue {
    /// Field lookup on an object; `None` on any other kind of value and on a
    /// missing field.
    pub fn get<'a>(&'a self, key: &str) -> (r: Option<&'a JsonValue>)
        ensures
            match r {
                Some(v) => spec_lookup(self@, key@) == Some(v@),
                None => spec_lookup(self@, key@) is None,
            },
    {
        match self {
            JsonValue::Obj(fields) => {
                proof {
                    lemma_obj_views(fields@);
                }
                let ghost fs = self@->Obj_0;
                let n = fields.len();
                let mut k: usize = 0;
                while k < n
                    invariant
                        n == fields.len(),
                        k <= n,
                        fs == obj_views(fields@),
                        self@ == Json::Obj(fs),
                        fs.len() == n,
                        forall|i: int|
                            0 <= i < n ==> #[trigger] fs[i] == (fields@[i].0@, fields@[i].1@),
                        spec_obj_lookup_at(fs, key@, 0) == spec_obj_lookup_at(fs, key@, k as int),
                    decreases n - k,
                {
                    if crate::text::str_eq(fields[k].0.as_str(), key) {
                        return Some(&fields[k].1);
                    }
                    k += 1;
                }
                None
            },
            _ => None,
        }
    }

    /// The borrowed string content, when this is a string value.
    pub fn as_str<'a>(&'a self) -> (r: Option<&'a String>)
        ensures
            match r {
                Some(s) => self@ == Json::Str(s@),
                None => !(self@ is Str),
            },
    {
        match self {
            JsonValue::Str(s) => Some(s),
            _ => None,
        }
    }

    /// The borrowed elements, when this is an array value.
    pub fn as_array<'a>(&'a self) -> (r: Option<&'a Vec<JsonValue>>)
        ensures
            match r {
                Some(a) => self@ is Arr && a@.len() == self@->Arr_0.len() && (forall|i: int|
                    0 <= i < a@.len() ==> #[trigger] a@[i]@ == self@->Arr_0[i]),
                None => !(self@ is Arr),
            },
    {
        match self {
            JsonValue::Arr(a) => {
                proof {
                    lemma_arr_views(a@);
                }
                Some(a)
            },
            _ => None,
        }
    }

    /// The borrowed fields, when this is an object value.
    pub fn as_object<'a>(&'a self) -> (r: Option<&'a Vec<(String, JsonValue)>>)
        ensures
            match r {
                Some(o) => self@ is Obj && o@.len() == self@->Obj_0.len() && (forall|i: int|
                    0 <= i < o@.len() ==> #[trigger] self@->Obj_0[i] == (o@[i].0@, o@[i].1@)),
                None => !(self@ is Obj),
            },
    {
        match self {
            JsonValue::Obj(o) => {
                proof {
                    lemma_obj_views(o@);
                }
                Some(o)
            },
            _ => None,
        }
    }
}

impl JsonValue {
    /// A copy of the whole tree, with the same model.
    pub fn deep_clone(&self) -> (r: JsonValue)
        ensures
            r@ == self@,
        decreases self,
    {
        match self {
            JsonValue::Null => JsonValue::Null,
            JsonValue::Bool(b) => JsonValue::Bool(*b),
            JsonValue::Num(s) => JsonValue::Num(s.clone()),
            JsonValue::Str(s) => JsonValue::Str(s.clone()),
            JsonValue::Arr(a) => {
                let mut out: Vec<JsonValue> = Vec::new();
                let n = a.len();
                let mut i: usize = 0;
                while i < n
                    invariant
                        n == a.len(),
                        i <= n,
                        *self == JsonValue::Arr(*a),
                        out@.len() == i,
                        forall|j: int| 0 <= j < i ==> #[trigger] out@[j]@ == a@[j]@,
                    decreases n - i,
                {
                    proof {
                        assert(*a == self->Arr_0);
                        assert(decreases_to!(*self => self->Arr_0));
                        assert(decreases_to!(*a => a[i as int]));
                    }
                    out.push(a[i].deep_clone());
                    i += 1;
                }
                let r = JsonValue::Arr(out);
                proof {
                    lemma_arr_views(out@);
                    lemma_arr_views(a@);
                    assert(arr_views(out@) =~= arr_views(a@));
                }
                r
            },
            JsonValue::Obj(o) => {
                let mut out: Vec<(String, JsonValue)> = Vec::new();
                let n = o.len();
                let mut i: usize = 0;
                while i < n
                    invariant
                        n == o.len(),
                        i <= n,
                        *self == JsonValue::Obj(*o),
                        out@.len() == i,
                        forall|j: int|
                            0 <= j < i ==> #[trigger] out@[j].0@ == o@[j].0@ && out@[j].1@
                                == o@[j].1@,
                    decreases n - i,
                {
                    proof {
                        assert(*o == self->Obj_0);
                        assert(decreases_to!(*self => self->Obj_0));
                        assert(decreases_to!(*o => o[i as int]));
                        assert(decreases_to!(o[i as int] => o[i as int].1));
                    }
                    out.push((o[i].0.clone(), o[i].1.deep_clone()));
                    i += 1;
                }
                let r = JsonValue::Obj(out);
                proof {
                    lemma_obj_views(out@);
                    lemma_obj_views(o@);
                    assert(obj_views(out@) =~= obj_views(o@));
                }
                r
            },
        }
    }
}

#[verifier::external_type_specification]
#[verifier::external_body]
pub struct ExValue(serde_json::Value);

/// What the JSON parser returns on a given text: `None` where the text is not
/// valid JSON, else the model of the parsed tree.
pub uninterp spec fn parsed_json(s: Seq<char>) -> Option<Json>;

/// Moves serde_json's tree into the library's own tree, one arm per variant;
/// numbers keep their decimal text.  Called only by `json_from_text`.
#[verifier::external_body]
fn decode_value(v: serde_json::Value) -> JsonValue {
    match v {
        serde_json::Value::Null => JsonValue::Null,
        serde_json::Value::Bool(b) => JsonValue::Bool(b),
        serde_json::Value::Number(n) => JsonValue::Num(n.to_string()),
        serde_json::Value::String(s) => JsonValue::Str(s),
        serde_json::Value::Array(a) => JsonValue::Arr(a.into_iter().map(decode_value).collect()),
        serde_json::Value::Object(o) => JsonValue::Obj(
            o.into_iter().map(|(k, v)| (k, decode_value(v))).collect(),
        ),
    }
}

/// Relies on serde_json::from_str: the parse depends on the text alone, and
/// `None` comes exactly where the parser refuses the text (invalid JSON, or
/// nesting beyond the parser's depth limit).
#[verifier::external_body]
pub fn json_from_text(s: &str) -> (r: Option<JsonValue>)
    ensures
        match r {
            Some(v) => parsed_json(s@) == Some(v@),
            None => parsed_json(s@) is None,
        },
{
    match serde_json::from_str::<serde_json::Value>(s) {
        Ok(v) => Some(decode_value(v)),
        Err(_) => None,
    }
}

} // verus!
