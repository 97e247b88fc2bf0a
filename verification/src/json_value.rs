//! JSON documents as plain values, read and written by the `serde_json` crate.
use serde_json::Value;
use vstd::prelude::*;

use crate::entries;

verus! {

/// A JSON value. A number keeps its digits as text where it is no whole number
/// of 64 bits.
#[derive(Debug, PartialEq, Eq)]
pub enum JsonValue {
    Null,
    Bool(bool),
    Unsigned(u64),
    Negative(i64),
    Float(String),
    Str(String),
    Array(Vec<JsonValue>),
    Object(Vec<(String, JsonValue)>),
}

/// What a JSON value says.
pub enum JsonModel {
    Null,
    Bool(bool),
    Unsigned(u64),
    Negative(i64),
    Float(Seq<char>),
    Str(Seq<char>),
    Array(Seq<JsonModel>),
    Object(Seq<(Seq<char>, JsonModel)>),
}

impl View for JsonValue {
    type V = JsonModel;

    open spec fn view(&self) -> JsonModel
        decreases self,
    {
        match self {
            JsonValue::Null => JsonModel::Null,
            JsonValue::Bool(b) => JsonModel::Bool(*b),
            JsonValue::Unsigned(n) => JsonModel::Unsigned(*n),
            JsonValue::Negative(n) => JsonModel::Negative(*n),
            JsonValue::Float(s) => JsonModel::Float(s@),
            JsonValue::Str(s) => JsonModel::Str(s@),
            JsonValue::Array(a) => JsonModel::Array(
                Seq::new(
                    a@.len(),
                    |i: int|
                        if 0 <= i < a@.len() {
                            a@[i]@
                        } else {
                            JsonModel::Null
                        },
                ),
            ),
            JsonValue::Object(o) => JsonModel::Object(
                Seq::new(
                    o@.len(),
                    |i: int|
                        if 0 <= i < o@.len() {
                            (o@[i].0@, o@[i].1@)
                        } else {
                            (Seq::empty(), JsonModel::Null)
                        },
                ),
            ),
        }
    }
}

/// The value of `key` in an object; nothing has keys but an object.
pub open spec fn member(v: JsonModel, key: Seq<char>) -> Option<JsonModel> {
    match v {
        JsonModel::Object(o) => entries::entry(o, key),
        _ => None,
    }
}

/// The value at place `i` of an array; nothing has places but an array.
pub open spec fn item(v: JsonModel, i: int) -> Option<JsonModel> {
    match v {
        JsonModel::Array(a) => if 0 <= i < a.len() {
            Some(a[i])
        } else {
            None
        },
        _ => None,
    }
}

/// The text of a string.
pub open spec fn string_in(v: Option<JsonModel>) -> Option<Seq<char>> {
    match v {
        Some(JsonModel::Str(s)) => Some(s),
        _ => None,
    }
}

/// What kind of value this is, in one word.
pub open spec fn kind_of(v: JsonModel) -> Seq<char> {
    match v {
        JsonModel::Null => "null"@,
        JsonModel::Bool(_) => "bool"@,
        JsonModel::Unsigned(_) | JsonModel::Negative(_) | JsonModel::Float(_) => "number"@,
        JsonModel::Str(_) => "string"@,
        JsonModel::Array(_) => "array"@,
        JsonModel::Object(_) => "object"@,
    }
}

/// What an array says is what its items say.
pub proof fn lemma_items(v: JsonValue)
    requires
        v is Array,
    ensures
        v@ is Array,
        v@->Array_0.len() == v->Array_0@.len(),
        forall|i: int|
            0 <= i < v->Array_0@.len() ==> #[trigger] v@->Array_0[i] == v->Array_0@[i]@,
{
    reveal_with_fuel(<JsonValue as View>::view, 2);
}

/// What an object says is what its members say.
pub proof fn lemma_members(v: JsonValue)
    requires
        v is Object,
    ensures
        v@ is Object,
        v@->Object_0.len() == v->Object_0@.len(),
        forall|i: int|
            0 <= i < v->Object_0@.len() ==> #[trigger] v@->Object_0[i] == (
                v->Object_0@[i].0@,
                v->Object_0@[i].1@,
            ),
{
    reveal_with_fuel(<JsonValue as View>::view, 2);
}

impl JsonValue {
    /// The value of `key` in an object.
    pub fn get(&self, key: &str) -> (r: Option<&JsonValue>)
        ensures
            match r {
                Some(v) => member(self@, key@) == Some(v@),
                None => member(self@, key@) is None,
            },
    {
        match self {
            JsonValue::Object(o) => {
                let ghost seq = self@->Object_0;
                proof {
                    lemma_members(*self);
                }
                match entries::place_of(o, key) {
                    Some(i) => {
                        proof {
                            entries::lemma_entry_at(seq, key@, i as int);
                        }
                        Some(&o[i].1)
                    },
                    None => {
                        proof {
                            entries::lemma_no_entry(seq, key@);
                        }
                        None
                    },
                }
            },
            _ => None,
        }
    }

    /// The value at place `i` of an array.
    pub fn at(&self, i: usize) -> (r: Option<&JsonValue>)
        ensures
            match r {
                Some(v) => item(self@, i as int) == Some(v@),
                None => item(self@, i as int) is None,
            },
    {
        match self {
            JsonValue::Array(a) => {
                proof {
                    lemma_items(*self);
                }
                if i < a.len() {
                    Some(&a[i])
                } else {
                    None
                }
            },
            _ => None,
        }
    }

    /// The text of a string.
    pub fn as_str(&self) -> (r: Option<&str>)
        ensures
            match r {
                Some(s) => string_in(Some(self@)) == Some(s@),
                None => string_in(Some(self@)) is None,
            },
    {
        match self {
            JsonValue::Str(s) => Some(s.as_str()),
            _ => None,
        }
    }

    /// What kind of value this is, in one word.
    pub fn json_kind(&self) -> (s: &'static str)
        ensures
            s@ == kind_of(self@),
    {
        match self {
            JsonValue::Null => "null",
            JsonValue::Bool(_) => "bool",
            JsonValue::Unsigned(_) => "number",
            JsonValue::Negative(_) => "number",
            JsonValue::Float(_) => "number",
            JsonValue::Str(_) => "string",
            JsonValue::Array(_) => "array",
            JsonValue::Object(_) => "object",
        }
    }
}

// ---- what is written of a value ----

/// Whether a value has no number but whole ones of 64 bits.
pub open spec fn without_floats(v: JsonModel) -> bool
    decreases v,
{
    match v {
        JsonModel::Float(_) => false,
        JsonModel::Array(a) => forall|i: int| 0 <= i < a.len() ==> without_floats(#[trigger] a[i]),
        JsonModel::Object(o) => forall|i: int|
            0 <= i < o.len() ==> without_floats((#[trigger] o[i]).1),
        _ => true,
    }
}

/// A value as the `serde_json` crate holds it: the members of each object in the
/// order of their keys, and of those with the same key only the last; a number
/// that is not negative as an unsigned one.
pub open spec fn built(v: JsonModel) -> JsonModel
    decreases v,
{
    match v {
        JsonModel::Negative(n) => if n < 0 {
            v
        } else {
            JsonModel::Unsigned(n as u64)
        },
        JsonModel::Array(a) => JsonModel::Array(
            Seq::new(
                a.len(),
                |i: int|
                    if 0 <= i < a.len() {
                        built(a[i])
                    } else {
                        JsonModel::Null
                    },
            ),
        ),
        JsonModel::Object(o) => JsonModel::Object(entries::normal(built_members(o))),
        other => other,
    }
}

/// The members of an object, each value as it is built.
pub open spec fn built_members(o: Seq<(Seq<char>, JsonModel)>) -> Seq<(Seq<char>, JsonModel)>
    decreases o,
{
    Seq::new(
        o.len(),
        |i: int|
            if 0 <= i < o.len() {
                (o[i].0, built(o[i].1))
            } else {
                (Seq::empty(), JsonModel::Null)
            },
    )
}

/// What is built of an array is built of its items.
proof fn lemma_built_items(a: Seq<JsonModel>)
    ensures
        built(JsonModel::Array(a)) == JsonModel::Array(a.map_values(|v: JsonModel| built(v))),
{
    reveal_with_fuel(built, 2);
    assert(built(JsonModel::Array(a))->Array_0 =~= a.map_values(|v: JsonModel| built(v)));
}

/// What is built of an object is built of its members.
proof fn lemma_built_members(o: Seq<(Seq<char>, JsonModel)>)
    ensures
        built_members(o) == entries::with_values(o, |v: JsonModel| built(v)),
        built(JsonModel::Object(o)) == JsonModel::Object(entries::normal(built_members(o))),
{
    reveal_with_fuel(built, 3);
    reveal_with_fuel(built_members, 3);
    assert(built_members(o) =~= entries::with_values(o, |v: JsonModel| built(v)));
}

// ---- the `serde_json` crate ----

/// A value of the `serde_json` crate.
#[verifier::external_type_specification]
#[verifier::external_body]
pub struct ExJsonValue(serde_json::Value);

/// What a value of the `serde_json` crate holds.
pub uninterp spec fn json_content(v: serde_json::Value) -> JsonModel;

/// What [`serde_json::from_str`] reads in a text, or the words of its error.
pub uninterp spec fn json_parse(text: Seq<char>) -> Result<JsonModel, Seq<char>>;

/// The compact text that [`serde_json::Value`] displays.
pub uninterp spec fn json_render(v: JsonModel) -> Seq<char>;

/// A value of the `serde_json` crate, taken apart once.
pub enum JsonParts {
    Null,
    Bool(bool),
    Unsigned(u64),
    Negative(i64),
    Float(String),
    Str(String),
    Array(Vec<Value>),
    Object(Vec<(String, Value)>),
}

/// What the items of an array hold.
pub open spec fn contents(a: Seq<Value>) -> Seq<JsonModel> {
    a.map_values(|v: Value| json_content(v))
}

/// What the members of an object hold.
pub open spec fn member_contents(o: Seq<(String, Value)>) -> Seq<(Seq<char>, JsonModel)> {
    o.map_values(|e: (String, Value)| (e.0@, json_content(e.1)))
}

/// What a value holds that was taken apart.
pub open spec fn parts_content(p: JsonParts) -> JsonModel {
    match p {
        JsonParts::Null => JsonModel::Null,
        JsonParts::Bool(b) => JsonModel::Bool(b),
        JsonParts::Unsigned(n) => JsonModel::Unsigned(n),
        JsonParts::Negative(n) => JsonModel::Negative(n),
        JsonParts::Float(s) => JsonModel::Float(s@),
        JsonParts::Str(s) => JsonModel::Str(s@),
        JsonParts::Array(a) => JsonModel::Array(contents(a@)),
        JsonParts::Object(o) => JsonModel::Object(member_contents(o@)),
    }
}

/// Calls [`serde_json::from_str`] for a [`serde_json::Value`]. The contract says
/// that what comes back, value or error text, is fixed by the text.
#[verifier::external_body]
fn json_read(text: &str) -> (r: Result<Value, String>)
    ensures
        match r {
            Ok(v) => json_parse(text@) == Ok::<JsonModel, Seq<char>>(json_content(v)),
            Err(e) => json_parse(text@) == Err::<JsonModel, Seq<char>>(e@),
        },
{
    serde_json::from_str(text).map_err(|e| e.to_string())
}

/// Tells the variants of a [`serde_json::Value`] apart, and of a number whether it
/// is an unsigned one of 64 bits, a negative one, or another. The contract says
/// that the parts hold what the value held.
#[verifier::external_body]
fn json_split(v: Value) -> (p: JsonParts)
    ensures
        parts_content(p) == json_content(v),
{
    match v {
        Value::Null => JsonParts::Null,
        Value::Bool(b) => JsonParts::Bool(b),
        Value::Number(n) => match (n.as_u64(), n.as_i64()) {
            (Some(u), _) => JsonParts::Unsigned(u),
            (None, Some(i)) => JsonParts::Negative(i),
            (None, None) => JsonParts::Float(n.to_string()),
        },
        Value::String(s) => JsonParts::Str(s),
        Value::Array(a) => JsonParts::Array(a),
        Value::Object(o) => JsonParts::Object(o.into_iter().collect()),
    }
}

/// Makes a [`serde_json::Value`] of its parts; an object is a map that is walked in
/// the order of its keys. The contract says that the value holds what the parts
/// hold, where a negative number is one and the members of an object are in order.
/// Floats are left out: nothing here writes one.
#[verifier::external_body]
fn json_join(p: JsonParts) -> (v: Value)
    requires
        !(p is Float),
        p matches JsonParts::Negative(n) ==> n < 0,
        p matches JsonParts::Object(o) ==> entries::ordered(entries::named(o@)),
    ensures
        json_content(v) == parts_content(p),
{
    match p {
        JsonParts::Null | JsonParts::Float(_) => Value::Null,
        JsonParts::Bool(b) => Value::from(b),
        JsonParts::Unsigned(n) => Value::from(n),
        JsonParts::Negative(n) => Value::from(n),
        JsonParts::Str(s) => Value::from(s),
        JsonParts::Array(a) => Value::Array(a),
        JsonParts::Object(o) => Value::Object(o.into_iter().collect()),
    }
}

/// Calls `to_string` of [`serde_json::Value`]. The contract says that the text
/// is fixed by what the value holds.
#[verifier::external_body]
fn json_shown(v: &Value) -> (s: String)
    ensures
        s@ == json_render(json_content(*v)),
{
    v.to_string()
}

// ---- reading and writing ----

/// Takes a value of the `serde_json` crate apart.
fn json_taken(v: Value) -> (r: JsonValue)
    ensures
        r@ == json_content(v),
    decreases json_content(v),
{
    let ghost m = json_content(v);
    match json_split(v) {
        JsonParts::Null => JsonValue::Null,
        JsonParts::Bool(b) => JsonValue::Bool(b),
        JsonParts::Unsigned(n) => JsonValue::Unsigned(n),
        JsonParts::Negative(n) => JsonValue::Negative(n),
        JsonParts::Float(s) => JsonValue::Float(s),
        JsonParts::Str(s) => JsonValue::Str(s),
        JsonParts::Array(a) => {
            let ghost all = a@;
            let mut out: Vec<JsonValue> = Vec::new();
            for item in it: a.into_iter()
                invariant
                    it.seq() == all,
                    m == JsonModel::Array(contents(all)),
                    m == json_content(v),
                    out@.len() == it.index(),
                    forall|j: int|
                        0 <= j < it.index() ==> (#[trigger] out@[j])@ == json_content(all[j]),
            {
                proof {
                    assert(item == all[it.index()]);
                    assert(contents(all)[it.index()] == json_content(item));
                    assert(decreases_to!(m => m->Array_0));
                    assert(decreases_to!(m->Array_0 => m->Array_0[it.index()]));
                }
                out.push(json_taken(item));
            }
            let r: JsonValue = JsonValue::Array(out);
            proof {
                lemma_items(r);
                assert(r@->Array_0 =~= contents(all));
            }
            r
        },
        JsonParts::Object(o) => {
            let ghost all = o@;
            let mut out: Vec<(String, JsonValue)> = Vec::new();
            for item in it: o.into_iter()
                invariant
                    it.seq() == all,
                    m == JsonModel::Object(member_contents(all)),
                    m == json_content(v),
                    out@.len() == it.index(),
                    forall|j: int|
                        0 <= j < it.index() ==> (#[trigger] out@[j]).0@ == all[j].0@
                            && out@[j].1@ == json_content(all[j].1),
            {
                proof {
                    assert(item == all[it.index()]);
                    assert(member_contents(all)[it.index()] == (item.0@, json_content(item.1)));
                    assert(decreases_to!(m => m->Object_0));
                    assert(decreases_to!(m->Object_0 => m->Object_0[it.index()]));
                    assert(decreases_to!(m->Object_0[it.index()] => m->Object_0[it.index()].1));
                }
                let (key, value): (String, Value) = item;
                out.push((key, json_taken(value)));
            }
            let r: JsonValue = JsonValue::Object(out);
            proof {
                lemma_members(r);
                assert(r@->Object_0 =~= member_contents(all));
            }
            r
        },
    }
}

/// Builds a value of the `serde_json` crate.
fn json_given(v: &JsonValue) -> (r: Value)
    requires
        without_floats(v@),
    ensures
        json_content(r) == built(v@),
    decreases v,
{
    match v {
        JsonValue::Null => json_join(JsonParts::Null),
        JsonValue::Bool(b) => json_join(JsonParts::Bool(*b)),
        JsonValue::Unsigned(n) => json_join(JsonParts::Unsigned(*n)),
        JsonValue::Negative(n) => if *n < 0 {
            json_join(JsonParts::Negative(*n))
        } else {
            json_join(JsonParts::Unsigned(*n as u64))
        },
        JsonValue::Float(_) => {
            assert(false);
            json_join(JsonParts::Null)
        },
        JsonValue::Str(s) => json_join(JsonParts::Str(s.clone())),
        JsonValue::Array(a) => {
            let ghost all = v@->Array_0;
            proof {
                lemma_items(*v);
            }
            let mut out: Vec<Value> = Vec::new();
            for i in 0..a.len()
                invariant
                    *v == JsonValue::Array(*a),
                    v@ == JsonModel::Array(all),
                    forall|j: int| 0 <= j < all.len() ==> without_floats(#[trigger] all[j]),
                    all.len() == a@.len(),
                    forall|j: int| 0 <= j < a@.len() ==> #[trigger] all[j] == a@[j]@,
                    out@.len() == i,
                    forall|j: int| 0 <= j < i ==> json_content(#[trigger] out@[j]) == built(all[j]),
            {
                assert(decreases_to!(*v => v->Array_0));
                assert(decreases_to!(*a => a@));
                assert(decreases_to!(a@ => a@[i as int]));
                assert(without_floats(all[i as int]));
                out.push(json_given(&a[i]));
            }
            proof {
                lemma_built_items(all);
                assert(contents(out@) =~= all.map_values(|v: JsonModel| built(v)));
            }
            json_join(JsonParts::Array(out))
        },
        JsonValue::Object(o) => {
            let ghost all = v@->Object_0;
            proof {
                lemma_members(*v);
                assert(all.take(0) =~= Seq::<(Seq<char>, JsonModel)>::empty());
            }
            let mut out: Vec<(String, Value)> = Vec::new();
            assert(member_contents(out@) =~= entries::normal(built_members(all.take(0)))) by {
                assert(built_members(all.take(0)) =~= Seq::<(Seq<char>, JsonModel)>::empty());
            }
            for i in 0..o.len()
                invariant
                    *v == JsonValue::Object(*o),
                    v@ == JsonModel::Object(all),
                    forall|j: int| 0 <= j < all.len() ==> without_floats((#[trigger] all[j]).1),
                    all.len() == o@.len(),
                    forall|j: int|
                        0 <= j < o@.len() ==> #[trigger] all[j] == (o@[j].0@, o@[j].1@),
                    entries::ordered(entries::named(out@)),
                    member_contents(out@) == entries::normal(built_members(all.take(i as int))),
            {
                assert(decreases_to!(*v => v->Object_0));
                assert(decreases_to!(*o => o@));
                assert(decreases_to!(o@ => o@[i as int]));
                assert(decreases_to!(o@[i as int] => o@[i as int].1));
                assert(without_floats(all[i as int].1));
                let value: Value = json_given(&o[i].1);
                let key: String = o[i].0.clone();
                let ghost was = out@;
                let ghost name = key@;
                entries::place(&mut out, key, value);
                proof {
                    let f = |v: Value| json_content(v);
                    let a = entries::named(was);
                    entries::lemma_placed(a, name, value);
                    entries::lemma_placed_with_values(a, f, name, value);
                    assert(member_contents(was) =~= entries::with_values(a, f));
                    assert(member_contents(out@) =~= entries::with_values(
                        entries::named(out@),
                        f,
                    ));
                    let done = built_members(all.take(i + 1));
                    assert(done.drop_last() =~= built_members(all.take(i as int)));
                    assert(done.last() == (name, json_content(value)));
                }
            }
            proof {
                assert(all.take(all.len() as int) =~= all);
                lemma_built_members(all);
            }
            json_join(JsonParts::Object(out))
        },
    }
}

/// A document that was read: what it says, and its compact text.
pub struct JsonDocument {
    pub value: JsonValue,
    pub shown: String,
}

/// Reads a JSON document.
pub fn parse_json(text: &str) -> (r: Result<JsonDocument, String>)
    ensures
        match r {
            Ok(d) => json_parse(text@) == Ok::<JsonModel, Seq<char>>(d.value@) && d.shown@
                == json_render(d.value@),
            Err(e) => json_parse(text@) == Err::<JsonModel, Seq<char>>(e@),
        },
{
    match json_read(text) {
        Ok(v) => {
            let shown: String = json_shown(&v);
            Ok(JsonDocument { value: json_taken(v), shown })
        },
        Err(e) => Err(e),
    }
}

/// The compact text of a value.
pub open spec fn json_text_of(v: JsonModel) -> Seq<char> {
    json_render(built(v))
}

/// Writes a JSON value as compact text.
pub fn json_text(v: &JsonValue) -> (s: String)
    requires
        without_floats(v@),
    ensures
        s@ == json_text_of(v@),
{
    json_shown(&json_given(v))
}

/// A key finds in an object the value that was put last under it, and nothing where no
/// member has it.
pub proof fn law_member(o: Seq<(Seq<char>, JsonModel)>, key: Seq<char>, value: JsonModel, k: Seq<char>)
    ensures
        member(JsonModel::Object(o.push((key, value))), k) == if k == key {
            Some(value)
        } else {
            member(JsonModel::Object(o), k)
        },
        member(JsonModel::Object(Seq::empty()), k) is None,
{
    entries::lemma_entry_push(o, key, value, k);
}

/// The kinds of values have the names that JSON gives them.
pub proof fn law_kinds(b: bool, n: u64, m: i64, s: Seq<char>, a: Seq<JsonModel>, o: Seq<(Seq<char>, JsonModel)>)
    ensures
        kind_of(JsonModel::Null) == "null"@,
        kind_of(JsonModel::Bool(b)) == "bool"@,
        kind_of(JsonModel::Unsigned(n)) == "number"@,
        kind_of(JsonModel::Negative(m)) == "number"@,
        kind_of(JsonModel::Float(s)) == "number"@,
        kind_of(JsonModel::Str(s)) == "string"@,
        kind_of(JsonModel::Array(a)) == "array"@,
        kind_of(JsonModel::Object(o)) == "object"@,
{
}

/// Building a value keeps what each key finds: a string stays as it is, and so do the
/// items of an array.
pub proof fn law_built_keeps_strings(o: Seq<(Seq<char>, JsonModel)>, a: Seq<JsonModel>, key: Seq<char>, i: int)
    ensures
        string_in(member(JsonModel::Object(o), key)) is Some ==> string_in(
            member(built(JsonModel::Object(o)), key),
        ) == string_in(member(JsonModel::Object(o), key)),
        member(built(JsonModel::Object(o)), key) is None <==> member(JsonModel::Object(o), key) is None,
        0 <= i < a.len() ==> item(built(JsonModel::Array(a)), i) == Some(built(a[i])),
{
    lemma_built_members(o);
    lemma_built_items(a);
    entries::lemma_normal(built_members(o));
    entries::lemma_entry_with_values(o, |v: JsonModel| built(v), key);
}

} // verus!
