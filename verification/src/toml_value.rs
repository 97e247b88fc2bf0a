//! TOML documents as plain values, read and written by the `toml` crate.
use toml::Value;
use vstd::prelude::*;

use crate::entries;
use crate::text;

verus! {

/// A TOML value. Floats and date-times are kept as their text: nothing here
/// computes with them.
#[derive(Debug, PartialEq, Eq)]
pub enum TomlValue {
    Str(String),
    Integer(i64),
    Float(String),
    Boolean(bool),
    Datetime(String),
    Array(Vec<TomlValue>),
    Table(Vec<(String, TomlValue)>),
}

/// What a TOML value says.
pub enum TomlModel {
    Str(Seq<char>),
    Integer(i64),
    Float(Seq<char>),
    Boolean(bool),
    Datetime(Seq<char>),
    Array(Seq<TomlModel>),
    Table(Seq<(Seq<char>, TomlModel)>),
}

impl View for TomlValue {
    type V = TomlModel;

    open spec fn view(&self) -> TomlModel
        decreases self,
    {
        match self {
            TomlValue::Str(s) => TomlModel::Str(s@),
            TomlValue::Integer(n) => TomlModel::Integer(*n),
            TomlValue::Float(s) => TomlModel::Float(s@),
            TomlValue::Boolean(b) => TomlModel::Boolean(*b),
            TomlValue::Datetime(s) => TomlModel::Datetime(s@),
            TomlValue::Array(a) => TomlModel::Array(
                Seq::new(
                    a@.len(),
                    |i: int|
                        if 0 <= i < a@.len() {
                            a@[i]@
                        } else {
                            TomlModel::Boolean(false)
                        },
                ),
            ),
            TomlValue::Table(t) => TomlModel::Table(
                Seq::new(
                    t@.len(),
                    |i: int|
                        if 0 <= i < t@.len() {
                            (t@[i].0@, t@[i].1@)
                        } else {
                            (Seq::empty(), TomlModel::Boolean(false))
                        },
                ),
            ),
        }
    }
}

/// The value of `key` in a table; nothing has keys but a table.
pub open spec fn toml_member(v: TomlModel, key: Seq<char>) -> Option<TomlModel> {
    match v {
        TomlModel::Table(t) => entries::entry(t, key),
        _ => None,
    }
}

/// The value of `key` in a table that may be missing.
pub open spec fn member_of(v: Option<TomlModel>, key: Seq<char>) -> Option<TomlModel> {
    match v {
        Some(t) => toml_member(t, key),
        None => None,
    }
}

/// The text of a string.
pub open spec fn toml_string(v: Option<TomlModel>) -> Option<Seq<char>> {
    match v {
        Some(TomlModel::Str(s)) => Some(s),
        _ => None,
    }
}

/// The truth value of a boolean.
pub open spec fn toml_bool(v: Option<TomlModel>) -> Option<bool> {
    match v {
        Some(TomlModel::Boolean(b)) => Some(b),
        _ => None,
    }
}

/// What an array says is what its items say.
pub proof fn lemma_toml_items(v: TomlValue)
    requires
        v is Array,
    ensures
        v@ is Array,
        v@->Array_0.len() == v->Array_0@.len(),
        forall|i: int|
            0 <= i < v->Array_0@.len() ==> #[trigger] v@->Array_0[i] == v->Array_0@[i]@,
{
    reveal_with_fuel(<TomlValue as View>::view, 2);
}

/// What a table says is what its entries say.
pub proof fn lemma_toml_entries(v: TomlValue)
    requires
        v is Table,
    ensures
        v@ is Table,
        v@->Table_0.len() == v->Table_0@.len(),
        forall|i: int|
            0 <= i < v->Table_0@.len() ==> #[trigger] v@->Table_0[i] == (
                v->Table_0@[i].0@,
                v->Table_0@[i].1@,
            ),
{
    reveal_with_fuel(<TomlValue as View>::view, 2);
}

impl TomlValue {
    /// The value of `key` in a table.
    pub fn get(&self, key: &str) -> (r: Option<&TomlValue>)
        ensures
            match r {
                Some(v) => toml_member(self@, key@) == Some(v@),
                None => toml_member(self@, key@) is None,
            },
    {
        match self {
            TomlValue::Table(t) => {
                let ghost seq = self@->Table_0;
                proof {
                    lemma_toml_entries(*self);
                }
                match entries::place_of(t, key) {
                    Some(i) => {
                        proof {
                            entries::lemma_entry_at(seq, key@, i as int);
                        }
                        Some(&t[i].1)
                    },
                    None => {
                        proof {
                            entries::lemma_no_entry(seq, key@);
                        }
                        None
                    },
                }
            },
            _ => None,
        }
    }

    /// The text of a string.
    pub fn as_str(&self) -> (r: Option<&str>)
        ensures
            match r {
                Some(s) => toml_string(Some(self@)) == Some(s@),
                None => toml_string(Some(self@)) is None,
            },
    {
        match self {
            TomlValue::Str(s) => Some(s.as_str()),
            _ => None,
        }
    }

    /// A copy that says the same.
    pub fn duplicate(&self) -> (r: TomlValue)
        ensures
            r@ == self@,
        decreases self,
    {
        match self {
            TomlValue::Str(s) => TomlValue::Str(s.clone()),
            TomlValue::Integer(n) => TomlValue::Integer(*n),
            TomlValue::Float(s) => TomlValue::Float(s.clone()),
            TomlValue::Boolean(b) => TomlValue::Boolean(*b),
            TomlValue::Datetime(s) => TomlValue::Datetime(s.clone()),
            TomlValue::Array(a) => {
                let mut out: Vec<TomlValue> = Vec::new();
                for i in 0..a.len()
                    invariant
                        *self == TomlValue::Array(*a),
                        out@.len() == i,
                        forall|j: int| 0 <= j < i ==> (#[trigger] out@[j])@ == a@[j]@,
                {
                    assert(decreases_to!(*self => self->Array_0));
                    assert(decreases_to!(*a => a@));
                    assert(decreases_to!(a@ => a@[i as int]));
                    out.push(a[i].duplicate());
                }
                let r: TomlValue = TomlValue::Array(out);
                proof {
                    lemma_toml_items(*self);
                    lemma_toml_items(r);
                    assert(r@->Array_0 =~= self@->Array_0);
                }
                r
            },
            TomlValue::Table(t) => {
                let mut out: Vec<(String, TomlValue)> = Vec::new();
                for i in 0..t.len()
                    invariant
                        *self == TomlValue::Table(*t),
                        out@.len() == i,
                        forall|j: int|
                            0 <= j < i ==> (#[trigger] out@[j]).0@ == t@[j].0@ && out@[j].1@
                                == t@[j].1@,
                {
                    assert(decreases_to!(*self => self->Table_0));
                    assert(decreases_to!(*t => t@));
                    assert(decreases_to!(t@ => t@[i as int]));
                    assert(decreases_to!(t@[i as int] => t@[i as int].1));
                    let value: TomlValue = t[i].1.duplicate();
                    out.push((t[i].0.clone(), value));
                }
                let r: TomlValue = TomlValue::Table(out);
                proof {
                    lemma_toml_entries(*self);
                    lemma_toml_entries(r);
                    assert(r@->Table_0 =~= self@->Table_0);
                }
                r
            },
        }
    }
}

// ---- what a document keeps when it is written and read again ----

/// A key that the `toml` crate keeps for itself.
pub const PRIVATE_KEY: &'static str = "$__toml_private_datetime";

/// How many arrays and tables may stand in one another behind a key, and how many
/// keys a header may have, for a document to be read.
pub const MAX_NESTING: usize = 80;

/// Whether a value can stand behind a key: arrays and tables stand at most `depth`
/// deep in one another, and no key is one that the `toml` crate keeps for itself.
pub open spec fn inlinable(v: TomlModel, depth: nat) -> bool
    decreases depth,
{
    match v {
        TomlModel::Array(a) => depth > 0 && forall|i: int|
            0 <= i < a.len() ==> inlinable(#[trigger] a[i], (depth - 1) as nat),
        TomlModel::Table(t) => depth > 0 && forall|i: int|
            0 <= i < t.len() ==> (#[trigger] t[i]).0 != PRIVATE_KEY@ && inlinable(
                t[i].1,
                (depth - 1) as nat,
            ),
        _ => true,
    }
}

/// Whether an array is one of tables, each of which is written under a header.
pub open spec fn of_tables(a: Seq<TomlModel>) -> bool {
    a.len() > 0 && forall|i: int| 0 <= i < a.len() ==> (#[trigger] a[i]) is Table
}

/// Whether a table can be written under headers of at most `keys` more keys and be
/// read again, and has no key that the `toml` crate keeps for itself.
pub open spec fn under_header(v: TomlModel, keys: nat) -> bool
    decreases keys, 1nat,
{
    match v {
        TomlModel::Table(t) => forall|i: int|
            0 <= i < t.len() ==> (#[trigger] t[i]).0 != PRIVATE_KEY@ && in_table(t[i].1, keys),
        _ => false,
    }
}

/// Whether a value can be written so in a table: a table, and each table of an array
/// of tables, under a header of its own, and anything else behind its key.
pub open spec fn in_table(v: TomlModel, keys: nat) -> bool
    decreases keys, 0nat,
{
    match v {
        TomlModel::Table(_) => keys > 0 && under_header(v, (keys - 1) as nat),
        TomlModel::Array(a) => if of_tables(a) {
            keys > 0 && forall|i: int|
                0 <= i < a.len() ==> under_header(#[trigger] a[i], (keys - 1) as nat)
        } else {
            inlinable(v, MAX_NESTING as nat)
        },
        _ => true,
    }
}

/// Whether a document can be written and read again.
pub open spec fn storable(v: TomlModel) -> bool {
    under_header(v, MAX_NESTING as nat)
}

/// Whether `line` stands in a text as a line of its own that a line feed ends.
pub open spec fn ended_line(s: Seq<char>, line: Seq<char>) -> bool {
    exists|i: int, j: int| #[trigger]
        s.subrange(i, j) == line && 0 <= i <= j < s.len() && s[j] == '\n' && (i == 0 || s[i - 1]
            == '\n') && !line.contains('\n')
}

/// Whether `line` is such a line of a string in a value.
pub open spec fn holds_line(v: TomlModel, line: Seq<char>) -> bool
    decreases v,
{
    match v {
        TomlModel::Str(s) => ended_line(s, line),
        TomlModel::Array(a) => exists|i: int|
            0 <= i < a.len() && holds_line(#[trigger] a[i], line),
        TomlModel::Table(t) => exists|i: int|
            0 <= i < t.len() && holds_line((#[trigger] t[i]).1, line),
        _ => false,
    }
}

/// Whether a line has none of the characters that mark a key, a header, or the
/// end of a string or an escape in one.
pub open spec fn unmarked(line: Seq<char>) -> bool {
    forall|i: int|
        0 <= i < line.len() ==> {
            let c = #[trigger] line[i];
            c != '=' && c != '[' && c != '"' && c != '\'' && c != '\\'
        }
}

/// Whether each unmarked line of a text is empty or a line of a string in a value.
pub open spec fn lines_from(text: Seq<char>, v: TomlModel) -> bool {
    forall|i: int|
        0 <= i < text::lines_of(text).len() && unmarked(#[trigger] text::lines_of(text)[i])
            ==> text::lines_of(text)[i].len() == 0 || holds_line(v, text::lines_of(text)[i])
}

// ---- what is written of a value ----

/// Whether the text of each float and of each date-time in a value stands for one.
pub open spec fn buildable(v: TomlModel) -> bool
    decreases v,
{
    match v {
        TomlModel::Float(s) => float_shown(s) is Some,
        TomlModel::Datetime(s) => datetime_shown(s) is Some,
        TomlModel::Array(a) => forall|i: int| 0 <= i < a.len() ==> buildable(#[trigger] a[i]),
        TomlModel::Table(t) => forall|i: int| 0 <= i < t.len() ==> buildable((#[trigger] t[i]).1),
        _ => true,
    }
}

/// Whether a value is as the `toml` crate holds it: the entries of each table in
/// the order of their keys, none of which is there twice; floats and date-times as
/// they are shown.
pub open spec fn canonical(v: TomlModel) -> bool
    decreases v,
{
    match v {
        TomlModel::Float(s) => float_shown(s) == Some(s),
        TomlModel::Datetime(s) => datetime_shown(s) == Some(s),
        TomlModel::Array(a) => forall|i: int| 0 <= i < a.len() ==> canonical(#[trigger] a[i]),
        TomlModel::Table(t) => entries::ordered(t) && forall|i: int|
            0 <= i < t.len() ==> canonical((#[trigger] t[i]).1),
        _ => true,
    }
}

/// A buildable value as the `toml` crate holds it: the entries of each table in
/// the order of their keys, and of those with the same key only the last; floats
/// and date-times as they are shown.
pub open spec fn built(v: TomlModel) -> TomlModel
    decreases v,
{
    match v {
        TomlModel::Float(s) => TomlModel::Float(float_shown(s)->0),
        TomlModel::Datetime(s) => TomlModel::Datetime(datetime_shown(s)->0),
        TomlModel::Array(a) => TomlModel::Array(
            Seq::new(
                a.len(),
                |i: int|
                    if 0 <= i < a.len() {
                        built(a[i])
                    } else {
                        TomlModel::Boolean(false)
                    },
            ),
        ),
        TomlModel::Table(t) => TomlModel::Table(entries::normal(built_entries(t))),
        other => other,
    }
}

/// The entries of a table, each value as it is built.
pub open spec fn built_entries(t: Seq<(Seq<char>, TomlModel)>) -> Seq<(Seq<char>, TomlModel)>
    decreases t,
{
    Seq::new(
        t.len(),
        |i: int|
            if 0 <= i < t.len() {
                (t[i].0, built(t[i].1))
            } else {
                (Seq::empty(), TomlModel::Boolean(false))
            },
    )
}

/// What is built of an array is built of its items.
proof fn lemma_built_items(a: Seq<TomlModel>)
    ensures
        built(TomlModel::Array(a)) == TomlModel::Array(a.map_values(|v: TomlModel| built(v))),
{
    reveal_with_fuel(built, 2);
    assert(built(TomlModel::Array(a))->Array_0 =~= a.map_values(|v: TomlModel| built(v)));
}

/// The entries that are built are the entries with each value built.
proof fn lemma_built_entries(t: Seq<(Seq<char>, TomlModel)>)
    ensures
        built_entries(t) == entries::with_values(t, |v: TomlModel| built(v)),
        built(TomlModel::Table(t)) == TomlModel::Table(entries::normal(built_entries(t))),
{
    reveal_with_fuel(built, 3);
    reveal_with_fuel(built_entries, 3);
    assert(built_entries(t) =~= entries::with_values(t, |v: TomlModel| built(v)));
}

/// What a key finds in a table that is built is built of what it found.
pub proof fn lemma_built_member(t: Seq<(Seq<char>, TomlModel)>, key: Seq<char>)
    ensures
        toml_member(built(TomlModel::Table(t)), key) == match entries::entry(t, key) {
            Some(v) => Some(built(v)),
            None => None,
        },
{
    lemma_built_entries(t);
    entries::lemma_normal(built_entries(t));
    entries::lemma_entry_with_values(t, |v: TomlModel| built(v), key);
}

/// A value that is as the `toml` crate holds it can be built, and stays as it is.
pub proof fn lemma_canonical(v: TomlModel)
    requires
        canonical(v),
    ensures
        buildable(v),
        built(v) == v,
    decreases v,
{
    match v {
        TomlModel::Array(a) => {
            lemma_built_items(a);
            assert forall|i: int| 0 <= i < a.len() implies buildable(#[trigger] a[i]) && built(a[i])
                == a[i] by {
                lemma_canonical(a[i]);
            }
            assert(a.map_values(|v: TomlModel| built(v)) =~= a);
        },
        TomlModel::Table(t) => {
            lemma_built_entries(t);
            assert forall|i: int| 0 <= i < t.len() implies buildable((#[trigger] t[i]).1) && built(
                t[i].1,
            ) == t[i].1 by {
                lemma_canonical(t[i].1);
            }
            assert(built_entries(t) =~= t);
            entries::lemma_normal_ordered(t);
        },
        _ => {},
    }
}

/// What is built has no line in a string that was not there.
proof fn lemma_built_line(v: TomlModel, line: Seq<char>)
    requires
        holds_line(built(v), line),
    ensures
        holds_line(v, line),
    decreases v,
{
    match v {
        TomlModel::Array(a) => {
            lemma_built_items(a);
            let b = a.map_values(|v: TomlModel| built(v));
            let i = choose|i: int| 0 <= i < b.len() && holds_line(#[trigger] b[i], line);
            lemma_built_line(a[i], line);
        },
        TomlModel::Table(t) => {
            lemma_built_entries(t);
            let all = built_entries(t);
            let b = entries::normal(all);
            entries::lemma_normal(all);
            let i = choose|i: int| 0 <= i < b.len() && holds_line((#[trigger] b[i]).1, line);
            assert(all.contains(b[i]));
            let j = choose|j: int| 0 <= j < all.len() && all[j] == b[i];
            assert(all[j].1 == built(t[j].1));
            lemma_built_line(t[j].1, line);
        },
        _ => {},
    }
}

/// What is built is nested no deeper.
proof fn lemma_built_inlinable(v: TomlModel, depth: nat)
    requires
        inlinable(v, depth),
    ensures
        inlinable(built(v), depth),
    decreases depth,
{
    match v {
        TomlModel::Array(a) => {
            lemma_built_items(a);
            let b = a.map_values(|v: TomlModel| built(v));
            assert forall|i: int| 0 <= i < b.len() implies inlinable(
                #[trigger] b[i],
                (depth - 1) as nat,
            ) by {
                lemma_built_inlinable(a[i], (depth - 1) as nat);
            }
        },
        TomlModel::Table(t) => {
            lemma_built_entries(t);
            let all = built_entries(t);
            let b = entries::normal(all);
            entries::lemma_normal(all);
            assert forall|i: int| 0 <= i < b.len() implies (#[trigger] b[i]).0 != PRIVATE_KEY@
                && inlinable(b[i].1, (depth - 1) as nat) by {
                assert(all.contains(b[i]));
                let j = choose|j: int| 0 <= j < all.len() && all[j] == b[i];
                assert(t[j].0 == b[i].0);
                lemma_built_inlinable(t[j].1, (depth - 1) as nat);
            }
        },
        _ => {},
    }
}

/// What is built of a table that can be written can be written.
proof fn lemma_built_under_header(v: TomlModel, keys: nat)
    requires
        under_header(v, keys),
    ensures
        under_header(built(v), keys),
    decreases keys, 1nat,
{
    let t = v->Table_0;
    lemma_built_entries(t);
    let all = built_entries(t);
    let b = entries::normal(all);
    entries::lemma_normal(all);
    assert forall|i: int| 0 <= i < b.len() implies (#[trigger] b[i]).0 != PRIVATE_KEY@ && in_table(
        b[i].1,
        keys,
    ) by {
        assert(all.contains(b[i]));
        let j = choose|j: int| 0 <= j < all.len() && all[j] == b[i];
        assert(t[j].0 == b[i].0);
        lemma_built_in_table(t[j].1, keys);
    }
}

proof fn lemma_built_in_table(v: TomlModel, keys: nat)
    requires
        in_table(v, keys),
    ensures
        in_table(built(v), keys),
    decreases keys, 0nat,
{
    match v {
        TomlModel::Table(t) => {
            lemma_built_entries(t);
            lemma_built_under_header(v, (keys - 1) as nat);
        },
        TomlModel::Array(a) => {
            lemma_built_items(a);
            let b = a.map_values(|v: TomlModel| built(v));
            assert forall|i: int| 0 <= i < a.len() implies (#[trigger] a[i] is Table <==> b[i] is
                Table) by {
                if a[i] is Table {
                    lemma_built_entries(a[i]->Table_0);
                } else if a[i] is Array {
                    lemma_built_items(a[i]->Array_0);
                }
            }
            if of_tables(a) {
                assert forall|i: int| 0 <= i < b.len() implies (#[trigger] b[i]) is Table
                    && under_header(b[i], (keys - 1) as nat) by {
                    assert(a[i] is Table);
                    lemma_built_under_header(a[i], (keys - 1) as nat);
                }
            } else {
                if a.len() > 0 {
                    let i = choose|i: int| 0 <= i < a.len() && !((#[trigger] a[i]) is Table);
                    assert(!(b[i] is Table));
                }
                lemma_built_inlinable(v, MAX_NESTING as nat);
            }
        },
        _ => {},
    }
}

// ---- the `toml` crate ----

/// A value of the `toml` crate.
#[verifier::external_type_specification]
#[verifier::external_body]
pub struct ExTomlValue(toml::Value);

/// What a value of the `toml` crate holds.
pub uninterp spec fn toml_content(v: toml::Value) -> TomlModel;

/// What [`toml::from_str`] reads in a text, or the words of its error.
pub uninterp spec fn toml_parse(text: Seq<char>) -> Result<TomlModel, Seq<char>>;

/// The text that [`toml::to_string`] writes, or the words of its error.
pub uninterp spec fn toml_render(v: TomlModel) -> Result<Seq<char>, Seq<char>>;

/// How a float is shown that std reads in a text, where it reads one.
pub uninterp spec fn float_shown(text: Seq<char>) -> Option<Seq<char>>;

/// How a date-time is shown that the `toml` crate reads in a text, where it reads
/// one.
pub uninterp spec fn datetime_shown(text: Seq<char>) -> Option<Seq<char>>;

/// A value of the `toml` crate, taken apart once.
pub enum TomlParts {
    Str(String),
    Integer(i64),
    Float(String),
    Boolean(bool),
    Datetime(String),
    Array(Vec<Value>),
    Table(Vec<(String, Value)>),
}

/// What the items of an array hold.
pub open spec fn contents(a: Seq<Value>) -> Seq<TomlModel> {
    a.map_values(|v: Value| toml_content(v))
}

/// What the entries of a table hold.
pub open spec fn entry_contents(t: Seq<(String, Value)>) -> Seq<(Seq<char>, TomlModel)> {
    t.map_values(|e: (String, Value)| (e.0@, toml_content(e.1)))
}

/// What a value holds that was taken apart.
pub open spec fn parts_content(p: TomlParts) -> TomlModel {
    match p {
        TomlParts::Str(s) => TomlModel::Str(s@),
        TomlParts::Integer(n) => TomlModel::Integer(n),
        TomlParts::Float(s) => TomlModel::Float(s@),
        TomlParts::Boolean(b) => TomlModel::Boolean(b),
        TomlParts::Datetime(s) => TomlModel::Datetime(s@),
        TomlParts::Array(a) => TomlModel::Array(contents(a@)),
        TomlParts::Table(t) => TomlModel::Table(entry_contents(t@)),
    }
}

/// Calls [`toml::from_str`] for a [`toml::Value`]. The contract says that what
/// comes back, value or error text, is fixed by the text; that each float and each
/// date-time in it can be read again from the text that shows it, and is shown by
/// the same text then; and that each table is walked in the order of its keys.
#[verifier::external_body]
fn toml_read(text: &str) -> (r: Result<Value, String>)
    ensures
        match r {
            Ok(v) => toml_parse(text@) == Ok::<TomlModel, Seq<char>>(toml_content(v)),
            Err(e) => toml_parse(text@) == Err::<TomlModel, Seq<char>>(e@),
        },
        r matches Ok(v) ==> canonical(toml_content(v)),
{
    toml::from_str(text).map_err(|e| e.to_string())
}

/// Tells the variants of a [`toml::Value`] apart. The contract says that the parts
/// of a value that was read or built hold what the value held. A value with a
/// date-time that cannot be read again is left out: it may have no text to show.
#[verifier::external_body]
fn toml_split(v: Value) -> (p: TomlParts)
    requires
        canonical(toml_content(v)),
    ensures
        parts_content(p) == toml_content(v),
{
    match v {
        Value::String(s) => TomlParts::Str(s),
        Value::Integer(n) => TomlParts::Integer(n),
        Value::Float(x) => TomlParts::Float(x.to_string()),
        Value::Boolean(b) => TomlParts::Boolean(b),
        Value::Datetime(d) => TomlParts::Datetime(d.to_string()),
        Value::Array(a) => TomlParts::Array(a),
        Value::Table(t) => TomlParts::Table(t.into_iter().collect()),
    }
}

/// Makes a [`toml::Value::String`]. The contract says that it holds the text.
#[verifier::external_body]
fn toml_str(s: &str) -> (v: Value)
    ensures
        toml_content(v) == TomlModel::Str(s@),
{
    Value::String(s.to_string())
}

/// Makes a [`toml::Value::Integer`]. The contract says that it holds the number.
#[verifier::external_body]
fn toml_integer(n: i64) -> (v: Value)
    ensures
        toml_content(v) == TomlModel::Integer(n),
{
    Value::Integer(n)
}

/// Makes a [`toml::Value::Boolean`]. The contract says that it holds the truth
/// value.
#[verifier::external_body]
fn toml_boolean(b: bool) -> (v: Value)
    ensures
        toml_content(v) == TomlModel::Boolean(b),
{
    Value::Boolean(b)
}

/// Makes a [`toml::Value::Float`] of what std reads in a text. The contract says
/// that the text fixes whether there is one and how it is shown, and that what
/// shows a float is read as one that is shown the same.
#[verifier::external_body]
fn toml_float(s: &str) -> (r: Option<Value>)
    ensures
        match r {
            Some(v) => float_shown(s@) matches Some(t) && toml_content(v) == TomlModel::Float(t),
            None => float_shown(s@) is None,
        },
        r matches Some(v) ==> canonical(toml_content(v)),
{
    s.parse().ok().map(Value::Float)
}

/// Makes a [`toml::Value::Datetime`] of what [`toml::value::Datetime`] reads in a
/// text. The contract says that the text fixes whether there is one and how it is
/// shown, and that what shows such a date-time is read as one that is shown the
/// same.
#[verifier::external_body]
fn toml_datetime(s: &str) -> (r: Option<Value>)
    ensures
        match r {
            Some(v) => datetime_shown(s@) matches Some(t) && toml_content(v)
                == TomlModel::Datetime(t),
            None => datetime_shown(s@) is None,
        },
        r matches Some(v) ==> canonical(toml_content(v)),
{
    s.parse().ok().map(Value::Datetime)
}

/// Makes a [`toml::Value::Array`]. The contract says that it holds what the items
/// hold, in order.
#[verifier::external_body]
fn toml_array(a: Vec<Value>) -> (v: Value)
    ensures
        toml_content(v) == TomlModel::Array(contents(a@)),
{
    Value::Array(a)
}

/// Makes a [`toml::Value::Table`], a map that is walked in the order of its keys.
/// The contract says that it holds entries that are in order as they are.
#[verifier::external_body]
fn toml_table(t: Vec<(String, Value)>) -> (v: Value)
    requires
        entries::ordered(entries::named(t@)),
    ensures
        toml_content(v) == TomlModel::Table(entry_contents(t@)),
{
    Value::Table(t.into_iter().collect())
}

/// Calls [`toml::to_string`] on a value that was read or built. The contract says
/// that what comes back, text or error text, is fixed by what the value holds; that
/// a table can be written; that the text has no carriage return and ends, where it
/// is not empty, with a line feed; that a line of it without a mark of TOML is empty
/// or stands in a string of the value; and that [`toml::from_str`] reads the text of
/// a storable value as the same value.
#[verifier::external_body]
fn toml_written(v: &Value) -> (r: Result<String, String>)
    requires
        canonical(toml_content(*v)),
    ensures
        match r {
            Ok(s) => toml_render(toml_content(*v)) == Ok::<Seq<char>, Seq<char>>(s@),
            Err(e) => toml_render(toml_content(*v)) == Err::<Seq<char>, Seq<char>>(e@),
        },
        toml_content(*v) is Table ==> r is Ok,
        r matches Ok(s) ==> !s@.contains('\r') && (s@.len() == 0 || s@.last() == '\n'),
        r matches Ok(s) ==> lines_from(s@, toml_content(*v)),
        r matches Ok(s) ==> storable(toml_content(*v)) ==> (toml_parse(
            s@,
        ) matches Ok(m) && m == toml_content(*v)),
{
    toml::to_string(v).map_err(|e| e.to_string())
}

// ---- reading and writing ----

/// Takes a value of the `toml` crate apart.
fn toml_taken(v: Value) -> (r: TomlValue)
    requires
        canonical(toml_content(v)),
    ensures
        r@ == toml_content(v),
    decreases toml_content(v),
{
    let ghost m = toml_content(v);
    match toml_split(v) {
        TomlParts::Str(s) => TomlValue::Str(s),
        TomlParts::Integer(n) => TomlValue::Integer(n),
        TomlParts::Float(s) => TomlValue::Float(s),
        TomlParts::Boolean(b) => TomlValue::Boolean(b),
        TomlParts::Datetime(s) => TomlValue::Datetime(s),
        TomlParts::Array(a) => {
            let ghost all = a@;
            let mut out: Vec<TomlValue> = Vec::new();
            for item in it: a.into_iter()
                invariant
                    it.seq() == all,
                    m == TomlModel::Array(contents(all)),
                    canonical(m),
                    m == toml_content(v),
                    out@.len() == it.index(),
                    forall|j: int|
                        0 <= j < it.index() ==> (#[trigger] out@[j])@ == toml_content(all[j]),
            {
                proof {
                    assert(item == all[it.index()]);
                    assert(contents(all)[it.index()] == toml_content(item));
                    assert(decreases_to!(m => m->Array_0));
                    assert(decreases_to!(m->Array_0 => m->Array_0[it.index()]));
                }
                out.push(toml_taken(item));
            }
            let r: TomlValue = TomlValue::Array(out);
            proof {
                lemma_toml_items(r);
                assert(r@->Array_0 =~= contents(all));
            }
            r
        },
        TomlParts::Table(t) => {
            let ghost all = t@;
            let mut out: Vec<(String, TomlValue)> = Vec::new();
            for item in it: t.into_iter()
                invariant
                    it.seq() == all,
                    m == TomlModel::Table(entry_contents(all)),
                    canonical(m),
                    m == toml_content(v),
                    out@.len() == it.index(),
                    forall|j: int|
                        0 <= j < it.index() ==> (#[trigger] out@[j]).0@ == all[j].0@
                            && out@[j].1@ == toml_content(all[j].1),
            {
                proof {
                    assert(item == all[it.index()]);
                    assert(entry_contents(all)[it.index()] == (item.0@, toml_content(item.1)));
                    assert(decreases_to!(m => m->Table_0));
                    assert(decreases_to!(m->Table_0 => m->Table_0[it.index()]));
                    assert(decreases_to!(m->Table_0[it.index()] => m->Table_0[it.index()].1));
                }
                let (key, value): (String, Value) = item;
                out.push((key, toml_taken(value)));
            }
            let r: TomlValue = TomlValue::Table(out);
            proof {
                lemma_toml_entries(r);
                assert(r@->Table_0 =~= entry_contents(all));
            }
            r
        },
    }
}

/// Builds a value of the `toml` crate, where that can be done.
fn toml_given(v: &TomlValue) -> (r: Option<Value>)
    ensures
        match r {
            Some(o) => buildable(v@) && toml_content(o) == built(v@) && canonical(toml_content(o)),
            None => !buildable(v@),
        },
    decreases v,
{
    match v {
        TomlValue::Str(s) => Some(toml_str(s.as_str())),
        TomlValue::Integer(n) => Some(toml_integer(*n)),
        TomlValue::Float(s) => toml_float(s.as_str()),
        TomlValue::Boolean(b) => Some(toml_boolean(*b)),
        TomlValue::Datetime(s) => toml_datetime(s.as_str()),
        TomlValue::Array(a) => {
            let ghost all = v@->Array_0;
            proof {
                lemma_toml_items(*v);
            }
            let mut out: Vec<Value> = Vec::new();
            for i in 0..a.len()
                invariant
                    *v == TomlValue::Array(*a),
                    v@ == TomlModel::Array(all),
                    all.len() == a@.len(),
                    forall|j: int| 0 <= j < a@.len() ==> #[trigger] all[j] == a@[j]@,
                    out@.len() == i,
                    forall|j: int| 0 <= j < i ==> buildable(#[trigger] all[j]),
                    forall|j: int|
                        0 <= j < i ==> toml_content(#[trigger] out@[j]) == built(all[j])
                            && canonical(toml_content(out@[j])),
            {
                assert(decreases_to!(*v => v->Array_0));
                assert(decreases_to!(*a => a@));
                assert(decreases_to!(a@ => a@[i as int]));
                assert(all[i as int] == a@[i as int]@);
                match toml_given(&a[i]) {
                    Some(o) => {
                        out.push(o);
                    },
                    None => {
                        return None;
                    },
                }
            }
            proof {
                lemma_built_items(all);
                assert(contents(out@) =~= all.map_values(|v: TomlModel| built(v)));
            }
            Some(toml_array(out))
        },
        TomlValue::Table(t) => {
            let ghost all = v@->Table_0;
            proof {
                lemma_toml_entries(*v);
                assert(all.take(0) =~= Seq::<(Seq<char>, TomlModel)>::empty());
            }
            let mut out: Vec<(String, Value)> = Vec::new();
            assert(entry_contents(out@) =~= entries::normal(built_entries(all.take(0)))) by {
                assert(built_entries(all.take(0)) =~= Seq::<(Seq<char>, TomlModel)>::empty());
            }
            for i in 0..t.len()
                invariant
                    *v == TomlValue::Table(*t),
                    v@ == TomlModel::Table(all),
                    all.len() == t@.len(),
                    forall|j: int|
                        0 <= j < t@.len() ==> #[trigger] all[j] == (t@[j].0@, t@[j].1@),
                    forall|j: int| 0 <= j < i ==> buildable((#[trigger] all[j]).1),
                    entries::ordered(entries::named(out@)),
                    entry_contents(out@) == entries::normal(built_entries(all.take(i as int))),
                    forall|j: int|
                        0 <= j < out@.len() ==> canonical(toml_content((#[trigger] out@[j]).1)),
            {
                assert(decreases_to!(*v => v->Table_0));
                assert(decreases_to!(*t => t@));
                assert(decreases_to!(t@ => t@[i as int]));
                assert(decreases_to!(t@[i as int] => t@[i as int].1));
                assert(all[i as int] == (t@[i as int].0@, t@[i as int].1@));
                match toml_given(&t[i].1) {
                    Some(o) => {
                        let key: String = t[i].0.clone();
                        let ghost was = out@;
                        let ghost name = key@;
                        entries::place(&mut out, key, o);
                        proof {
                            lemma_place_content(was, out@, name, o);
                            let done = built_entries(all.take(i + 1));
                            assert(done.drop_last() =~= built_entries(all.take(i as int)));
                            assert(done.last() == (name, toml_content(o)));
                        }
                    },
                    None => {
                        return None;
                    },
                }
            }
            proof {
                assert(all.take(all.len() as int) =~= all);
                lemma_built_entries(all);
                entries::lemma_normal(built_entries(all));
            }
            Some(toml_table(out))
        },
    }
}

/// Placing a value among others is placing what it holds.
proof fn lemma_place_content(
    was: Seq<(String, Value)>,
    now: Seq<(String, Value)>,
    key: Seq<char>,
    value: Value,
)
    requires
        entries::ordered(entries::named(was)),
        entries::named(now) == entries::placed(entries::named(was), key, value),
        canonical(toml_content(value)),
        forall|j: int| 0 <= j < was.len() ==> canonical(toml_content((#[trigger] was[j]).1)),
    ensures
        entries::ordered(entries::named(now)),
        entry_contents(now) == entries::placed(entry_contents(was), key, toml_content(value)),
        forall|j: int| 0 <= j < now.len() ==> canonical(toml_content((#[trigger] now[j]).1)),
{
    let f = |v: Value| toml_content(v);
    let a = entries::named(was);
    entries::lemma_placed(a, key, value);
    entries::lemma_placed_with_values(a, f, key, value);
    assert(entry_contents(was) =~= entries::with_values(a, f));
    assert(entry_contents(now) =~= entries::with_values(entries::named(now), f));
    assert forall|j: int| 0 <= j < now.len() implies canonical(
        toml_content((#[trigger] now[j]).1),
    ) by {
        let e = entries::named(now)[j];
        assert(e == (now[j].0@, now[j].1));
        if e != (key, value) {
            assert(a.contains(e));
            let m = choose|m: int| 0 <= m < a.len() && a[m] == e;
            assert(was[m].1 == now[j].1);
        }
    }
}

/// Reads a TOML document. What is read can be written again, if it is a table, and
/// is what is built of it.
pub fn parse_toml(text: &str) -> (r: Result<TomlValue, String>)
    ensures
        match r {
            Ok(v) => toml_parse(text@) == Ok::<TomlModel, Seq<char>>(v@),
            Err(e) => toml_parse(text@) == Err::<TomlModel, Seq<char>>(e@),
        },
        r matches Ok(v) ==> canonical(v@) && buildable(v@),
{
    match toml_read(text) {
        Ok(v) => {
            let r: TomlValue = toml_taken(v);
            proof {
                lemma_canonical(r@);
            }
            Ok(r)
        },
        Err(e) => Err(e),
    }
}

/// The words for a value that cannot be built.
pub const NO_VALUE: &'static str = "a float or a date-time that is none";

/// The text of a document, or the words of the error.
pub open spec fn toml_text_of(v: TomlModel) -> Result<Seq<char>, Seq<char>> {
    if buildable(v) {
        toml_render(built(v))
    } else {
        Err(NO_VALUE@)
    }
}

/// Whether `text` is a document of whole lines that reads as what is built of `v`,
/// where `v` is storable.
pub open spec fn reads_back(text: Seq<char>, v: TomlModel) -> bool {
    &&& !text.contains('\r')
    &&& text.len() == 0 || text.last() == '\n'
    &&& lines_from(text, v)
    &&& storable(v) ==> toml_parse(text) == Ok::<TomlModel, Seq<char>>(built(v))
}

/// Writes a TOML document. What is written of a storable table can be read again.
pub fn toml_text(v: &TomlValue) -> (r: Result<String, String>)
    ensures
        match r {
            Ok(s) => toml_text_of(v@) == Ok::<Seq<char>, Seq<char>>(s@),
            Err(e) => toml_text_of(v@) == Err::<Seq<char>, Seq<char>>(e@),
        },
        v@ is Table && buildable(v@) ==> r is Ok,
        r matches Ok(s) ==> reads_back(s@, v@),
{
    match toml_given(v) {
        Some(o) => {
            let r = toml_written(&o);
            proof {
                if storable(v@) {
                    lemma_built_under_header(v@, MAX_NESTING as nat);
                }
                if r is Ok {
                    let lines = text::lines_of(r->Ok_0@);
                    assert forall|i: int|
                        0 <= i < lines.len() && unmarked(#[trigger] lines[i]) implies lines[i].len()
                        == 0 || holds_line(v@, lines[i]) by {
                        if lines[i].len() > 0 {
                            lemma_built_line(v@, lines[i]);
                        }
                    }
                }
            }
            r
        },
        None => Err(NO_VALUE.to_string()),
    }
}

/// A key finds in a table the value that was put last under it, and nothing where no
/// entry has it; what is no table has no members. Strings and truth values are taken as
/// they are, and nothing else is taken for one.
pub proof fn law_toml_member(
    t: Seq<(Seq<char>, TomlModel)>,
    key: Seq<char>,
    value: TomlModel,
    k: Seq<char>,
    s: Seq<char>,
    b: bool,
)
    ensures
        toml_member(TomlModel::Table(t.push((key, value))), k) == if k == key {
            Some(value)
        } else {
            toml_member(TomlModel::Table(t), k)
        },
        toml_member(TomlModel::Table(Seq::empty()), k) is None,
        !(value is Table) ==> toml_member(value, k) is None,
        member_of(Some(value), k) == toml_member(value, k),
        member_of(None, k) is None,
        toml_string(Some(TomlModel::Str(s))) == Some(s),
        !(value is Str) ==> toml_string(Some(value)) is None,
        toml_string(None) is None,
        toml_bool(Some(TomlModel::Boolean(b))) == Some(b),
        !(value is Boolean) ==> toml_bool(Some(value)) is None,
        toml_bool(None) is None,
{
    entries::lemma_entry_push(t, key, value, k);
}

} // verus!
