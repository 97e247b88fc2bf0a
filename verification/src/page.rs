//! Pages: TOML front matter between two `+++` lines, and a markdown body.
use vstd::prelude::*;

use crate::entries;
use crate::failure::{CommandError, Failure};
use crate::text;
use crate::toml_value;
use crate::toml_value::{TomlModel, TomlValue};
use crate::translate;
use crate::translate::{Fields, Translatable};

verus! {

/// The line that stands before and after the front matter.
pub const FM_DELIM: &'static str = "+++";

// ---- splitting a page ----

/// Whether a line is the delimiter of front matter.
pub open spec fn is_fence(line: Seq<char>) -> bool {
    text::trim_of(line) == FM_DELIM@
}

/// Lines in a row, each with a line feed.
pub open spec fn unlines(l: Seq<Seq<char>>) -> Seq<char>
    decreases l.len(),
{
    if l.len() == 0 {
        Seq::empty()
    } else {
        unlines(l.drop_last()) + l.last().push('\n')
    }
}

/// The place of the first delimiter, or the number of lines.
pub open spec fn first_fence(l: Seq<Seq<char>>) -> int
    decreases l.len(),
{
    if l.len() == 0 || is_fence(l.first()) {
        0
    } else {
        1 + first_fence(l.drop_first())
    }
}

/// The front matter and the body of a page: the first line must be a delimiter,
/// and so must a later one. `path` is what a failure says of the page.
pub open spec fn split_of(path: Seq<char>, s: Seq<char>) -> Result<
    (Seq<char>, Seq<char>),
    Failure<Seq<char>>,
> {
    let l = text::lines_of(s);
    if l.len() == 0 || !is_fence(l[0]) {
        Err(Failure::FrontMatterMissing { path })
    } else {
        let rest = l.skip(1);
        let n = first_fence(rest);
        if n >= rest.len() {
            Err(Failure::FrontMatterOpen { path })
        } else {
            Ok((unlines(rest.take(n)), unlines(rest.skip(n + 1))))
        }
    }
}

/// What a page says: its front matter, read as TOML, and its body.
pub open spec fn page_of(path: Seq<char>, s: Seq<char>) -> Result<
    (TomlModel, Seq<char>),
    Failure<Seq<char>>,
> {
    match split_of(path, s) {
        Err(e) => Err(e),
        Ok((front, body)) => match toml_value::toml_parse(front) {
            Err(detail) => Err(Failure::FrontMatterParse { path, detail }),
            Ok(fm) => Ok((fm, body)),
        },
    }
}

proof fn lemma_first_fence(l: Seq<Seq<char>>, i: int)
    requires
        0 <= i <= l.len(),
        forall|j: int| 0 <= j < i ==> !is_fence(#[trigger] l[j]),
        i == l.len() || is_fence(l[i]),
    ensures
        first_fence(l) == i,
    decreases i,
{
    if i > 0 {
        assert(!is_fence(l[0]));
        assert(forall|j: int| 0 <= j < i - 1 ==> l.drop_first()[j] == l[j + 1]);
        lemma_first_fence(l.drop_first(), i - 1);
    }
}

fn fenced(line: &str) -> (b: bool)
    ensures
        b == is_fence(line@),
{
    text::same(text::trim(line).as_str(), FM_DELIM)
}

/// The lines from `from` up to `to`, each with a line feed.
fn put_together(lines: &Vec<String>, from: usize, to: usize) -> (s: String)
    requires
        from <= to <= lines@.len(),
    ensures
        s@ == unlines(text::views(lines@).subrange(from as int, to as int)),
{
    let ghost all = text::views(lines@);
    let mut s: String = String::new();
    assert(all.subrange(from as int, from as int) =~= Seq::<Seq<char>>::empty());
    for i in from..to
        invariant
            from <= to <= lines@.len(),
            all == text::views(lines@),
            s@ == unlines(all.subrange(from as int, i as int)),
    {
        proof {
            let l = all.subrange(from as int, i + 1);
            assert(l.drop_last() =~= all.subrange(from as int, i as int));
            assert(l.last() == lines@[i as int]@);
        }
        let ghost before = s@;
        s.append(lines[i].as_str());
        s.push('\n');
        assert(s@ =~= before + lines@[i as int]@.push('\n'));
    }
    s
}

/// Splits a page into its front matter and its body.
pub fn split_page(path: &str, s: &str) -> (r: Result<(String, String), CommandError>)
    ensures
        match r {
            Ok((front, body)) => split_of(path@, s@) == Ok::<
                (Seq<char>, Seq<char>),
                Failure<Seq<char>>,
            >((front@, body@)),
            Err(e) => split_of(path@, s@) == Err::<(Seq<char>, Seq<char>), Failure<Seq<char>>>(e@),
        },
{
    let lines: Vec<String> = text::lines(s);
    let ghost l = text::lines_of(s@);
    assert(lines@.len() == l.len());
    assert(forall|j: int| 0 <= j < l.len() ==> #[trigger] l[j] == lines@[j]@);
    if lines.len() == 0 || !fenced(lines[0].as_str()) {
        return Err(Failure::FrontMatterMissing { path: path.to_string() });
    }
    let ghost rest = l.skip(1);
    let mut i: usize = 1;
    while i < lines.len() && !fenced(lines[i].as_str())
        invariant
            1 <= i <= lines@.len(),
            lines@.len() == l.len(),
            rest == l.skip(1),
            forall|j: int| 0 <= j < l.len() ==> #[trigger] l[j] == lines@[j]@,
            forall|j: int| 0 <= j < i - 1 ==> !is_fence(#[trigger] rest[j]),
        decreases lines@.len() - i,
    {
        assert(rest[i - 1] == l[i as int]);
        i = i + 1;
    }
    proof {
        if i < lines@.len() {
            assert(rest[i - 1] == l[i as int]);
        }
        lemma_first_fence(rest, i - 1);
    }
    if i == lines.len() {
        return Err(Failure::FrontMatterOpen { path: path.to_string() });
    }
    proof {
        assert(rest.take(i - 1) =~= text::views(lines@).subrange(1, i as int));
        assert(rest.skip(i as int) =~= text::views(lines@).subrange(i + 1, l.len() as int));
    }
    Ok((put_together(&lines, 1, i), put_together(&lines, i + 1, lines.len())))
}

/// Reads a page: its front matter as TOML, and its body.
pub fn parse_page(path: &str, s: &str) -> (r: Result<(TomlValue, String), CommandError>)
    ensures
        match r {
            Ok((fm, body)) => page_of(path@, s@) == Ok::<
                (TomlModel, Seq<char>),
                Failure<Seq<char>>,
            >((fm@, body@)),
            Err(e) => page_of(path@, s@) == Err::<(TomlModel, Seq<char>), Failure<Seq<char>>>(e@),
        },
        r matches Ok((fm, _)) ==> toml_value::canonical(fm@) && toml_value::buildable(
            fm@,
        ),
{
    match split_page(path, s) {
        Err(e) => Err(e),
        Ok((front, body)) => match toml_value::parse_toml(front.as_str()) {
            Ok(fm) => Ok((fm, body)),
            Err(detail) => Err(Failure::FrontMatterParse { path: path.to_string(), detail }),
        },
    }
}

/// What was read says.
pub open spec fn read_view(read: Result<String, CommandError>) -> Result<
    Seq<char>,
    Failure<Seq<char>>,
> {
    match read {
        Ok(s) => Ok(s@),
        Err(e) => Err(e@),
    }
}

/// What the file of a page says, given what was read of it.
pub open spec fn file_of(path: Seq<char>, read: Result<Seq<char>, Failure<Seq<char>>>) -> Result<
    (TomlModel, Seq<char>),
    Failure<Seq<char>>,
> {
    match read {
        Err(e) => Err(e),
        Ok(s) => page_of(path, s),
    }
}

/// Reads a page, given what was read of its file.
pub fn parse_file(path: &str, read: Result<String, CommandError>) -> (r: Result<
    (TomlValue, String),
    CommandError,
>)
    ensures
        match r {
            Ok((fm, body)) => file_of(path@, read_view(read)) == Ok::<
                (TomlModel, Seq<char>),
                Failure<Seq<char>>,
            >((fm@, body@)),
            Err(e) => file_of(path@, read_view(read)) == Err::<
                (TomlModel, Seq<char>),
                Failure<Seq<char>>,
            >(e@),
        },
        r matches Ok((fm, _)) ==> toml_value::canonical(fm@) && toml_value::buildable(
            fm@,
        ),
{
    match read {
        Ok(s) => parse_page(path, s.as_str()),
        Err(e) => Err(e),
    }
}

// ---- reading front matter ----

/// The string under `key`, or nothing.
pub open spec fn str_of(fm: TomlModel, key: Seq<char>) -> Seq<char> {
    match toml_value::toml_string(toml_value::toml_member(fm, key)) {
        Some(s) => s,
        None => Seq::empty(),
    }
}

/// The value under `key` in the table `extra`.
pub open spec fn extra_of(fm: TomlModel, key: Seq<char>) -> Option<TomlModel> {
    toml_value::member_of(toml_value::toml_member(fm, "extra"@), key)
}

/// A text without white space around it, where anything is left.
pub open spec fn inked(s: Seq<char>) -> Option<Seq<char>> {
    if text::trim_of(s).len() > 0 {
        Some(text::trim_of(s))
    } else {
        None
    }
}

/// A string without white space around it, where anything is left.
pub open spec fn inked_string(v: Option<TomlModel>) -> Option<Seq<char>> {
    match v {
        Some(TomlModel::Str(s)) => inked(s),
        _ => None,
    }
}

/// The strings of an array that hold any ink, trimmed, in order.
pub open spec fn inked_strings(a: Seq<TomlModel>) -> Seq<Seq<char>>
    decreases a.len(),
{
    if a.len() == 0 {
        Seq::empty()
    } else {
        match inked_string(Some(a.last())) {
            Some(s) => inked_strings(a.drop_last()).push(s),
            None => inked_strings(a.drop_last()),
        }
    }
}

/// A list of strings, or a single string as a list of one.
pub open spec fn string_list_of(v: Option<TomlModel>) -> Seq<Seq<char>> {
    match v {
        Some(TomlModel::Str(s)) => match inked(s) {
            Some(t) => seq![t],
            None => Seq::empty(),
        },
        Some(TomlModel::Array(a)) => inked_strings(a),
        _ => Seq::empty(),
    }
}

/// A date: a string with any ink, trimmed, or a date-time.
pub open spec fn date_of(fm: TomlModel, key: Seq<char>) -> Option<Seq<char>> {
    match toml_value::toml_member(fm, key) {
        Some(TomlModel::Str(s)) => inked(s),
        Some(TomlModel::Datetime(d)) => Some(d),
        _ => None,
    }
}

/// The string under `key`, or nothing.
pub fn get_str(fm: &TomlValue, key: &str) -> (s: String)
    ensures
        s@ == str_of(fm@, key@),
{
    match fm.get(key) {
        Some(v) => match v.as_str() {
            Some(s) => s.to_string(),
            None => String::new(),
        },
        None => String::new(),
    }
}

/// The value under `key` in the table `extra`.
pub fn extra<'a>(fm: &'a TomlValue, key: &str) -> (r: Option<&'a TomlValue>)
    ensures
        match r {
            Some(v) => extra_of(fm@, key@) == Some(v@),
            None => extra_of(fm@, key@) is None,
        },
{
    match fm.get("extra") {
        Some(e) => e.get(key),
        None => None,
    }
}

/// A text without white space around it, where anything is left.
pub fn trimmed(s: &str) -> (r: Option<String>)
    ensures
        text::opt_view(r) == inked(s@),
{
    let t: String = text::trim(s);
    if t.as_str().is_empty() {
        None
    } else {
        Some(t)
    }
}

/// The source hash that a translated page carries.
pub fn extra_hash(fm: &TomlValue) -> (r: Option<String>)
    ensures
        text::opt_view(r) == toml_value::toml_string(extra_of(fm@, "source_hash"@)),
{
    match extra(fm, "source_hash") {
        Some(v) => match v.as_str() {
            Some(s) => Some(s.to_string()),
            None => None,
        },
        None => None,
    }
}

/// The truth value under `key` in the table `extra`.
pub fn extra_bool(fm: &TomlValue, key: &str) -> (r: Option<bool>)
    ensures
        r == toml_value::toml_bool(extra_of(fm@, key@)),
{
    match extra(fm, key) {
        Some(TomlValue::Boolean(b)) => Some(*b),
        _ => None,
    }
}

/// The string under `key` in the table `extra`, trimmed, where it holds any ink.
pub fn extra_str(fm: &TomlValue, key: &str) -> (r: Option<String>)
    ensures
        text::opt_view(r) == inked_string(extra_of(fm@, key@)),
{
    match extra(fm, key) {
        Some(TomlValue::Str(s)) => trimmed(s.as_str()),
        _ => None,
    }
}

/// The strings of an array that hold any ink, trimmed.
pub fn trimmed_strings(v: &TomlValue) -> (out: Vec<String>)
    ensures
        text::views(out@) == match v@ {
            TomlModel::Array(a) => inked_strings(a),
            _ => Seq::empty(),
        },
{
    let mut out: Vec<String> = Vec::new();
    assert(text::views(out@) =~= Seq::<Seq<char>>::empty());
    match v {
        TomlValue::Array(a) => {
            let ghost all = v@->Array_0;
            proof {
                toml_value::lemma_toml_items(*v);
                assert(all.take(0) =~= Seq::<TomlModel>::empty());
            }
            for i in 0..a.len()
                invariant
                    all.len() == a@.len(),
                    forall|j: int| 0 <= j < a@.len() ==> #[trigger] all[j] == a@[j]@,
                    text::views(out@) == inked_strings(all.take(i as int)),
            {
                proof {
                    assert(all.take(i + 1).drop_last() =~= all.take(i as int));
                    assert(all.take(i + 1).last() == a@[i as int]@);
                }
                let ghost before = out@;
                match &a[i] {
                    TomlValue::Str(s) => match trimmed(s.as_str()) {
                        Some(t) => {
                            out.push(t);
                            assert(text::views(out@) =~= text::views(before).push(t@));
                        },
                        None => {},
                    },
                    _ => {},
                }
            }
            assert(all.take(all.len() as int) =~= all);
        },
        _ => {},
    }
    out
}

/// The strings under `key` in the table `extra`: those of a list, or a single one.
pub fn extra_string_list(fm: &TomlValue, key: &str) -> (out: Vec<String>)
    ensures
        text::views(out@) == string_list_of(extra_of(fm@, key@)),
{
    match extra(fm, key) {
        None => {
            let out: Vec<String> = Vec::new();
            assert(text::views(out@) =~= Seq::<Seq<char>>::empty());
            out
        },
        Some(v) => match v {
            TomlValue::Str(s) => {
                let mut out: Vec<String> = Vec::new();
                match trimmed(s.as_str()) {
                    Some(t) => {
                        out.push(t);
                    },
                    None => {},
                }
                assert(text::views(out@) =~= string_list_of(extra_of(fm@, key@)));
                out
            },
            _ => trimmed_strings(v),
        },
    }
}

/// The date under `key`.
pub fn fm_date(fm: &TomlValue, key: &str) -> (r: Option<String>)
    ensures
        text::opt_view(r) == date_of(fm@, key@),
{
    match fm.get(key) {
        Some(TomlValue::Str(s)) => trimmed(s.as_str()),
        Some(TomlValue::Datetime(d)) => Some(d.clone()),
        _ => None,
    }
}

/// What a page gives to translate: its title, its description and its trimmed
/// body.
pub open spec fn source_of(fm: TomlModel, body: Seq<char>) -> Fields {
    Fields {
        title: str_of(fm, "title"@),
        description: str_of(fm, "description"@),
        body: text::trim_of(body),
    }
}

/// What a page gives to translate.
pub fn page_source(fm: &TomlValue, body: &str) -> (t: Translatable)
    ensures
        t@ == source_of(fm@, body@),
{
    Translatable {
        title: get_str(fm, "title"),
        description: get_str(fm, "description"),
        body: text::trim(body),
    }
}

// ---- writing a translated page ----

/// The table `extra` of a translated page: that of the source, with the source
/// hash in it. Something else than a table stays as it is.
pub open spec fn sibling_extra(extra: Option<TomlModel>, hash: Seq<char>) -> TomlModel {
    match extra {
        None => TomlModel::Table(seq![("source_hash"@, TomlModel::Str(hash))]),
        Some(TomlModel::Table(e)) => TomlModel::Table(
            e.push(("source_hash"@, TomlModel::Str(hash))),
        ),
        Some(other) => other,
    }
}

/// The front matter of a translated page: that of the source, with the
/// translated title and description, and the source hash. An entry further back
/// takes the place of one before it.
pub open spec fn sibling_front(fm: TomlModel, t: Fields, hash: Seq<char>) -> TomlModel {
    match fm {
        TomlModel::Table(entries) => TomlModel::Table(
            entries.push(("title"@, TomlModel::Str(t.title))).push(
                ("description"@, TomlModel::Str(t.description)),
            ).push(("extra"@, sibling_extra(toml_value::toml_member(fm, "extra"@), hash))),
        ),
        other => other,
    }
}

/// The text of a page.
pub open spec fn page_text(front: Seq<char>, body: Seq<char>) -> Seq<char> {
    "+++\n"@ + front + "+++\n\n"@ + text::trim_end_of(body) + "\n"@
}

/// The text of a translated page, or the failure to write its front matter.
pub open spec fn sibling_of(fm: TomlModel, t: Fields, hash: Seq<char>) -> Result<
    Seq<char>,
    Failure<Seq<char>>,
> {
    match toml_value::toml_text_of(sibling_front(fm, t, hash)) {
        Ok(front) => Ok(page_text(front, t.body)),
        Err(e) => Err(Failure::FrontMatterWrite(e)),
    }
}

fn copy_entries(t: &Vec<(String, TomlValue)>) -> (out: Vec<(String, TomlValue)>)
    ensures
        out@.len() == t@.len(),
        forall|j: int|
            0 <= j < t@.len() ==> (#[trigger] out@[j]).0@ == t@[j].0@ && out@[j].1@ == t@[j].1@,
{
    let mut out: Vec<(String, TomlValue)> = Vec::new();
    for i in 0..t.len()
        invariant
            out@.len() == i,
            forall|j: int|
                0 <= j < i ==> (#[trigger] out@[j]).0@ == t@[j].0@ && out@[j].1@ == t@[j].1@,
    {
        out.push((t[i].0.clone(), t[i].1.duplicate()));
    }
    out
}

fn extra_with_hash(found: Option<&TomlValue>, hash: &str) -> (v: TomlValue)
    ensures
        v@ == sibling_extra(
            match found {
                Some(e) => Some(e@),
                None => None,
            },
            hash@,
        ),
{
    match found {
        None => {
            let mut e: Vec<(String, TomlValue)> = Vec::new();
            e.push(("source_hash".to_string(), TomlValue::Str(hash.to_string())));
            let v: TomlValue = TomlValue::Table(e);
            proof {
                toml_value::lemma_toml_entries(v);
                assert(v@->Table_0 =~= seq![("source_hash"@, TomlModel::Str(hash@))]);
            }
            v
        },
        Some(w) => match w {
            TomlValue::Table(old) => {
                let mut e: Vec<(String, TomlValue)> = copy_entries(old);
                e.push(("source_hash".to_string(), TomlValue::Str(hash.to_string())));
                let v: TomlValue = TomlValue::Table(e);
                proof {
                    toml_value::lemma_toml_entries(*w);
                    toml_value::lemma_toml_entries(v);
                    assert(v@->Table_0 =~= w@->Table_0.push(
                        ("source_hash"@, TomlModel::Str(hash@)),
                    ));
                }
                v
            },
            other => other.duplicate(),
        },
    }
}

/// The front matter of a translated page.
pub fn sibling_front_matter(fm: &TomlValue, t: &Translatable, hash: &str) -> (v: TomlValue)
    ensures
        v@ == sibling_front(fm@, t@, hash@),
{
    match fm {
        TomlValue::Table(old) => {
            let mut e: Vec<(String, TomlValue)> = copy_entries(old);
            e.push(("title".to_string(), TomlValue::Str(t.title.clone())));
            e.push(("description".to_string(), TomlValue::Str(t.description.clone())));
            let extra: TomlValue = extra_with_hash(fm.get("extra"), hash);
            e.push(("extra".to_string(), extra));
            let v: TomlValue = TomlValue::Table(e);
            proof {
                toml_value::lemma_toml_entries(*fm);
                toml_value::lemma_toml_entries(v);
                assert(v@->Table_0 =~= sibling_front(fm@, t@, hash@)->Table_0);
            }
            v
        },
        other => other.duplicate(),
    }
}

// ---- what is read of a written page ----

proof fn lemma_lines_concat(a: Seq<char>, b: Seq<char>)
    requires
        a.len() == 0 || a.last() == '\n',
    ensures
        text::lines_of(a + b) == text::lines_of(a) + text::lines_of(b),
    decreases a.len(),
{
    if a.len() == 0 {
        assert(a + b =~= b);
        assert(text::lines_of(a) + text::lines_of(b) =~= text::lines_of(b));
    } else {
        let n = text::position_of(a, '\n');
        text::lemma_position_found(a, '\n');
        assert(a[a.len() - 1] == '\n');
        assert(n < a.len());
        assert forall|j: int| 0 <= j < n implies #[trigger] (a + b)[j] != '\n' by {
            assert((a + b)[j] == a[j]);
        }
        text::lemma_position_at(a + b, '\n', n);
        assert((a + b).take(n) =~= a.take(n));
        assert((a + b).skip(n + 1) =~= a.skip(n + 1) + b);
        let rest = a.skip(n + 1);
        assert(rest.len() > 0 ==> rest.last() == a.last());
        lemma_lines_concat(rest, b);
        let head = seq![text::without_cr(a.take(n))];
        assert(head + (text::lines_of(rest) + text::lines_of(b)) =~= head + text::lines_of(rest)
            + text::lines_of(b));
    }
}

proof fn lemma_unlines_cons(head: Seq<char>, l: Seq<Seq<char>>)
    ensures
        unlines(seq![head] + l) == head.push('\n') + unlines(l),
    decreases l.len(),
{
    let all = seq![head] + l;
    if l.len() == 0 {
        reveal_with_fuel(unlines, 2);
        assert(all.drop_last() =~= Seq::<Seq<char>>::empty());
        assert(unlines(all) =~= head.push('\n') + unlines(l));
    } else {
        assert(all.drop_last() =~= seq![head] + l.drop_last());
        lemma_unlines_cons(head, l.drop_last());
        assert(unlines(all) =~= head.push('\n') + unlines(l));
    }
}

/// A text of whole lines without carriage returns is its lines, each with a line
/// feed.
proof fn lemma_unlines_lines(s: Seq<char>)
    requires
        !s.contains('\r'),
        s.len() == 0 || s.last() == '\n',
    ensures
        unlines(text::lines_of(s)) == s,
    decreases s.len(),
{
    if s.len() > 0 {
        let n = text::position_of(s, '\n');
        text::lemma_position_found(s, '\n');
        assert(s[s.len() - 1] == '\n');
        let line = s.take(n);
        let rest = s.skip(n + 1);
        if line.len() > 0 {
            assert(line.last() == s[n - 1]);
            assert(s.contains(s[n - 1]));
        }
        assert forall|c: char| rest.contains(c) implies s.contains(c) by {
            let i = choose|i: int| 0 <= i < rest.len() && rest[i] == c;
            assert(s[i + n + 1] == c);
        }
        assert(rest.len() > 0 ==> rest.last() == s.last());
        lemma_unlines_lines(rest);
        lemma_unlines_cons(line, text::lines_of(rest));
        assert(line.push('\n') + rest =~= s);
    }
}

proof fn lemma_one_line(line: Seq<char>)
    requires
        !line.contains('\n'),
        line.len() == 0 || line.last() != '\r',
    ensures
        text::lines_of(line.push('\n')) == seq![line],
{
    let s = line.push('\n');
    assert forall|j: int| 0 <= j < line.len() implies #[trigger] s[j] != '\n' by {
        assert(line.contains(line[j]));
    }
    text::lemma_position_at(s, '\n', line.len() as int);
    assert(s.take(line.len() as int) =~= line);
    assert(s.skip(line.len() as int + 1) =~= Seq::<char>::empty());
    assert(seq![line] + text::lines_of(Seq::<char>::empty()) =~= seq![line]);
}

proof fn lemma_delimiter()
    ensures
        is_fence("+++"@),
        text::lines_of("+++\n"@) == seq!["+++"@],
        text::lines_of("\n"@) == seq![Seq::<char>::empty()],
        "+++\n\n"@ == "+++\n"@ + "\n"@,
        "\n"@ == seq!['\n'],
        "+++\n"@.len() > 0,
        "+++\n"@.last() == '\n',
{
    reveal_strlit("+++");
    reveal_strlit("+++\n");
    reveal_strlit("\n");
    reveal_strlit("+++\n\n");
    let plus = "+++"@;
    assert(!text::white_space('+'));
    assert(text::trim_of(plus) == plus);
    assert("+++\n"@ =~= plus.push('\n'));
    assert(forall|i: int| 0 <= i < plus.len() ==> plus[i] == '+');
    lemma_one_line(plus);
    let none = Seq::<char>::empty();
    assert("\n"@ =~= none.push('\n'));
    lemma_one_line(none);
    assert("+++\n\n"@ =~= "+++\n"@ + "\n"@);
}

/// What is read of a written page: its front matter as it was written, and its
/// body with all of its ink. A body without carriage returns is the same but for
/// white space around it. The front matter has whole lines, none of which is a
/// delimiter, and no carriage return.
pub proof fn law_written_page_splits(path: Seq<char>, front: Seq<char>, body: Seq<char>)
    requires
        !front.contains('\r'),
        front.len() == 0 || front.last() == '\n',
        forall|i: int|
            0 <= i < text::lines_of(front).len() ==> !is_fence(
                #[trigger] text::lines_of(front)[i],
            ),
    ensures
        split_of(path, page_text(front, body)) matches Ok((f, b)) && {
            &&& f == front
            &&& text::ink_of(b) == text::ink_of(body)
            &&& !body.contains('\r') ==> text::trim_of(b) == text::trim_of(body)
        },
{
    lemma_delimiter();
    let ended = text::trim_end_of(body);
    let tail = ended.push('\n');
    let open = "+++\n"@;
    let close = "+++\n"@;
    let blank = "\n"@;
    let s = page_text(front, body);
    let after = blank + tail;
    assert(s =~= open + (front + (close + after)));
    lemma_lines_concat(open, front + (close + after));
    lemma_lines_concat(front, close + after);
    lemma_lines_concat(close, after);
    let l = text::lines_of(s);
    let inner = text::lines_of(front);
    let outer = text::lines_of(after);
    assert(l =~= seq!["+++"@] + (inner + (seq!["+++"@] + outer)));
    let rest = l.skip(1);
    let n = inner.len() as int;
    assert(rest =~= inner + (seq!["+++"@] + outer));
    assert forall|j: int| 0 <= j < n implies !is_fence(#[trigger] rest[j]) by {
        assert(rest[j] == inner[j]);
    }
    lemma_first_fence(rest, n);
    assert(rest.take(n) =~= inner);
    assert(rest.skip(n + 1) =~= outer);
    lemma_unlines_lines(front);
    let b = unlines(outer);
    lemma_ink_unlines(after);
    let nothing = Seq::<char>::empty();
    text::lemma_ink_of_blank(blank);
    text::lemma_ink_concat(blank, tail);
    text::lemma_ink_concat(ended, blank);
    assert(tail =~= ended + blank);
    text::lemma_ink_trim_end(body);
    assert(nothing + (text::ink_of(ended) + nothing) =~= text::ink_of(ended));
    if !body.contains('\r') {
        text::lemma_trim_end_prefix(body);
        assert forall|c: char| after.contains(c) && c != '\n' implies body.contains(c) by {
            let i = choose|i: int| 0 <= i < after.len() && after[i] == c;
            assert(after[i] == ended[i - 1]);
            assert(body[i - 1] == c);
        }
        lemma_unlines_lines(after);
        text::lemma_trim_padded(body);
        assert(after =~= seq!['\n'] + ended + seq!['\n']);
    }
}

proof fn lemma_ink_unlines(s: Seq<char>)
    ensures
        text::ink_of(unlines(text::lines_of(s))) == text::ink_of(s),
{
    lemma_ink_rows(text::lines_of(s));
    text::lemma_ink_lines(s);
}

proof fn lemma_ink_rows(l: Seq<Seq<char>>)
    ensures
        text::ink_of(unlines(l)) == text::ink_of(text::concat_of(l)),
    decreases l.len(),
{
    if l.len() > 0 {
        lemma_ink_rows(l.drop_last());
        let end = seq!['\n'];
        assert(l.last().push('\n') =~= l.last() + end);
        text::lemma_ink_of_blank(end);
        text::lemma_ink_concat(l.last(), end);
        assert(text::ink_of(l.last()) + Seq::<char>::empty() =~= text::ink_of(l.last()));
        text::lemma_ink_concat(unlines(l.drop_last()), l.last().push('\n'));
        text::lemma_ink_concat(text::concat_of(l.drop_last()), l.last());
    }
}

/// Whether a page carries a source hash.
pub open spec fn carries(path: Seq<char>, s: Seq<char>, hash: Seq<char>) -> bool {
    page_of(path, s) matches Ok((fm, _)) && toml_value::toml_string(extra_of(fm, "source_hash"@))
        == Some(hash)
}

/// Whether front matter can carry a source hash: it is a table whose `extra`, if
/// it has one, is a table too.
pub open spec fn can_carry_hash(fm: TomlModel) -> bool {
    &&& fm is Table
    &&& toml_value::toml_member(fm, "extra"@) matches Some(e) ==> e is Table
}

/// Whether no line of a text is a delimiter.
pub open spec fn without_fence(front: Seq<char>) -> bool {
    forall|i: int|
        0 <= i < text::lines_of(front).len() ==> !is_fence(#[trigger] text::lines_of(front)[i])
}

/// The front matter of a translated page says what it is told to.
pub proof fn law_sibling_front_says(fm: TomlModel, t: Fields, hash: Seq<char>)
    requires
        fm is Table,
    ensures
        toml_value::toml_string(toml_value::toml_member(sibling_front(fm, t, hash), "title"@))
            == Some(t.title),
        toml_value::toml_string(toml_value::toml_member(sibling_front(fm, t, hash), "description"@))
            == Some(t.description),
        can_carry_hash(fm) ==> toml_value::toml_string(
            extra_of(sibling_front(fm, t, hash), "source_hash"@),
        ) == Some(hash),
        forall|key: Seq<char>|
            key != "title"@ && key != "description"@ && key != "extra"@
                ==> #[trigger] toml_value::toml_member(sibling_front(fm, t, hash), key)
                == toml_value::toml_member(fm, key),
        forall|key: Seq<char>|
            key != "source_hash"@ ==> #[trigger] extra_of(sibling_front(fm, t, hash), key)
                == extra_of(fm, key),
{
    reveal_strlit("title");
    reveal_strlit("description");
    reveal_strlit("extra");
    assert("title"@[0] != "extra"@[0]);
    let e0 = fm->Table_0;
    let e1 = e0.push(("title"@, TomlModel::Str(t.title)));
    let e2 = e1.push(("description"@, TomlModel::Str(t.description)));
    let x = sibling_extra(toml_value::toml_member(fm, "extra"@), hash);
    assert forall|key: Seq<char>| true implies #[trigger] toml_value::toml_member(
        sibling_front(fm, t, hash),
        key,
    ) == if key == "extra"@ {
        Some(x)
    } else if key == "description"@ {
        Some(TomlModel::Str(t.description))
    } else if key == "title"@ {
        Some(TomlModel::Str(t.title))
    } else {
        toml_value::toml_member(fm, key)
    } by {
        entries::lemma_entry_push(e0, "title"@, TomlModel::Str(t.title), key);
        entries::lemma_entry_push(e1, "description"@, TomlModel::Str(t.description), key);
        entries::lemma_entry_push(e2, "extra"@, x, key);
    }
    let mark = TomlModel::Str(hash);
    let none = Seq::<(Seq<char>, TomlModel)>::empty();
    assert forall|key: Seq<char>| key != "source_hash"@ implies #[trigger] extra_of(
        sibling_front(fm, t, hash),
        key,
    ) == extra_of(fm, key) by {
        match toml_value::toml_member(fm, "extra"@) {
            Some(TomlModel::Table(e)) => {
                entries::lemma_entry_push(e, "source_hash"@, mark, key);
            },
            None => {
                entries::lemma_entry_push(none, "source_hash"@, mark, key);
                assert(none.push(("source_hash"@, mark)) =~= seq![("source_hash"@, mark)]);
            },
            _ => {},
        }
    }
    match toml_value::toml_member(fm, "extra"@) {
        Some(TomlModel::Table(e)) => {
            entries::lemma_entry_push(e, "source_hash"@, mark, "source_hash"@);
        },
        None => {
            entries::lemma_entry_push(none, "source_hash"@, mark, "source_hash"@);
            assert(none.push(("source_hash"@, mark)) =~= seq![("source_hash"@, mark)]);
        },
        _ => {},
    }
}

/// The front matter of a translated page is storable where that of the source is.
proof fn lemma_sibling_front_storable(fm: TomlModel, t: Fields, hash: Seq<char>)
    requires
        toml_value::storable(fm),
    ensures
        toml_value::storable(sibling_front(fm, t, hash)),
{
    reveal_strlit("title");
    reveal_strlit("description");
    reveal_strlit("extra");
    reveal_strlit("source_hash");
    reveal_strlit("$__toml_private_datetime");
    assert(toml_value::PRIVATE_KEY@.len() == 24);
    assert("description"@.len() == 11);
    assert("source_hash"@.len() == 11);
    let keys = toml_value::MAX_NESTING as nat;
    let less = (keys - 1) as nat;
    let e = fm->Table_0;
    let found = toml_value::toml_member(fm, "extra"@);
    let x = sibling_extra(found, hash);
    let all = sibling_front(fm, t, hash)->Table_0;
    let mark = TomlModel::Str(hash);
    assert(toml_value::in_table(mark, less));
    if found is Some {
        let i = entries::lemma_entry_found(e, "extra"@);
        assert(toml_value::in_table(e[i].1, keys));
    }
    if x is Table {
        let new = x->Table_0;
        if found is Some {
            let old = found->0->Table_0;
            assert(toml_value::under_header(TomlModel::Table(old), less));
            assert forall|j: int| 0 <= j < new.len() implies (#[trigger] new[j]).0
                != toml_value::PRIVATE_KEY@ && toml_value::in_table(new[j].1, less) by {
                if j < old.len() {
                    assert(new[j] == old[j]);
                }
            }
        }
        assert(toml_value::under_header(x, less));
    }
    assert(toml_value::in_table(x, keys));
    assert forall|j: int| 0 <= j < all.len() implies (#[trigger] all[j]).0
        != toml_value::PRIVATE_KEY@ && toml_value::in_table(all[j].1, keys) by {
        if j < e.len() {
            assert(all[j] == e[j]);
        }
    }
}

/// The front matter of a translated page can be built where that of the source can.
proof fn lemma_sibling_front_buildable(fm: TomlModel, t: Fields, hash: Seq<char>)
    requires
        toml_value::buildable(fm),
    ensures
        toml_value::buildable(sibling_front(fm, t, hash)),
{
    if fm is Table {
        let e = fm->Table_0;
        let found = toml_value::toml_member(fm, "extra"@);
        let x = sibling_extra(found, hash);
        let all = sibling_front(fm, t, hash)->Table_0;
        assert(toml_value::buildable(x)) by {
            reveal_with_fuel(toml_value::buildable, 2);
            if found is Some {
                let i = entries::lemma_entry_found(e, "extra"@);
                assert(toml_value::buildable(e[i].1));
                if found->0 is Table {
                    let old = found->0->Table_0;
                    let new = x->Table_0;
                    assert forall|j: int| 0 <= j < new.len() implies toml_value::buildable(
                        (#[trigger] new[j]).1,
                    ) by {
                        if j < old.len() {
                            assert(new[j] == old[j]);
                        }
                    }
                }
            }
        }
        assert forall|j: int| 0 <= j < all.len() implies toml_value::buildable(
            (#[trigger] all[j]).1,
        ) by {
            if j < e.len() {
                assert(all[j] == e[j]);
            }
        }
    }
}

/// Whether no line of a string in the front matter of the source, in the title or in
/// the description is a delimiter.
pub open spec fn strings_fence_free(fm: TomlModel, t: Fields) -> bool {
    forall|line: Seq<char>| #[trigger]
        is_fence(line) ==> {
            &&& !toml_value::holds_line(fm, line)
            &&& !toml_value::ended_line(t.title, line)
            &&& !toml_value::ended_line(t.description, line)
        }
}

/// Whether no such line, and none of the hash, is a delimiter.
pub open spec fn fence_free(fm: TomlModel, t: Fields, hash: Seq<char>) -> bool {
    &&& strings_fence_free(fm, t)
    &&& forall|line: Seq<char>| #[trigger]
        is_fence(line) ==> !toml_value::ended_line(hash, line)
}

/// Whether the front matter of a translated page is written without a line that is
/// a delimiter. It is, where no string that goes into it has such a line.
pub open spec fn unfenced(fm: TomlModel, t: Fields, hash: Seq<char>) -> bool {
    fence_free(fm, t, hash) || without_fence(
        toml_value::toml_text_of(sibling_front(fm, t, hash))->Ok_0,
    )
}

/// A line in a string of the front matter of a translated page was in the front
/// matter of the source, the title, the description or the hash.
proof fn lemma_sibling_front_line(fm: TomlModel, t: Fields, hash: Seq<char>, line: Seq<char>)
    requires
        toml_value::holds_line(sibling_front(fm, t, hash), line),
    ensures
        toml_value::holds_line(fm, line) || toml_value::ended_line(t.title, line)
            || toml_value::ended_line(t.description, line) || toml_value::ended_line(hash, line),
{
    if fm is Table {
        reveal_with_fuel(toml_value::holds_line, 3);
        let e = fm->Table_0;
        let found = toml_value::toml_member(fm, "extra"@);
        let x = sibling_extra(found, hash);
        let all = sibling_front(fm, t, hash)->Table_0;
        let i = choose|i: int|
            0 <= i < all.len() && toml_value::holds_line((#[trigger] all[i]).1, line);
        if i < e.len() {
            assert(all[i] == e[i]);
        } else if i == e.len() + 2 {
            assert(all[i].1 == x);
            if found is Some {
                let k = entries::lemma_entry_found(e, "extra"@);
                assert(e[k].1 == found->0);
                if found->0 is Table {
                    let old = found->0->Table_0;
                    let new = x->Table_0;
                    let j = choose|j: int|
                        0 <= j < new.len() && toml_value::holds_line((#[trigger] new[j]).1, line);
                    if j < old.len() {
                        assert(new[j] == old[j]);
                        assert(toml_value::holds_line(e[k].1, line));
                    }
                }
            }
        }
    }
}

/// A delimiter has none of the marks of TOML.
proof fn lemma_fence_is_unmarked(line: Seq<char>)
    requires
        is_fence(line),
    ensures
        toml_value::unmarked(line),
        line.len() > 0,
{
    reveal_strlit("+++");
    let plus = "+++"@;
    let p = |c: char| !text::white_space(c);
    text::lemma_ink_trim(line);
    assert forall|i: int| 0 <= i < line.len() && #[trigger] line[i] != '+' implies text::white_space(
        line[i],
    ) by {
        if !text::white_space(line[i]) {
            line.lemma_filter_contains(p, i);
            assert(text::ink_of(line).contains(line[i]));
            plus.lemma_filter_contains_rev(p, line[i]);
        }
    }
    if line.len() == 0 {
        assert(text::trim_of(line) =~= line);
    }
}

/// Front matter without a delimiter in its strings is written without one.
proof fn lemma_front_unfenced(fm: TomlModel, t: Fields, hash: Seq<char>, front: Seq<char>)
    requires
        toml_value::reads_back(front, sibling_front(fm, t, hash)),
        fence_free(fm, t, hash),
    ensures
        without_fence(front),
{
    let lines = text::lines_of(front);
    assert forall|i: int| 0 <= i < lines.len() implies !is_fence(#[trigger] lines[i]) by {
        if is_fence(lines[i]) {
            lemma_fence_is_unmarked(lines[i]);
            lemma_sibling_front_line(fm, t, hash, lines[i]);
        }
    }
}

/// Whether front matter says what that of the source said, but for the title, the
/// description and the source hash.
pub open spec fn keeps_rest(fm: TomlModel, back: TomlModel) -> bool {
    &&& forall|key: Seq<char>|
        key != "title"@ && key != "description"@ && key != "extra"@
            ==> #[trigger] toml_value::toml_member(back, key) == toml_value::toml_member(fm, key)
    &&& forall|key: Seq<char>|
        key != "source_hash"@ ==> #[trigger] extra_of(back, key) == extra_of(fm, key)
}

/// What is built of the front matter of a translated page says what it is told to,
/// and otherwise what the source said.
proof fn lemma_built_front(fm: TomlModel, t: Fields, hash: Seq<char>)
    requires
        can_carry_hash(fm),
    ensures
        ({
            let back = toml_value::built(sibling_front(fm, t, hash));
            &&& str_of(back, "title"@) == t.title
            &&& str_of(back, "description"@) == t.description
            &&& toml_value::toml_string(extra_of(back, "source_hash"@)) == Some(hash)
            &&& toml_value::canonical(fm) ==> keeps_rest(fm, back)
        }),
{
    law_sibling_front_says(fm, t, hash);
    let front = sibling_front(fm, t, hash);
    let back = toml_value::built(front);
    let e = fm->Table_0;
    let found = toml_value::toml_member(fm, "extra"@);
    let x = sibling_extra(found, hash);
    let inner = x->Table_0;
    reveal_strlit("title");
    reveal_strlit("description");
    reveal_strlit("extra");
    entries::lemma_entry_push(front->Table_0.drop_last(), "extra"@, x, "extra"@);
    assert(front->Table_0.drop_last().push(("extra"@, x)) =~= front->Table_0);
    assert(toml_value::toml_member(front, "extra"@) == Some(x));
    toml_value::lemma_built_member(front->Table_0, "title"@);
    toml_value::lemma_built_member(front->Table_0, "description"@);
    toml_value::lemma_built_member(front->Table_0, "extra"@);
    toml_value::lemma_built_member(inner, "source_hash"@);
    assert(x == TomlModel::Table(inner));
    if toml_value::canonical(fm) {
        assert forall|key: Seq<char>|
            key != "title"@ && key != "description"@ && key
                != "extra"@ implies #[trigger] toml_value::toml_member(back, key)
            == toml_value::toml_member(fm, key) by {
            toml_value::lemma_built_member(front->Table_0, key);
            assert(toml_value::toml_member(front, key) == toml_value::toml_member(fm, key));
            if toml_value::toml_member(fm, key) is Some {
                let i = entries::lemma_entry_found(e, key);
                toml_value::lemma_canonical(e[i].1);
            }
        }
        assert forall|key: Seq<char>| key != "source_hash"@ implies #[trigger] extra_of(back, key)
            == extra_of(fm, key) by {
            toml_value::lemma_built_member(inner, key);
            assert(extra_of(front, key) == extra_of(fm, key));
            if extra_of(fm, key) is Some {
                let i = entries::lemma_entry_found(e, "extra"@);
                assert(toml_value::canonical(e[i].1));
                let old = found->0->Table_0;
                let j = entries::lemma_entry_found(old, key);
                assert(toml_value::canonical(TomlModel::Table(old)));
                toml_value::lemma_canonical(old[j].1);
            }
        }
    }
}

/// Whether a page is read as a translation: it says `t`, its body up to white
/// space, and carries the source hash. Every other key of its front matter and of
/// `extra` says what it said in the front matter of the source, where that is as it
/// was read.
pub open spec fn reads_as(
    path: Seq<char>,
    s: Seq<char>,
    fm: TomlModel,
    t: Fields,
    hash: Seq<char>,
) -> bool {
    &&& carries(path, s, hash)
    &&& page_of(path, s) matches Ok((back, body)) && {
        &&& back == toml_value::built(sibling_front(fm, t, hash))
        &&& str_of(back, "title"@) == t.title
        &&& str_of(back, "description"@) == t.description
        &&& toml_value::canonical(fm) ==> keeps_rest(fm, back)
        &&& text::ink_of(body) == text::ink_of(t.body)
        &&& !t.body.contains('\r') ==> text::trim_of(body) == text::trim_of(t.body)
    }
}

/// What is read of a translated page, where the front matter that was written can
/// be read back.
proof fn lemma_sibling_reads_back(
    path: Seq<char>,
    fm: TomlModel,
    t: Fields,
    hash: Seq<char>,
    front: Seq<char>,
)
    requires
        can_carry_hash(fm),
        toml_value::storable(fm),
        toml_value::reads_back(front, sibling_front(fm, t, hash)),
        without_fence(front),
    ensures
        reads_as(path, page_text(front, t.body), fm, t, hash),
{
    law_written_page_splits(path, front, t.body);
    lemma_sibling_front_storable(fm, t, hash);
    lemma_built_front(fm, t, hash);
}

/// The text of a translated page. It can be written where the front matter of the
/// source was read. What is written is read as the translation, as one of this
/// source hash, and with every other key as in the source, unless the front matter
/// of the source cannot carry a hash or cannot be stored, or a line of the written
/// front matter is a delimiter, which then is one in a string.
pub fn sibling_text(fm: &TomlValue, t: &Translatable, hash: &str) -> (r: Result<
    String,
    CommandError,
>)
    ensures
        match r {
            Ok(s) => sibling_of(fm@, t@, hash@) == Ok::<Seq<char>, Failure<Seq<char>>>(s@),
            Err(e) => sibling_of(fm@, t@, hash@) == Err::<Seq<char>, Failure<Seq<char>>>(e@),
        },
        fm@ is Table && toml_value::buildable(fm@) ==> r is Ok,
        r matches Ok(s) ==> can_carry_hash(fm@) && toml_value::storable(fm@) && unfenced(
            fm@,
            t@,
            hash@,
        ) ==> (forall|path: Seq<char>| #[trigger] reads_as(path, s@, fm@, t@, hash@)),
{
    let v: TomlValue = sibling_front_matter(fm, t, hash);
    proof {
        if toml_value::buildable(fm@) {
            lemma_sibling_front_buildable(fm@, t@, hash@);
        }
    }
    match toml_value::toml_text(&v) {
        Err(e) => Err(Failure::FrontMatterWrite(e)),
        Ok(front) => {
            let mut s: String = String::new();
            s.append("+++\n");
            s.append(front.as_str());
            s.append("+++\n\n");
            s.append(text::trim_end(t.body.as_str()).as_str());
            s.append("\n");
            assert(s@ =~= page_text(front@, t@.body));
            proof {
                if can_carry_hash(fm@) && toml_value::storable(fm@) && unfenced(
                    fm@,
                    t@,
                    hash@,
                ) {
                    if fence_free(fm@, t@, hash@) {
                        lemma_front_unfenced(fm@, t@, hash@, front@);
                    }
                    assert forall|path: Seq<char>| #[trigger]
                        reads_as(path, s@, fm@, t@, hash@) by {
                        lemma_sibling_reads_back(path, fm@, t@, hash@, front@);
                    }
                }
            }
            Ok(s)
        },
    }
}

// ---- what holds of a page that is read ----

/// A line is a delimiter exactly where it is three plus signs with nothing but white
/// space around them.
pub proof fn law_delimiter(line: Seq<char>)
    ensures
        is_fence(line) <==> exists|a: Seq<char>, b: Seq<char>|
            #![trigger text::blank(a), text::blank(b)]
            text::blank(a) && text::blank(b) && line == a + "+++"@ + b,
{
    reveal_strlit("+++");
    let plus = "+++"@;
    assert(!text::white_space('+'));
    text::law_trim(line);
    if exists|a: Seq<char>, b: Seq<char>|
        #![trigger text::blank(a), text::blank(b)]
        text::blank(a) && text::blank(b) && line == a + plus + b {
        let (a, b) = choose|a: Seq<char>, b: Seq<char>|
            #![trigger text::blank(a), text::blank(b)]
            text::blank(a) && text::blank(b) && line == a + plus + b;
        text::law_trim_gives_back(a, plus, b);
    }
}

/// The front matter of a page stands between its first line and the next delimiter,
/// and its body after that, each line as it is with a line feed. A page whose first line
/// is no delimiter has no front matter, and one without a second delimiter does not end
/// its front matter.
pub proof fn law_page_is_split_at_its_delimiters(
    path: Seq<char>,
    s: Seq<char>,
    first: Seq<char>,
    front: Seq<Seq<char>>,
    second: Seq<char>,
    body: Seq<Seq<char>>,
)
    requires
        forall|i: int| 0 <= i < front.len() ==> !is_fence(#[trigger] front[i]),
    ensures
        is_fence(first) && is_fence(second) && text::lines_of(s) == seq![first] + front + seq![
            second,
        ] + body ==> (split_of(path, s) matches Ok((f, b)) && f == unlines(front) && b == unlines(
            body,
        )),
        is_fence(first) && text::lines_of(s) == seq![first] + front ==> split_of(path, s) == Err::<
            (Seq<char>, Seq<char>),
            Failure<Seq<char>>,
        >(Failure::FrontMatterOpen { path }),
        !is_fence(first) && text::lines_of(s) == seq![first] + body ==> split_of(path, s) == Err::<
            (Seq<char>, Seq<char>),
            Failure<Seq<char>>,
        >(Failure::FrontMatterMissing { path }),
        s.len() == 0 ==> split_of(path, s) == Err::<(Seq<char>, Seq<char>), Failure<Seq<char>>>(
            Failure::FrontMatterMissing { path },
        ),
{
    let n = front.len() as int;
    let l = text::lines_of(s);
    let rest = l.skip(1);
    if is_fence(first) && is_fence(second) && l == seq![first] + front + seq![second] + body {
        assert(rest =~= front + seq![second] + body);
        assert forall|j: int| 0 <= j < n implies !is_fence(#[trigger] rest[j]) by {
            assert(rest[j] == front[j]);
        }
        assert(rest[n] == second);
        lemma_first_fence(rest, n);
        assert(rest.take(n) =~= front);
        assert(rest.skip(n + 1) =~= body);
    } else if is_fence(first) && l == seq![first] + front {
        assert(rest =~= front);
        lemma_first_fence(rest, n);
    }
}

/// Lines with line feeds are put one after the other.
pub proof fn law_unlines(a: Seq<Seq<char>>, b: Seq<Seq<char>>, line: Seq<char>)
    ensures
        unlines(a + b) == unlines(a) + unlines(b),
        unlines(seq![line]) == line + seq!['\n'],
    decreases b.len(),
{
    if b.len() == 0 {
        assert(a + b =~= a);
        assert(unlines(a) + unlines(b) =~= unlines(a));
    } else {
        law_unlines(a, b.drop_last(), line);
        assert((a + b).drop_last() =~= a + b.drop_last());
        assert(unlines(a + b) =~= unlines(a) + unlines(b));
    }
    lemma_unlines_cons(line, Seq::empty());
    assert(seq![line] + Seq::<Seq<char>>::empty() =~= seq![line]);
    assert(unlines(seq![line]) =~= line + seq!['\n']);
}

/// A body that was written is read as it was, but for the white space at its end: a
/// blank line, the body, and a line feed.
pub proof fn law_written_body_is_kept(path: Seq<char>, front: Seq<char>, body: Seq<char>)
    requires
        !front.contains('\r'),
        !body.contains('\r'),
        front.len() == 0 || front.last() == '\n',
        without_fence(front),
    ensures
        split_of(path, page_text(front, body)) matches Ok((f, b)) && f == front && b == seq!['\n']
            + text::trim_end_of(body) + seq!['\n'],
{
    lemma_delimiter();
    let ended = text::trim_end_of(body);
    let close = "+++\n"@;
    let blank = "\n"@;
    let after = blank + ended.push('\n');
    let s = page_text(front, body);
    assert(s =~= close + (front + (close + after)));
    lemma_lines_concat(close, front + (close + after));
    lemma_lines_concat(front, close + after);
    lemma_lines_concat(close, after);
    let inner = text::lines_of(front);
    let outer = text::lines_of(after);
    let none = Seq::<Seq<char>>::empty();
    assert(text::lines_of(s) =~= seq!["+++"@] + inner + seq!["+++"@] + outer);
    law_page_is_split_at_its_delimiters(path, s, "+++"@, inner, "+++"@, outer);
    lemma_unlines_lines(front);
    text::lemma_trim_end_prefix(body);
    assert forall|c: char| after.contains(c) && c != '\n' implies body.contains(c) by {
        let i = choose|i: int| 0 <= i < after.len() && after[i] == c;
        assert(after[i] == ended[i - 1]);
        assert(body[i - 1] == c);
    }
    lemma_unlines_lines(after);
    assert(after =~= seq!['\n'] + ended + seq!['\n']);
}

/// What a page gives to translate is the string under `title`, the string under
/// `description` and the body without the white space around it; a title or a
/// description that is missing, or no string, is empty.
pub proof fn law_page_gives_its_fields(fm: TomlModel, body: Seq<char>)
    ensures
        match toml_value::toml_member(fm, "title"@) {
            Some(TomlModel::Str(s)) => source_of(fm, body).title == s,
            _ => source_of(fm, body).title.len() == 0,
        },
        match toml_value::toml_member(fm, "description"@) {
            Some(TomlModel::Str(s)) => source_of(fm, body).description == s,
            _ => source_of(fm, body).description.len() == 0,
        },
        source_of(fm, body).body == text::trim_of(body),
{
}

/// An edit of the title, the description or the body of a page changes what is hashed
/// of it: pages are hashed from the same bytes only where all three agree. The strings
/// hold no zero character.
pub proof fn law_edits_change_what_is_hashed(
    a: TomlModel,
    b: TomlModel,
    x: Seq<char>,
    y: Seq<char>,
    title: (Seq<char>, Seq<char>),
    description: (Seq<char>, Seq<char>),
)
    requires
        toml_value::toml_member(a, "title"@) == Some(TomlModel::Str(title.0)),
        toml_value::toml_member(b, "title"@) == Some(TomlModel::Str(title.1)),
        toml_value::toml_member(a, "description"@) == Some(TomlModel::Str(description.0)),
        toml_value::toml_member(b, "description"@) == Some(TomlModel::Str(description.1)),
        !title.0.contains('\0') && !title.1.contains('\0'),
        !description.0.contains('\0') && !description.1.contains('\0'),
    ensures
        translate::hash_input(source_of(a, x)) == translate::hash_input(source_of(b, y)) <==> title.0
            == title.1 && description.0 == description.1 && text::trim_of(x) == text::trim_of(y),
{
    let f = source_of(a, x);
    let g = source_of(b, y);
    if translate::hash_input(f) == translate::hash_input(g) {
        translate::law_hash_input_is_unambiguous(f, g);
    }
}

/// A text is kept where it holds any ink, without the white space around it.
pub proof fn law_inked(s: Seq<char>)
    ensures
        inked(s) is None <==> text::blank(s),
        inked(s) matches Some(t) ==> t == text::trim_of(s) && t.len() > 0,
{
    text::law_trim(s);
    if text::trim_of(s).len() == 0 {
        let (a, b) = choose|a: Seq<char>, b: Seq<char>|
            #![trigger text::blank(a), text::blank(b)]
            text::blank(a) && text::blank(b) && s == a + text::trim_of(s) + b;
        assert forall|i: int| 0 <= i < s.len() implies text::white_space(#[trigger] s[i]) by {
            if i < a.len() {
                assert(s[i] == a[i]);
            } else {
                assert(s[i] == b[i - a.len()]);
            }
        }
    } else if text::blank(s) {
        let (a, b) = choose|a: Seq<char>, b: Seq<char>|
            #![trigger text::blank(a), text::blank(b)]
            text::blank(a) && text::blank(b) && s == a + text::trim_of(s) + b;
        assert(s[a.len() as int] == text::trim_of(s)[0]);
    }
}

/// What stands under a key of `extra` is what that table has there, and nothing where
/// there is no such table.
pub proof fn law_extra(fm: TomlModel, key: Seq<char>)
    ensures
        match toml_value::toml_member(fm, "extra"@) {
            Some(TomlModel::Table(e)) => extra_of(fm, key) == entries::entry(e, key),
            _ => extra_of(fm, key) is None,
        },
{
}

/// A single string is a list of one where it holds any ink. Of a list the strings with
/// any ink are taken, each without the white space around it, in order; anything else is
/// passed over.
pub proof fn law_string_list(a: Seq<TomlModel>, b: Seq<TomlModel>, v: TomlModel, s: Seq<char>)
    ensures
        string_list_of(Some(TomlModel::Array(a + b))) == string_list_of(Some(TomlModel::Array(a)))
            + string_list_of(Some(TomlModel::Array(b))),
        string_list_of(Some(TomlModel::Array(seq![TomlModel::Str(s)]))) == if text::blank(s) {
            Seq::empty()
        } else {
            seq![text::trim_of(s)]
        },
        !(v is Str) ==> string_list_of(Some(TomlModel::Array(seq![v]))).len() == 0,
        string_list_of(Some(TomlModel::Str(s))) == if text::blank(s) {
            Seq::empty()
        } else {
            seq![text::trim_of(s)]
        },
        !(v is Str) && !(v is Array) ==> string_list_of(Some(v)).len() == 0,
        string_list_of(None).len() == 0,
        string_list_of(Some(TomlModel::Array(Seq::empty()))).len() == 0,
{
    law_inked(s);
    lemma_inked_strings_concat(a, b);
    lemma_inked_strings_one(TomlModel::Str(s));
    lemma_inked_strings_one(v);
}

proof fn lemma_inked_strings_one(v: TomlModel)
    ensures
        inked_strings(seq![v]) == match inked_string(Some(v)) {
            Some(s) => seq![s],
            None => Seq::empty(),
        },
{
    reveal_with_fuel(inked_strings, 2);
    assert(seq![v].drop_last() =~= Seq::<TomlModel>::empty());
    assert(inked_strings(seq![v]) =~= match inked_string(Some(v)) {
        Some(s) => seq![s],
        None => Seq::<Seq<char>>::empty(),
    });
}

proof fn lemma_inked_strings_concat(a: Seq<TomlModel>, b: Seq<TomlModel>)
    ensures
        inked_strings(a + b) == inked_strings(a) + inked_strings(b),
    decreases b.len(),
{
    if b.len() == 0 {
        assert(a + b =~= a);
        assert(inked_strings(a) + inked_strings(b) =~= inked_strings(a));
    } else {
        lemma_inked_strings_concat(a, b.drop_last());
        assert((a + b).drop_last() =~= a + b.drop_last());
        assert((a + b).last() == b.last());
        assert(inked_strings(a + b) =~= inked_strings(a) + inked_strings(b));
    }
}

/// A date is a string with any ink, without the white space around it, or a date-time
/// as it is shown; anything else is no date.
pub proof fn law_date(fm: TomlModel, key: Seq<char>)
    ensures
        match toml_value::toml_member(fm, key) {
            Some(TomlModel::Str(s)) => date_of(fm, key) == if text::blank(s) {
                None
            } else {
                Some(text::trim_of(s))
            },
            Some(TomlModel::Datetime(d)) => date_of(fm, key) == Some(d),
            _ => date_of(fm, key) is None,
        },
{
    if let Some(TomlModel::Str(s)) = toml_value::toml_member(fm, key) {
        law_inked(s);
    }
}

/// Front matter that is no table stays as it is, and so does an `extra` that is none.
pub proof fn law_odd_front_matter_stays(fm: TomlModel, t: Fields, hash: Seq<char>)
    ensures
        !(fm is Table) ==> sibling_front(fm, t, hash) == fm,
        toml_value::toml_member(fm, "extra"@) matches Some(x) ==> !(x is Table)
            ==> toml_value::toml_member(sibling_front(fm, t, hash), "extra"@) == Some(x),
{
    if let Some(x) = toml_value::toml_member(fm, "extra"@) {
        if !(x is Table) {
            let e = sibling_front(fm, t, hash)->Table_0;
            entries::lemma_entry_push(e.drop_last(), "extra"@, x, "extra"@);
            assert(e.drop_last().push(("extra"@, x)) =~= e);
        }
    }
}

/// A page is read from its two parts: its front matter as TOML, and its body as it is. One
/// without delimiters fails for that, and one whose front matter is no TOML with what is
/// wrong there; both failures tell the path. A file that could not be read is told with its
/// own failure.
pub proof fn law_page_is_read(path: Seq<char>, read: Result<Seq<char>, Failure<Seq<char>>>)
    ensures
        match read {
            Err(e) => file_of(path, read) == Err::<(TomlModel, Seq<char>), Failure<Seq<char>>>(e),
            Ok(s) => match split_of(path, s) {
                Err(e) => file_of(path, read) == Err::<(TomlModel, Seq<char>), Failure<Seq<char>>>(
                    e,
                ),
                Ok((front, body)) => match toml_value::toml_parse(front) {
                    Ok(fm) => file_of(path, read) == Ok::<
                        (TomlModel, Seq<char>),
                        Failure<Seq<char>>,
                    >((fm, body)),
                    Err(detail) => file_of(path, read) == Err::<
                        (TomlModel, Seq<char>),
                        Failure<Seq<char>>,
                    >(Failure::FrontMatterParse { path, detail }),
                },
            },
        },
{
}

/// A translation is written as its front matter between two delimiters, a blank line, and
/// its body without the white space at the end. Front matter that cannot be written is a
/// failure with what is wrong with it.
pub proof fn law_written_translation(fm: TomlModel, t: Fields, hash: Seq<char>)
    ensures
        match toml_value::toml_text_of(sibling_front(fm, t, hash)) {
            Ok(front) => sibling_of(fm, t, hash) == Ok::<Seq<char>, Failure<Seq<char>>>(
                "+++\n"@ + front + "+++\n"@ + seq!['\n'] + text::trim_end_of(t.body) + seq!['\n'],
            ),
            Err(e) => sibling_of(fm, t, hash) == Err::<Seq<char>, Failure<Seq<char>>>(
                Failure::FrontMatterWrite(e),
            ),
        },
{
    reveal_strlit("+++\n");
    reveal_strlit("+++\n\n");
    reveal_strlit("\n");
    assert("\n"@ =~= seq!['\n']);
    assert("+++\n\n"@ =~= "+++\n"@ + seq!['\n']);
    if let Ok(front) = toml_value::toml_text_of(sibling_front(fm, t, hash)) {
        assert(page_text(front, t.body) =~= "+++\n"@ + front + "+++\n"@ + seq!['\n']
            + text::trim_end_of(t.body) + seq!['\n']);
    }
}

} // verus!
