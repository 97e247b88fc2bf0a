//! The wire format of a self-hosted translation endpoint.
//!
//! ```text
//! POST $TRANSLATE_URL
//!   {"texts": ["..."], "target_language": "ko", "source_language": "en",
//!    "preserve_terms": ["Acme Widgets"]}
//! -> {"translations": ["..."]}
//! ```
//!
//! Translations come back in request order, one for each text. An answer that
//! says that something was not translated is a failure, whatever it carries.
use vstd::prelude::*;

use crate::entries;
use crate::failure::{CommandError, Failure};
use crate::json_value;
use crate::json_value::{JsonModel, JsonValue};
use crate::number;
use crate::text;
use crate::translate::{Fields, Translatable};

verus! {

/// Which of the three fields were sent, in request order. Empty fields are not
/// sent at all.
pub type SentFields = Vec<&'static str>;

/// What each of some names says.
pub open spec fn names(v: Seq<&'static str>) -> Seq<Seq<char>> {
    v.map_values(|s: &'static str| s@)
}

/// An array of strings.
pub open spec fn string_array(v: Seq<Seq<char>>) -> JsonModel {
    JsonModel::Array(v.map_values(|s: Seq<char>| JsonModel::Str(s)))
}

/// The names of the fields that are not empty.
pub open spec fn sent_names(f: Fields) -> Seq<Seq<char>> {
    (if f.title.len() > 0 {
        seq!["title"@]
    } else {
        Seq::empty()
    }) + (if f.description.len() > 0 {
        seq!["description"@]
    } else {
        Seq::empty()
    }) + (if f.body.len() > 0 {
        seq!["body"@]
    } else {
        Seq::empty()
    })
}

/// The fields that are not empty.
pub open spec fn sent_texts(f: Fields) -> Seq<Seq<char>> {
    (if f.title.len() > 0 {
        seq![f.title]
    } else {
        Seq::empty()
    }) + (if f.description.len() > 0 {
        seq![f.description]
    } else {
        Seq::empty()
    }) + (if f.body.len() > 0 {
        seq![f.body]
    } else {
        Seq::empty()
    })
}

/// The request for the fields of a page. Terms to preserve are only mentioned
/// where there are any.
pub open spec fn request_of(f: Fields, lang: Seq<char>, terms: Seq<Seq<char>>) -> JsonModel {
    JsonModel::Object(
        seq![
            ("texts"@, string_array(sent_texts(f))),
            ("target_language"@, JsonModel::Str(lang)),
            ("source_language"@, JsonModel::Str("en"@)),
        ] + if terms.len() > 0 {
            seq![("preserve_terms"@, string_array(terms))]
        } else {
            Seq::empty()
        },
    )
}

/// What a request says: the texts, the languages, and the terms to preserve where
/// there are any.
pub proof fn law_request_members(f: Fields, lang: Seq<char>, terms: Seq<Seq<char>>)
    ensures
        ({
            let request = request_of(f, lang, terms);
            &&& json_value::member(request, "texts"@) == Some(string_array(sent_texts(f)))
            &&& json_value::member(request, "target_language"@) == Some(JsonModel::Str(lang))
            &&& json_value::member(request, "source_language"@) == Some(JsonModel::Str("en"@))
            &&& json_value::member(request, "preserve_terms"@) == if terms.len() > 0 {
                Some(string_array(terms))
            } else {
                None
            }
            &&& sent_names(f).len() == sent_texts(f).len()
        }),
{
    reveal_strlit("texts");
    reveal_strlit("target_language");
    reveal_strlit("source_language");
    reveal_strlit("preserve_terms");
    assert("target_language"@[0] != "source_language"@[0]);
    assert("texts"@.len() == 5);
    assert("preserve_terms"@.len() == 14);
    assert("target_language"@.len() == 15);
    assert("source_language"@.len() == 15);
    let o = request_of(f, lang, terms)->Object_0;
    assert(o[0] == ("texts"@, string_array(sent_texts(f))));
    assert(o[1] == ("target_language"@, JsonModel::Str(lang)));
    assert(o[2] == ("source_language"@, JsonModel::Str("en"@)));
    assert(o.len() == 4 ==> o[3] == ("preserve_terms"@, string_array(terms)));
    entries::lemma_entry_at(o, "texts"@, 0);
    entries::lemma_entry_at(o, "target_language"@, 1);
    entries::lemma_entry_at(o, "source_language"@, 2);
    if terms.len() > 0 {
        entries::lemma_entry_at(o, "preserve_terms"@, 3);
    } else {
        entries::lemma_no_entry(o, "preserve_terms"@);
    }
}

fn strings(v: &Vec<String>) -> (r: JsonValue)
    ensures
        r@ == string_array(text::views(v@)),
{
    let mut out: Vec<JsonValue> = Vec::new();
    for i in 0..v.len()
        invariant
            out@.len() == i,
            forall|j: int| 0 <= j < i ==> (#[trigger] out@[j])@ == JsonModel::Str(v@[j]@),
    {
        out.push(JsonValue::Str(v[i].clone()));
    }
    let r: JsonValue = JsonValue::Array(out);
    proof {
        json_value::lemma_items(r);
        assert(r@->Array_0 =~= string_array(text::views(v@))->Array_0);
    }
    r
}

/// Builds the request body, and records which fields it carries so that the
/// answer can be mapped back by position.
pub fn build_translate_request(
    fields: &Translatable,
    lang: &str,
    preserve_terms: &Vec<String>,
) -> (r: (JsonValue, SentFields))
    ensures
        r.0@ == request_of(fields@, lang@, text::views(preserve_terms@)),
        names(r.1@) == sent_names(fields@),
{
    let mut texts: Vec<String> = Vec::new();
    let mut sent: SentFields = Vec::new();
    if !fields.title.as_str().is_empty() {
        texts.push(fields.title.clone());
        sent.push("title");
    }
    if !fields.description.as_str().is_empty() {
        texts.push(fields.description.clone());
        sent.push("description");
    }
    if !fields.body.as_str().is_empty() {
        texts.push(fields.body.clone());
        sent.push("body");
    }
    assert(text::views(texts@) =~= sent_texts(fields@));
    assert(names(sent@) =~= sent_names(fields@));
    let mut members: Vec<(String, JsonValue)> = Vec::new();
    members.push(("texts".to_string(), strings(&texts)));
    members.push(("target_language".to_string(), JsonValue::Str(lang.to_string())));
    members.push(("source_language".to_string(), JsonValue::Str("en".to_string())));
    if preserve_terms.len() > 0 {
        members.push(("preserve_terms".to_string(), strings(preserve_terms)));
    }
    let payload: JsonValue = JsonValue::Object(members);
    proof {
        json_value::lemma_members(payload);
        assert(payload@->Object_0 =~= request_of(
            fields@,
            lang@,
            text::views(preserve_terms@),
        )->Object_0);
    }
    (payload, sent)
}

// ---- the answer ----

/// The place of the first flag that is not `true`, or the number of flags.
pub open spec fn first_unset(flags: Seq<JsonModel>) -> int
    decreases flags.len(),
{
    if flags.len() == 0 || flags.first() != JsonModel::Bool(true) {
        0
    } else {
        1 + first_unset(flags.drop_first())
    }
}

/// What the member `ok` says against an answer: `false` as a whole, a list of
/// flags that does not fit the texts, or a flag that is not `true`.
pub open spec fn ok_problem(data: JsonModel, sent: Seq<Seq<char>>) -> Option<Failure<Seq<char>>> {
    match json_value::member(data, "ok"@) {
        Some(JsonModel::Bool(false)) => Some(Failure::OkFalse),
        Some(JsonModel::Array(flags)) => if flags.len() != sent.len() {
            Some(Failure::OkLength { flags: flags.len() as usize, texts: sent.len() as usize })
        } else if first_unset(flags) < flags.len() {
            Some(
                Failure::OkFlag {
                    index: first_unset(flags) as usize,
                    field: sent[first_unset(flags)],
                },
            )
        } else {
            None
        },
        _ => None,
    }
}

/// The code that a member holds: a whole number, or a text that is one.
pub open spec fn code_in(v: Option<JsonModel>) -> Option<int> {
    match v {
        Some(JsonModel::Unsigned(n)) => Some(n as int),
        Some(JsonModel::Negative(n)) => Some(n as int),
        Some(JsonModel::Str(s)) => number::integer_value(s),
        _ => None,
    }
}

/// What a mirrored code says against an answer: 0 and 200 mean success, and
/// every other code does not.
pub open spec fn code_problem(data: JsonModel, key: Seq<char>) -> Option<Failure<Seq<char>>> {
    match code_in(json_value::member(data, key)) {
        Some(code) => if code != 0 && code != 200 {
            Some(Failure::ErrorCode { code: code as i128, key })
        } else {
            None
        },
        None => None,
    }
}

/// The first code that speaks against an answer.
pub open spec fn codes_problem(data: JsonModel) -> Option<Failure<Seq<char>>> {
    match (
        code_problem(data, "code"@),
        code_problem(data, "status"@),
        code_problem(data, "error_code"@),
    ) {
        (Some(p), _, _) => Some(p),
        (None, Some(p), _) => Some(p),
        (None, None, Some(p)) => Some(p),
        (None, None, None) => None,
    }
}

/// The place of the first value that is no string, or the number of values.
pub open spec fn first_non_string(values: Seq<JsonModel>) -> int
    decreases values.len(),
{
    if values.len() == 0 || !(values.first() is Str) {
        0
    } else {
        1 + first_non_string(values.drop_first())
    }
}

/// The fields of a page with one of them set; any name but those of the title
/// and the description means the body.
pub open spec fn with_field(f: Fields, name: Seq<char>, value: Seq<char>) -> Fields {
    if name == "title"@ {
        Fields { title: value, ..f }
    } else if name == "description"@ {
        Fields { description: value, ..f }
    } else {
        Fields { body: value, ..f }
    }
}

/// Fields that say nothing.
pub open spec fn blank() -> Fields {
    Fields { title: Seq::empty(), description: Seq::empty(), body: Seq::empty() }
}

/// The values, each on the field of the same place.
pub open spec fn spread(sent: Seq<Seq<char>>, values: Seq<JsonModel>) -> Fields
    decreases sent.len(),
{
    if sent.len() == 0 {
        blank()
    } else {
        with_field(
            spread(sent.drop_last(), values.drop_last()),
            sent.last(),
            values.last()->Str_0,
        )
    }
}

/// What an answer gives: the fields that were sent, translated, where it is an
/// answer without any sign of failure that has one string for each; a failure
/// otherwise. `shown` is the text of the answer.
pub open spec fn answer_of(data: JsonModel, shown: Seq<char>, sent: Seq<Seq<char>>) -> Result<
    Fields,
    Failure<Seq<char>>,
> {
    match (ok_problem(data, sent), codes_problem(data)) {
        (Some(p), _) => Err(p),
        (None, Some(p)) => Err(p),
        (None, None) => match json_value::member(data, "translations"@) {
            Some(JsonModel::Array(values)) => if values.len() != sent.len() {
                Err(
                    Failure::TranslationCount {
                        got: values.len() as usize,
                        sent: sent.len() as usize,
                    },
                )
            } else if first_non_string(values) < values.len() {
                let i = first_non_string(values);
                Err(Failure::NotAString { field: sent[i], kind: json_value::kind_of(values[i]) })
            } else {
                Ok(spread(sent, values))
            },
            _ => Err(Failure::NoTranslations(text::beginning(shown, 160))),
        },
    }
}

/// Whether a result says what `m` says.
pub open spec fn says(r: Result<Translatable, CommandError>, m: Result<Fields, Failure<Seq<char>>>) -> bool {
    match (r, m) {
        (Ok(t), Ok(f)) => t@ == f,
        (Err(e), Err(p)) => e@ == p,
        _ => false,
    }
}

proof fn lemma_first_unset(flags: Seq<JsonModel>, i: int)
    requires
        0 <= i <= flags.len(),
        forall|j: int| 0 <= j < i ==> #[trigger] flags[j] == JsonModel::Bool(true),
        i == flags.len() || flags[i] != JsonModel::Bool(true),
    ensures
        first_unset(flags) == i,
    decreases i,
{
    if i > 0 {
        assert(flags[0] == JsonModel::Bool(true));
        assert(forall|j: int| 0 <= j < i - 1 ==> flags.drop_first()[j] == flags[j + 1]);
        lemma_first_unset(flags.drop_first(), i - 1);
    }
}

proof fn lemma_first_non_string(values: Seq<JsonModel>, i: int)
    requires
        0 <= i <= values.len(),
        forall|j: int| 0 <= j < i ==> (#[trigger] values[j]) is Str,
        i == values.len() || !(values[i] is Str),
    ensures
        first_non_string(values) == i,
    decreases i,
{
    if i > 0 {
        assert(values[0] is Str);
        assert(forall|j: int| 0 <= j < i - 1 ==> values.drop_first()[j] == values[j + 1]);
        lemma_first_non_string(values.drop_first(), i - 1);
    }
}

/// Looks for what the member `ok` says against an answer.
fn check_ok(data: &JsonValue, sent: &SentFields) -> (r: Result<(), CommandError>)
    ensures
        match r {
            Ok(_) => ok_problem(data@, names(sent@)) is None,
            Err(e) => ok_problem(data@, names(sent@)) == Some(e@),
        },
{
    let ok: &JsonValue = match data.get("ok") {
        Some(ok) => ok,
        None => {
            return Ok(());
        },
    };
    match ok {
        JsonValue::Bool(b) => if *b {
            Ok(())
        } else {
            Err(Failure::OkFalse)
        },
        JsonValue::Array(flags) => {
            proof {
                json_value::lemma_items(*ok);
            }
            let ghost seq = ok@->Array_0;
            if flags.len() != sent.len() {
                return Err(Failure::OkLength { flags: flags.len(), texts: sent.len() });
            }
            for i in 0..flags.len()
                invariant
                    json_value::member(data@, "ok"@) == Some(JsonModel::Array(seq)),
                    seq.len() == flags@.len(),
                    flags@.len() == sent@.len(),
                    forall|j: int| 0 <= j < flags@.len() ==> #[trigger] seq[j] == flags@[j]@,
                    forall|j: int| 0 <= j < i ==> #[trigger] seq[j] == JsonModel::Bool(true),
            {
                let set: bool = match &flags[i] {
                    JsonValue::Bool(b) => *b,
                    _ => false,
                };
                assert(seq[i as int] == flags@[i as int]@);
                if !set {
                    proof {
                        lemma_first_unset(seq, i as int);
                    }
                    return Err(Failure::OkFlag { index: i, field: sent[i].to_string() });
                }
            }
            proof {
                lemma_first_unset(seq, seq.len() as int);
            }
            Ok(())
        },
        _ => Ok(()),
    }
}

/// Looks for what the code under `key` says against an answer.
fn check_code(data: &JsonValue, key: &str) -> (r: Result<(), CommandError>)
    ensures
        match r {
            Ok(_) => code_problem(data@, key@) is None,
            Err(e) => code_problem(data@, key@) == Some(e@),
        },
{
    let code: Option<i128> = match data.get(key) {
        Some(JsonValue::Unsigned(n)) => Some(*n as i128),
        Some(JsonValue::Negative(n)) => Some(*n as i128),
        Some(JsonValue::Str(s)) => number::parse_integer(s.as_str()),
        _ => None,
    };
    match code {
        Some(code) => if code != 0 && code != 200 {
            Err(Failure::ErrorCode { code, key: key.to_string() })
        } else {
            Ok(())
        },
        None => Ok(()),
    }
}

/// Maps the translations of an answer back onto the fields that were sent. A
/// field that was not sent stays empty.
pub fn read_answer(data: &JsonValue, shown: &str, sent: &SentFields) -> (r: Result<
    Translatable,
    CommandError,
>)
    ensures
        says(r, answer_of(data@, shown@, names(sent@))),
{
    match check_ok(data, sent) {
        Ok(_) => {},
        Err(e) => {
            return Err(e);
        },
    }
    match check_code(data, "code") {
        Ok(_) => {},
        Err(e) => {
            return Err(e);
        },
    }
    match check_code(data, "status") {
        Ok(_) => {},
        Err(e) => {
            return Err(e);
        },
    }
    match check_code(data, "error_code") {
        Ok(_) => {},
        Err(e) => {
            return Err(e);
        },
    }
    let found: Option<&JsonValue> = data.get("translations");
    let values: &Vec<JsonValue> = match found {
        Some(JsonValue::Array(values)) => values,
        _ => {
            return Err(Failure::NoTranslations(text::take160(shown)));
        },
    };
    let ghost seq = found->0@->Array_0;
    proof {
        json_value::lemma_items(*found->0);
    }
    if values.len() != sent.len() {
        return Err(Failure::TranslationCount { got: values.len(), sent: sent.len() });
    }
    let mut out: Translatable = Translatable {
        title: String::new(),
        description: String::new(),
        body: String::new(),
    };
    assert(names(sent@).take(0) =~= Seq::<Seq<char>>::empty());
    assert(out@.title =~= blank().title);
    for i in 0..values.len()
        invariant
            ok_problem(data@, names(sent@)) is None,
            codes_problem(data@) is None,
            json_value::member(data@, "translations"@) == Some(JsonModel::Array(seq)),
            seq.len() == values@.len(),
            values@.len() == sent@.len(),
            forall|j: int| 0 <= j < values@.len() ==> #[trigger] seq[j] == values@[j]@,
            forall|j: int| 0 <= j < i ==> (#[trigger] seq[j]) is Str,
            out@ == spread(names(sent@).take(i as int), seq.take(i as int)),
    {
        let name: &'static str = sent[i];
        assert(seq[i as int] == values@[i as int]@);
        let value: String = match &values[i] {
            JsonValue::Str(s) => s.clone(),
            other => {
                proof {
                    lemma_first_non_string(seq, i as int);
                }
                return Err(
                    Failure::NotAString {
                        field: name.to_string(),
                        kind: other.json_kind().to_string(),
                    },
                );
            },
        };
        proof {
            assert(names(sent@).take(i + 1).drop_last() =~= names(sent@).take(i as int));
            assert(seq.take(i + 1).drop_last() =~= seq.take(i as int));
            assert(names(sent@).take(i + 1).last() == name@);
            assert(seq.take(i + 1).last() == JsonModel::Str(value@));
        }
        if text::same(name, "title") {
            out.title = value;
        } else if text::same(name, "description") {
            out.description = value;
        } else {
            out.body = value;
        }
    }
    proof {
        lemma_first_non_string(seq, seq.len() as int);
        assert(names(sent@).take(seq.len() as int) =~= names(sent@));
        assert(seq.take(seq.len() as int) =~= seq);
    }
    Ok(out)
}

/// Whether an answer gives no sign that something was not translated: `ok` is not
/// `false`, all flags of an `ok` list are `true` and there is one for each text,
/// and no code but those of success is mirrored.
pub open spec fn no_sign_of_failure(data: JsonModel, sent: Seq<Seq<char>>) -> bool {
    &&& json_value::member(data, "ok"@) != Some(JsonModel::Bool(false))
    &&& json_value::member(data, "ok"@) matches Some(JsonModel::Array(flags)) ==> {
        &&& flags.len() == sent.len()
        &&& forall|i: int| 0 <= i < flags.len() ==> #[trigger] flags[i] == JsonModel::Bool(true)
    }
    &&& success_code(data, "code"@)
    &&& success_code(data, "status"@)
    &&& success_code(data, "error_code"@)
}

/// Whether a code, if there is one, is one of success.
pub open spec fn success_code(data: JsonModel, key: Seq<char>) -> bool {
    code_in(json_value::member(data, key)) matches Some(code) ==> code == 0 || code == 200
}

/// Whether an answer has one string for each text.
pub open spec fn has_translations(data: JsonModel, sent: Seq<Seq<char>>) -> bool {
    json_value::member(data, "translations"@) matches Some(JsonModel::Array(values)) && {
        &&& values.len() == sent.len()
        &&& forall|i: int| 0 <= i < values.len() ==> (#[trigger] values[i]) is Str
    }
}

/// An answer is accepted exactly where it gives no sign of failure and has one
/// string for each text: nothing that came back untranslated is ever taken for a
/// translation.
pub proof fn law_failure_envelopes_are_refused(
    data: JsonModel,
    shown: Seq<char>,
    sent: Seq<Seq<char>>,
)
    ensures
        answer_of(data, shown, sent) is Ok <==> no_sign_of_failure(data, sent)
            && has_translations(data, sent),
{
    if let Some(JsonModel::Array(flags)) = json_value::member(data, "ok"@) {
        lemma_first_unset_found(flags);
    }
    if let Some(JsonModel::Array(values)) = json_value::member(data, "translations"@) {
        lemma_first_non_string_found(values);
    }
}

proof fn lemma_first_unset_found(flags: Seq<JsonModel>)
    ensures
        0 <= first_unset(flags) <= flags.len(),
        first_unset(flags) < flags.len() ==> flags[first_unset(flags)] != JsonModel::Bool(true),
        forall|i: int|
            0 <= i < first_unset(flags) ==> #[trigger] flags[i] == JsonModel::Bool(true),
    decreases flags.len(),
{
    if flags.len() > 0 && flags.first() == JsonModel::Bool(true) {
        let rest = flags.drop_first();
        lemma_first_unset_found(rest);
        assert forall|i: int| 0 <= i < first_unset(flags) implies #[trigger] flags[i]
            == JsonModel::Bool(true) by {
            if i > 0 {
                assert(rest[i - 1] == flags[i]);
            }
        }
    }
}

proof fn lemma_first_non_string_found(values: Seq<JsonModel>)
    ensures
        0 <= first_non_string(values) <= values.len(),
        first_non_string(values) < values.len() ==> !(values[first_non_string(values)] is Str),
        forall|i: int| 0 <= i < first_non_string(values) ==> (#[trigger] values[i]) is Str,
    decreases values.len(),
{
    if values.len() > 0 && values.first() is Str {
        let rest = values.drop_first();
        lemma_first_non_string_found(rest);
        assert forall|i: int| 0 <= i < first_non_string(values) implies (
        #[trigger] values[i]) is Str by {
            if i > 0 {
                assert(rest[i - 1] == values[i]);
            }
        }
    }
}

/// Translations land on the fields that were sent, in request order, and a field
/// that was not sent stays empty.
pub proof fn law_translations_land_on_their_fields(f: Fields, data: JsonModel, shown: Seq<char>)
    ensures
        answer_of(data, shown, sent_names(f)) matches Ok(t) ==> {
            let values = json_value::member(data, "translations"@)->0->Array_0;
            let second = if f.title.len() > 0 {
                1int
            } else {
                0int
            };
            let third = second + if f.description.len() > 0 {
                1int
            } else {
                0int
            };
            &&& t.title == if f.title.len() > 0 {
                values[0]->Str_0
            } else {
                Seq::empty()
            }
            &&& t.description == if f.description.len() > 0 {
                values[second]->Str_0
            } else {
                Seq::empty()
            }
            &&& t.body == if f.body.len() > 0 {
                values[third]->Str_0
            } else {
                Seq::empty()
            }
        },
{
    reveal_strlit("title");
    reveal_strlit("description");
    reveal_strlit("body");
    assert("title"@.len() == 5);
    assert("description"@.len() == 11);
    assert("body"@.len() == 4);
    if answer_of(data, shown, sent_names(f)) is Ok {
        let values = json_value::member(data, "translations"@)->0->Array_0;
        let sent = sent_names(f);
        reveal_with_fuel(spread, 4);
        if sent.len() >= 1 {
            assert(sent.drop_last().len() == sent.len() - 1);
        }
    }
}

/// What the text of an answer gives.
pub open spec fn answer_in(s: Seq<char>, sent: Seq<Seq<char>>) -> Result<
    Fields,
    Failure<Seq<char>>,
> {
    match json_value::json_parse(s) {
        Ok(data) => answer_of(data, json_value::json_render(data), sent),
        Err(e) => Err(Failure::EndpointNonJson(e)),
    }
}

/// Maps the translations in the text of an answer back onto the fields that were
/// sent.
pub fn parse_translate_response(s: &str, sent: &SentFields, fields: &Translatable) -> (r: Result<
    Translatable,
    CommandError,
>)
    ensures
        says(r, answer_in(s@, names(sent@))),
{
    match json_value::parse_json(s) {
        Ok(d) => read_answer(&d.value, d.shown.as_str(), sent),
        Err(e) => Err(Failure::EndpointNonJson(e)),
    }
}

proof fn lemma_request_without_floats(f: Fields, lang: Seq<char>, terms: Seq<Seq<char>>)
    ensures
        json_value::without_floats(request_of(f, lang, terms)),
{
    reveal_with_fuel(json_value::without_floats, 3);
}

/// The text of the request for the fields of a page, and which of them it
/// carries; nothing is to be sent where all of them are empty.
pub fn translate_request_text(
    fields: &Translatable,
    lang: &str,
    preserve_terms: &Vec<String>,
) -> (r: Option<(String, SentFields)>)
    ensures
        match r {
            None => sent_names(fields@).len() == 0,
            Some((payload, sent)) => {
                &&& sent_names(fields@).len() > 0
                &&& names(sent@) == sent_names(fields@)
                &&& payload@ == json_value::json_text_of(
                    request_of(fields@, lang@, text::views(preserve_terms@)),
                )
            },
        },
{
    let (payload, sent): (JsonValue, SentFields) = build_translate_request(
        fields,
        lang,
        preserve_terms,
    );
    assert(sent@.len() == names(sent@).len());
    if sent.len() == 0 {
        return None;
    }
    proof {
        lemma_request_without_floats(fields@, lang@, text::views(preserve_terms@));
    }
    Some((json_value::json_text(&payload), sent))
}

/// What is to be done to translate the fields of a page by the endpoint.
#[derive(Debug, PartialEq, Eq)]
pub enum EndpointStep {
    /// Send this text, which carries these fields.
    Send(String, SentFields),
    /// Nothing: this is the translation.
    Done(Translatable),
}

/// Decides what is to be done to translate the fields of a page. Fields that are all
/// empty are their own translation; nothing is sent for them.
pub fn endpoint_step(fields: &Translatable, lang: &str, preserve_terms: &Vec<String>) -> (step:
    EndpointStep)
    ensures
        match step {
            EndpointStep::Done(t) => sent_names(fields@).len() == 0 && t@ == fields@,
            EndpointStep::Send(payload, sent) => {
                &&& sent_names(fields@).len() > 0
                &&& names(sent@) == sent_names(fields@)
                &&& payload@ == json_value::json_text_of(
                    request_of(fields@, lang@, text::views(preserve_terms@)),
                )
            },
        },
{
    match translate_request_text(fields, lang, preserve_terms) {
        None => EndpointStep::Done(fields.clone()),
        Some((payload, sent)) => EndpointStep::Send(payload, sent),
    }
}

/// What the endpoint answered: a failure where the status is none of success,
/// else what the text gives.
pub fn translate_reply(
    success: bool,
    status: &str,
    s: &str,
    sent: &SentFields,
    fields: &Translatable,
) -> (r: Result<Translatable, CommandError>)
    ensures
        says(
            r,
            if success {
                answer_in(s@, names(sent@))
            } else {
                Err(Failure::EndpointHttp { status: status@, body: text::beginning(s@, 200) })
            },
        ),
{
    if !success {
        return Err(
            Failure::EndpointHttp { status: status.to_string(), body: text::take200(s) },
        );
    }
    parse_translate_response(s, sent, fields)
}

// ---- what is sent, and what is made of the answer ----

/// A field is sent exactly where it is not empty, under its name and with its text, and
/// nothing else is sent. The title stands first and the body last.
pub proof fn law_what_is_sent(f: Fields)
    ensures
        sent_names(f).len() == sent_texts(f).len(),
        sent_names(f).contains("title"@) <==> f.title.len() > 0,
        sent_names(f).contains("description"@) <==> f.description.len() > 0,
        sent_names(f).contains("body"@) <==> f.body.len() > 0,
        forall|i: int|
            0 <= i < sent_names(f).len() ==> {
                ||| #[trigger] sent_names(f)[i] == "title"@ && sent_texts(f)[i] == f.title && i == 0
                ||| sent_names(f)[i] == "description"@ && sent_texts(f)[i] == f.description
                ||| sent_names(f)[i] == "body"@ && sent_texts(f)[i] == f.body && i
                    == sent_names(f).len() - 1
            },
        sent_names(f).no_duplicates(),
{
    lemma_field_names();
    let sent = sent_names(f);
    let n = sent.len();
    if f.title.len() > 0 {
        assert(sent[0] == "title"@);
    }
    if f.description.len() > 0 {
        assert(sent[0] == "description"@ || sent[1] == "description"@);
    }
    if f.body.len() > 0 {
        assert(sent[n - 1] == "body"@);
    }
}

proof fn lemma_field_names()
    ensures
        "title"@ != "description"@,
        "title"@ != "body"@,
        "description"@ != "body"@,
{
    reveal_strlit("title");
    reveal_strlit("description");
    reveal_strlit("body");
    assert("title"@.len() == 5);
    assert("description"@.len() == 11);
    assert("body"@.len() == 4);
}

/// A translator that hands back the texts that it was sent gives back the fields of the
/// page.
pub proof fn law_echoed_texts_give_the_fields_back(f: Fields, data: JsonModel, shown: Seq<char>)
    requires
        json_value::member(data, "translations"@) == json_value::member(
            request_of(f, Seq::empty(), Seq::empty()),
            "texts"@,
        ),
        json_value::member(data, "ok"@) is None,
        json_value::member(data, "code"@) is None,
        json_value::member(data, "status"@) is None,
        json_value::member(data, "error_code"@) is None,
    ensures
        answer_of(data, shown, sent_names(f)) == Ok::<Fields, Failure<Seq<char>>>(f),
{
    law_request_members(f, Seq::empty(), Seq::empty());
    let texts = sent_texts(f);
    let values = string_array(texts)->Array_0;
    assert(forall|i: int| 0 <= i < values.len() ==> (#[trigger] values[i]) is Str);
    law_failure_envelopes_are_refused(data, shown, sent_names(f));
    law_translations_land_on_their_fields(f, data, shown);
    let t = answer_of(data, shown, sent_names(f))->Ok_0;
    assert(t.title =~= f.title);
    assert(t.description =~= f.description);
    assert(t.body =~= f.body);
}

/// A code speaks against an answer exactly where it is a whole number, or a text that is
/// one, other than 0 and 200; the failure then tells the code and where it stood. A number
/// with a fraction, and every other value, is no code.
pub proof fn law_codes_of_an_answer(data: JsonModel, key: Seq<char>)
    ensures
        match json_value::member(data, key) {
            Some(JsonModel::Unsigned(n)) => code_problem(data, key) == if n == 0 || n == 200 {
                None
            } else {
                Some(Failure::ErrorCode { code: n as i128, key })
            },
            Some(JsonModel::Negative(n)) => code_problem(data, key) == if n == 0 || n == 200 {
                None
            } else {
                Some(Failure::ErrorCode { code: n as i128, key })
            },
            Some(JsonModel::Str(s)) => match number::integer_value(s) {
                Some(n) => code_problem(data, key) == if n == 0 || n == 200 {
                    None
                } else {
                    Some(Failure::ErrorCode { code: n as i128, key })
                },
                None => code_problem(data, key) is None,
            },
            _ => code_problem(data, key) is None,
        },
{
}

/// The flags of an answer are told in the failure: how many there are where they do not
/// fit the texts, and otherwise the first that is not `true`, with the name of its field.
/// Where `ok` is `false` as a whole, that is told; where it is anything else, nothing is
/// said against the answer.
pub proof fn law_flags_of_an_answer(data: JsonModel, sent: Seq<Seq<char>>, i: int)
    ensures
        match json_value::member(data, "ok"@) {
            Some(JsonModel::Bool(b)) => ok_problem(data, sent) == if b {
                None
            } else {
                Some(Failure::<Seq<char>>::OkFalse)
            },
            Some(JsonModel::Array(flags)) => {
                &&& flags.len() != sent.len() ==> ok_problem(data, sent) == Some(
                    Failure::<Seq<char>>::OkLength {
                        flags: flags.len() as usize,
                        texts: sent.len() as usize,
                    },
                )
                &&& flags.len() == sent.len() && 0 <= i < flags.len() && flags[i] != JsonModel::Bool(
                    true,
                ) && (forall|j: int|
                    0 <= j < i ==> #[trigger] flags[j] == JsonModel::Bool(true)) ==> ok_problem(
                    data,
                    sent,
                ) == Some(Failure::OkFlag { index: i as usize, field: sent[i] })
                &&& flags.len() == sent.len() && (forall|j: int|
                    0 <= j < flags.len() ==> #[trigger] flags[j] == JsonModel::Bool(true))
                    ==> ok_problem(data, sent) is None
            },
            _ => ok_problem(data, sent) is None,
        },
{
    if let Some(JsonModel::Array(flags)) = json_value::member(data, "ok"@) {
        lemma_first_unset_found(flags);
        let k = first_unset(flags);
        if 0 <= i < flags.len() && flags[i] != JsonModel::Bool(true) && (forall|j: int|
            0 <= j < i ==> #[trigger] flags[j] == JsonModel::Bool(true)) {
            lemma_first_unset(flags, i);
        }
    }
}

/// Of several signs of failure the first is told: what `ok` says, then the codes under
/// `code`, `status` and `error_code`, and then what is wrong with the translations.
pub proof fn law_first_sign_of_failure_is_told(
    data: JsonModel,
    shown: Seq<char>,
    sent: Seq<Seq<char>>,
)
    ensures
        ok_problem(data, sent) matches Some(p) ==> answer_of(data, shown, sent) == Err::<
            Fields,
            Failure<Seq<char>>,
        >(p),
        ok_problem(data, sent) is None ==> (code_problem(data, "code"@) matches Some(p)
            ==> answer_of(data, shown, sent) == Err::<Fields, Failure<Seq<char>>>(p)),
        ok_problem(data, sent) is None && code_problem(data, "code"@) is None ==> (code_problem(
            data,
            "status"@,
        ) matches Some(p) ==> answer_of(data, shown, sent) == Err::<Fields, Failure<Seq<char>>>(p)),
        ok_problem(data, sent) is None && code_problem(data, "code"@) is None && code_problem(
            data,
            "status"@,
        ) is None ==> (code_problem(data, "error_code"@) matches Some(p) ==> answer_of(
            data,
            shown,
            sent,
        ) == Err::<Fields, Failure<Seq<char>>>(p)),
{
}

/// An answer that gives no sign of failure but lacks translations is refused, and the
/// failure tells why: the first 160 characters of the answer where there is no list of
/// them, how many there are where they do not fit the texts, and otherwise the field and
/// the kind of the first that is no text.
pub proof fn law_translations_that_are_missing(
    data: JsonModel,
    shown: Seq<char>,
    sent: Seq<Seq<char>>,
    i: int,
)
    requires
        ok_problem(data, sent) is None,
        code_problem(data, "code"@) is None,
        code_problem(data, "status"@) is None,
        code_problem(data, "error_code"@) is None,
    ensures
        match json_value::member(data, "translations"@) {
            Some(JsonModel::Array(values)) => {
                &&& values.len() != sent.len() ==> answer_of(data, shown, sent) == Err::<
                    Fields,
                    Failure<Seq<char>>,
                >(
                    Failure::TranslationCount {
                        got: values.len() as usize,
                        sent: sent.len() as usize,
                    },
                )
                &&& values.len() == sent.len() && 0 <= i < values.len() && !(values[i] is Str) && (
                forall|j: int| 0 <= j < i ==> (#[trigger] values[j]) is Str) ==> answer_of(
                    data,
                    shown,
                    sent,
                ) == Err::<Fields, Failure<Seq<char>>>(
                    Failure::NotAString { field: sent[i], kind: json_value::kind_of(values[i]) },
                )
                &&& values.len() == sent.len() && (forall|j: int|
                    0 <= j < values.len() ==> (#[trigger] values[j]) is Str) ==> answer_of(
                    data,
                    shown,
                    sent,
                ) is Ok
            },
            _ => answer_of(data, shown, sent) == Err::<Fields, Failure<Seq<char>>>(
                Failure::NoTranslations(
                    if shown.len() <= 160 {
                        shown
                    } else {
                        shown.take(160)
                    },
                ),
            ),
        },
{
    if let Some(JsonModel::Array(values)) = json_value::member(data, "translations"@) {
        lemma_first_non_string_found(values);
        if 0 <= i < values.len() && !(values[i] is Str) && (forall|j: int|
            0 <= j < i ==> (#[trigger] values[j]) is Str) {
            lemma_first_non_string(values, i);
        }
    }
    text::law_beginning(shown, 160);
}

/// An answer whose text is no JSON is refused with what is wrong with it, and otherwise
/// read from what it holds.
pub proof fn law_text_of_an_answer(s: Seq<char>, sent: Seq<Seq<char>>)
    ensures
        match json_value::json_parse(s) {
            Err(e) => answer_in(s, sent) == Err::<Fields, Failure<Seq<char>>>(
                Failure::EndpointNonJson(e),
            ),
            Ok(data) => answer_in(s, sent) == answer_of(data, json_value::json_render(data), sent),
        },
{
}

/// An answer of the status of success that hands back the texts that were sent gives back
/// the fields; one of another status is a failure that tells the status and the first 200
/// characters of the text, whatever that is.
pub proof fn law_translate_reply(
    success: bool,
    status: &str,
    s: &str,
    sent: &SentFields,
    fields: &Translatable,
    r: Result<Translatable, CommandError>,
)
    requires
        call_ensures(translate_reply, (success, status, s, sent, fields), r),
        names(sent@) == sent_names(fields@),
    ensures
        !success ==> (r matches Err(e) && (e@ matches Failure::EndpointHttp { status: t, body: b }
            && t == status@ && b.len() <= 200 && b.is_prefix_of(s@) && (b.len() == 200 || b == s@))),
        success && json_value::json_parse(s@) is Err ==> r is Err,
        success ==> (json_value::json_parse(s@) matches Ok(data) ==> (json_value::member(
            data,
            "translations"@,
        ) == Some(string_array(sent_texts(fields@))) && json_value::member(data, "ok"@) is None
            && json_value::member(data, "code"@) is None && json_value::member(
            data,
            "status"@,
        ) is None && json_value::member(data, "error_code"@) is None ==> (r matches Ok(t) && t@
            == fields@))),
        success ==> (json_value::json_parse(s@) matches Ok(data) ==> (json_value::member(
            data,
            "ok"@,
        ) == Some(JsonModel::Bool(false)) ==> r is Err)),
{
    text::law_beginning(s@, 200);
    if success {
        if let Ok(data) = json_value::json_parse(s@) {
            law_request_members(fields@, Seq::empty(), Seq::empty());
            if json_value::member(data, "translations"@) == Some(string_array(sent_texts(fields@)))
                && json_value::member(data, "ok"@) is None && json_value::member(
                data,
                "code"@,
            ) is None && json_value::member(data, "status"@) is None && json_value::member(
                data,
                "error_code"@,
            ) is None {
                law_echoed_texts_give_the_fields_back(
                    fields@,
                    data,
                    json_value::json_render(data),
                );
            }
        }
    }
}

/// Nothing is sent exactly where all three fields are empty: they are their own
/// translation then. What is sent otherwise is the text of the request.
pub proof fn law_endpoint_step(
    fields: &Translatable,
    lang: &str,
    preserve_terms: &Vec<String>,
    step: EndpointStep,
)
    requires
        call_ensures(endpoint_step, (fields, lang, preserve_terms), step),
    ensures
        step is Done <==> fields@.title.len() == 0 && fields@.description.len() == 0
            && fields@.body.len() == 0,
        step matches EndpointStep::Done(t) ==> t@ == fields@,
        step matches EndpointStep::Send(payload, sent) ==> names(sent@) == sent_names(fields@)
            && payload@ == json_value::json_text_of(
            request_of(fields@, lang@, text::views(preserve_terms@)),
        ),
{
}

} // verus!
