//! The wire format of OpenRouter.
use vstd::prelude::*;

use crate::endpoint;
use crate::entries;
use crate::failure;
use crate::failure::{CommandError, Failure};
use crate::json_value;
use crate::json_value::{JsonModel, JsonValue};
use crate::text;
use crate::translate::{Fields, Translatable};

verus! {

/// The model that translates.
pub const MODEL: &'static str = "openai/gpt-4o-mini";

/// The most tokens that an answer may have.
pub const MAX_TOKENS: u64 = 16384;

/// The name of a target language for the system prompt.
pub open spec fn language_name(code: Seq<char>) -> Option<Seq<char>> {
    if code == "es"@ {
        Some("Spanish"@)
    } else if code == "pt"@ {
        Some("Portuguese"@)
    } else if code == "zh"@ {
        Some("Chinese (Simplified)"@)
    } else if code == "ko"@ {
        Some("Korean"@)
    } else if code == "ja"@ {
        Some("Japanese"@)
    } else if code == "fr"@ {
        Some("French"@)
    } else if code == "ar"@ {
        Some("Arabic"@)
    } else {
        None
    }
}

/// The name of a target language, by its code.
pub fn lang_name(code: &str) -> (r: Option<&'static str>)
    ensures
        match r {
            Some(name) => language_name(code@) == Some(name@),
            None => language_name(code@) is None,
        },
{
    if text::same(code, "es") {
        Some("Spanish")
    } else if text::same(code, "pt") {
        Some("Portuguese")
    } else if text::same(code, "zh") {
        Some("Chinese (Simplified)")
    } else if text::same(code, "ko") {
        Some("Korean")
    } else if text::same(code, "ja") {
        Some("Japanese")
    } else if text::same(code, "fr") {
        Some("French")
    } else if text::same(code, "ar") {
        Some("Arabic")
    } else {
        None
    }
}

/// What the model is told to do.
pub open spec fn system_prompt_of(name: Seq<char>, body_only: bool) -> Seq<char> {
    if body_only {
        "You translate marketing web page BODY markdown into "@ + name
            + ". Translate ONLY human-readable text. Preserve these brand tokens verbatim, untranslated: Curriculo, CurriculoATS. Return a single JSON object with exactly these keys: title, description, body. Leave title and description as empty strings. No prose."@
    } else {
        "You translate marketing web content into "@ + name
            + ". Translate ONLY human-readable text. Preserve these brand tokens verbatim, untranslated: Curriculo, CurriculoATS. Return a single JSON object with exactly these keys: title, description, body. No prose."@
    }
}

fn system_prompt(name: &str, body_only: bool) -> (s: String)
    ensures
        s@ == system_prompt_of(name@, body_only),
{
    let mut s: String = String::new();
    if body_only {
        s.append("You translate marketing web page BODY markdown into ");
        s.append(name);
        s.append(
            ". Translate ONLY human-readable text. Preserve these brand tokens verbatim, untranslated: Curriculo, CurriculoATS. Return a single JSON object with exactly these keys: title, description, body. Leave title and description as empty strings. No prose.",
        );
    } else {
        s.append("You translate marketing web content into ");
        s.append(name);
        s.append(
            ". Translate ONLY human-readable text. Preserve these brand tokens verbatim, untranslated: Curriculo, CurriculoATS. Return a single JSON object with exactly these keys: title, description, body. No prose.",
        );
    }
    assert(s@ =~= system_prompt_of(name@, body_only));
    s
}

/// What the model is given to translate: the title and the description only
/// where they are wanted.
pub open spec fn user_message(f: Fields, body_only: bool) -> JsonModel {
    JsonModel::Object(
        seq![
            (
                "title"@,
                JsonModel::Str(
                    if body_only {
                        Seq::empty()
                    } else {
                        f.title
                    },
                ),
            ),
            (
                "description"@,
                JsonModel::Str(
                    if body_only {
                        Seq::empty()
                    } else {
                        f.description
                    },
                ),
            ),
            ("body"@, JsonModel::Str(f.body)),
        ],
    )
}

/// One message of a chat.
pub open spec fn message_model(role: Seq<char>, content: Seq<char>) -> JsonModel {
    JsonModel::Object(
        seq![("role"@, JsonModel::Str(role)), ("content"@, JsonModel::Str(content))],
    )
}

/// The request: the model, an answer in JSON, a bound on its length, and the two
/// messages.
pub open spec fn chat_request(system: Seq<char>, user: Seq<char>) -> JsonModel {
    JsonModel::Object(
        seq![
            ("model"@, JsonModel::Str(MODEL@)),
            (
                "response_format"@,
                JsonModel::Object(seq![("type"@, JsonModel::Str("json_object"@))]),
            ),
            ("max_tokens"@, JsonModel::Unsigned(MAX_TOKENS)),
            (
                "messages"@,
                JsonModel::Array(
                    seq![message_model("system"@, system), message_model("user"@, user)],
                ),
            ),
        ],
    )
}

/// The text of the request for the fields of a page, or the failure that the
/// language has no name.
pub open spec fn chat_text(f: Fields, lang: Seq<char>, body_only: bool) -> Result<
    Seq<char>,
    Failure<Seq<char>>,
> {
    match language_name(lang) {
        None => Err(Failure::UnsupportedLanguage(failure::debug_text(lang))),
        Some(name) => Ok(
            json_value::json_text_of(
                chat_request(
                    system_prompt_of(name, body_only),
                    json_value::json_text_of(user_message(f, body_only)),
                ),
            ),
        ),
    }
}

fn user_value(fields: &Translatable, body_only: bool) -> (v: JsonValue)
    ensures
        v@ == user_message(fields@, body_only),
{
    let title: String = if body_only {
        String::new()
    } else {
        fields.title.clone()
    };
    let description: String = if body_only {
        String::new()
    } else {
        fields.description.clone()
    };
    assert(body_only ==> title@ =~= Seq::<char>::empty());
    assert(body_only ==> description@ =~= Seq::<char>::empty());
    let mut members: Vec<(String, JsonValue)> = Vec::new();
    members.push(("title".to_string(), JsonValue::Str(title)));
    members.push(("description".to_string(), JsonValue::Str(description)));
    members.push(("body".to_string(), JsonValue::Str(fields.body.clone())));
    let v: JsonValue = JsonValue::Object(members);
    proof {
        json_value::lemma_members(v);
        assert(v@->Object_0 =~= user_message(fields@, body_only)->Object_0);
    }
    v
}

fn message_value(role: &str, content: String) -> (v: JsonValue)
    ensures
        v@ == message_model(role@, content@),
{
    let mut members: Vec<(String, JsonValue)> = Vec::new();
    members.push(("role".to_string(), JsonValue::Str(role.to_string())));
    members.push(("content".to_string(), JsonValue::Str(content)));
    let v: JsonValue = JsonValue::Object(members);
    proof {
        json_value::lemma_members(v);
        assert(v@->Object_0 =~= message_model(role@, content@)->Object_0);
    }
    v
}

/// Builds the request of two messages.
pub fn chat_payload(system: String, user: String) -> (v: JsonValue)
    ensures
        v@ == chat_request(system@, user@),
{
    let mut format: Vec<(String, JsonValue)> = Vec::new();
    format.push(("type".to_string(), JsonValue::Str("json_object".to_string())));
    let format: JsonValue = JsonValue::Object(format);
    let ghost system_text = system@;
    let ghost user_text = user@;
    let mut messages: Vec<JsonValue> = Vec::new();
    messages.push(message_value("system", system));
    messages.push(message_value("user", user));
    let messages: JsonValue = JsonValue::Array(messages);
    proof {
        json_value::lemma_members(format);
        assert(format@->Object_0 =~= seq![("type"@, JsonModel::Str("json_object"@))]);
        json_value::lemma_items(messages);
        assert(messages@->Array_0 =~= seq![
            message_model("system"@, system_text),
            message_model("user"@, user_text),
        ]);
    }
    let mut members: Vec<(String, JsonValue)> = Vec::new();
    members.push(("model".to_string(), JsonValue::Str(MODEL.to_string())));
    members.push(("response_format".to_string(), format));
    members.push(("max_tokens".to_string(), JsonValue::Unsigned(MAX_TOKENS)));
    members.push(("messages".to_string(), messages));
    let v: JsonValue = JsonValue::Object(members);
    proof {
        json_value::lemma_members(v);
        assert(v@->Object_0 =~= chat_request(system_text, user_text)->Object_0);
    }
    v
}

proof fn lemma_messages_without_floats()
    ensures
        forall|f: Fields, body_only: bool|
            json_value::without_floats(#[trigger] user_message(f, body_only)),
        forall|system: Seq<char>, user: Seq<char>|
            json_value::without_floats(#[trigger] chat_request(system, user)),
{
    reveal_with_fuel(json_value::without_floats, 4);
}

/// The text of the request that translates the fields of a page.
pub fn openrouter_request_text(fields: &Translatable, lang: &str, body_only: bool) -> (r: Result<
    String,
    CommandError,
>)
    ensures
        match r {
            Ok(s) => chat_text(fields@, lang@, body_only) == Ok::<Seq<char>, Failure<Seq<char>>>(
                s@,
            ),
            Err(e) => chat_text(fields@, lang@, body_only) == Err::<Seq<char>, Failure<Seq<char>>>(
                e@,
            ),
        },
{
    let name: &'static str = match lang_name(lang) {
        Some(name) => name,
        None => {
            return Err(Failure::UnsupportedLanguage(failure::quoted(lang)));
        },
    };
    proof {
        lemma_messages_without_floats();
    }
    let user: String = json_value::json_text(&user_value(fields, body_only));
    Ok(json_value::json_text(&chat_payload(system_prompt(name, body_only), user)))
}

// ---- the answer ----

/// The message of an answer.
pub open spec fn message_in(data: JsonModel) -> Option<Seq<char>> {
    match json_value::member(data, "choices"@) {
        Some(choices) => match json_value::item(choices, 0) {
            Some(choice) => match json_value::member(choice, "message"@) {
                Some(message) => json_value::string_in(json_value::member(message, "content"@)),
                None => None,
            },
            None => None,
        },
        None => None,
    }
}

/// The string of a member, or nothing.
pub open spec fn string_or_empty(data: JsonModel, key: Seq<char>) -> Seq<char> {
    match json_value::string_in(json_value::member(data, key)) {
        Some(s) => s,
        None => Seq::empty(),
    }
}

/// The fields that the message of the model holds.
pub open spec fn fields_in(data: JsonModel) -> Fields {
    Fields {
        title: string_or_empty(data, "title"@),
        description: string_or_empty(data, "description"@),
        body: string_or_empty(data, "body"@),
    }
}

/// What the text of an answer gives: the fields in its message, which is JSON of
/// its own.
pub open spec fn chat_answer(s: Seq<char>) -> Result<Fields, Failure<Seq<char>>> {
    match json_value::json_parse(s) {
        Err(e) => Err(Failure::OpenRouterNonJson(e)),
        Ok(data) => match message_in(data) {
            None => Err(
                Failure::OpenRouterShape(
                    text::beginning(json_value::json_render(data), 160),
                ),
            ),
            Some(content) => match json_value::json_parse(content) {
                Err(_) => Err(Failure::ModelNonJson(text::beginning(content, 160))),
                Ok(out) => Ok(fields_in(out)),
            },
        },
    }
}

/// The message of an answer.
pub fn find_message(data: &JsonValue) -> (r: Option<&str>)
    ensures
        match r {
            Some(s) => message_in(data@) == Some(s@),
            None => message_in(data@) is None,
        },
{
    let choices: &JsonValue = match data.get("choices") {
        Some(v) => v,
        None => {
            return None;
        },
    };
    let choice: &JsonValue = match choices.at(0) {
        Some(v) => v,
        None => {
            return None;
        },
    };
    let message: &JsonValue = match choice.get("message") {
        Some(v) => v,
        None => {
            return None;
        },
    };
    match message.get("content") {
        Some(v) => v.as_str(),
        None => None,
    }
}

fn member_text(data: &JsonValue, key: &str) -> (s: String)
    ensures
        s@ == string_or_empty(data@, key@),
{
    match data.get(key) {
        Some(v) => match v.as_str() {
            Some(s) => s.to_string(),
            None => String::new(),
        },
        None => String::new(),
    }
}

/// The fields that the message of the model holds; a field that is missing, or
/// no string, is empty.
pub fn read_fields(data: &JsonValue) -> (t: Translatable)
    ensures
        t@ == fields_in(data@),
{
    Translatable {
        title: member_text(data, "title"),
        description: member_text(data, "description"),
        body: member_text(data, "body"),
    }
}

/// What OpenRouter answered: a failure where the status is none of success, else
/// what the text gives.
pub fn openrouter_reply(success: bool, status: &str, s: &str) -> (r: Result<
    Translatable,
    CommandError,
>)
    ensures
        endpoint::says(
            r,
            if success {
                chat_answer(s@)
            } else {
                Err(Failure::OpenRouterHttp { status: status@, body: text::beginning(s@, 200) })
            },
        ),
{
    if !success {
        return Err(
            Failure::OpenRouterHttp { status: status.to_string(), body: text::take200(s) },
        );
    }
    let data = match json_value::parse_json(s) {
        Ok(d) => d,
        Err(e) => {
            return Err(Failure::OpenRouterNonJson(e));
        },
    };
    let content: &str = match find_message(&data.value) {
        Some(c) => c,
        None => {
            return Err(Failure::OpenRouterShape(text::take160(data.shown.as_str())));
        },
    };
    match json_value::parse_json(content) {
        Ok(d) => Ok(read_fields(&d.value)),
        Err(_) => Err(Failure::ModelNonJson(text::take160(content))),
    }
}

// ---- what is asked, and what is made of the answer ----

proof fn lemma_field_names()
    ensures
        "title"@ != "description"@,
        "title"@ != "body"@,
        "description"@ != "body"@,
{
    reveal_strlit("title");
    reveal_strlit("description");
    reveal_strlit("body");
    assert("title"@.len() == 5);
    assert("description"@.len() == 11);
    assert("body"@.len() == 4);
}

/// The title of a reply is the string under `title` of the message of the model, its
/// description the one under `description` and its body the one under `body`; what is
/// missing there, or no string, is empty.
pub proof fn law_reply_has_the_fields_of_the_message(data: JsonModel)
    ensures
        match json_value::member(data, "title"@) {
            Some(JsonModel::Str(s)) => fields_in(data).title == s,
            _ => fields_in(data).title.len() == 0,
        },
        match json_value::member(data, "description"@) {
            Some(JsonModel::Str(s)) => fields_in(data).description == s,
            _ => fields_in(data).description.len() == 0,
        },
        match json_value::member(data, "body"@) {
            Some(JsonModel::Str(s)) => fields_in(data).body == s,
            _ => fields_in(data).body.len() == 0,
        },
{
}

/// The user message carries each field of a page under its name, and of a later piece
/// of a body only the body.
pub proof fn law_user_message(f: Fields, body_only: bool)
    ensures
        json_value::member(user_message(f, body_only), "body"@) == Some(JsonModel::Str(f.body)),
        !body_only ==> json_value::member(user_message(f, body_only), "title"@) == Some(
            JsonModel::Str(f.title),
        ) && json_value::member(user_message(f, body_only), "description"@) == Some(
            JsonModel::Str(f.description),
        ),
        body_only ==> json_value::member(user_message(f, body_only), "title"@) == Some(
            JsonModel::Str(Seq::empty()),
        ) && json_value::member(user_message(f, body_only), "description"@) == Some(
            JsonModel::Str(Seq::empty()),
        ),
{
    lemma_field_names();
    let o = user_message(f, body_only)->Object_0;
    entries::lemma_entry_at(o, "title"@, 0);
    entries::lemma_entry_at(o, "description"@, 1);
    entries::lemma_entry_at(o, "body"@, 2);
}

/// A model that hands back the message that it was sent gives back the fields of the
/// page, and of a later piece of a body the body alone. So it does where the message was
/// written and put in order first.
pub proof fn law_echoed_message_gives_the_fields_back(f: Fields)
    ensures
        fields_in(user_message(f, false)) == f,
        fields_in(json_value::built(user_message(f, false))) == f,
        fields_in(user_message(f, true)) == (Fields {
            title: Seq::empty(),
            description: Seq::empty(),
            body: f.body,
        }),
{
    law_user_message(f, false);
    law_user_message(f, true);
    let o = user_message(f, false)->Object_0;
    json_value::law_built_keeps_strings(o, Seq::empty(), "title"@, 0);
    json_value::law_built_keeps_strings(o, Seq::empty(), "description"@, 0);
    json_value::law_built_keeps_strings(o, Seq::empty(), "body"@, 0);
}

/// The message of an answer is the string under `content`, in what stands under `message`
/// of the first of the `choices`; without it an answer has none.
pub proof fn law_message_of_an_answer(data: JsonModel)
    ensures
        message_in(data) matches Some(s) ==> {
            &&& json_value::member(data, "choices"@) matches Some(JsonModel::Array(choices))
            &&& choices.len() > 0
            &&& json_value::member(choices[0], "message"@) matches Some(message)
            &&& json_value::member(message, "content"@) == Some(JsonModel::Str(s))
        },
        json_value::member(data, "choices"@) matches Some(JsonModel::Array(choices)) ==> {
            choices.len() > 0 ==> {
                json_value::member(choices[0], "message"@) matches Some(message) ==> {
                    json_value::member(message, "content"@) matches Some(JsonModel::Str(s))
                        ==> message_in(data) == Some(s)
                }
            }
        },
{
}

/// An answer gives the fields of its message where both are JSON, and a failure that
/// tells which was not, or that there is no message, otherwise. What a failure shows of a
/// text are its first 160 characters.
pub proof fn law_answer_is_the_message(s: Seq<char>)
    ensures
        match json_value::json_parse(s) {
            Err(e) => chat_answer(s) == Err::<Fields, Failure<Seq<char>>>(
                Failure::OpenRouterNonJson(e),
            ),
            Ok(data) => {
                &&& message_in(data) is None ==> (chat_answer(s) matches Err(
                    Failure::OpenRouterShape(shown),
                ) && shown == text::beginning(json_value::json_render(data), 160))
                &&& message_in(data) matches Some(content) ==> match json_value::json_parse(
                    content,
                ) {
                    Err(_) => chat_answer(s) == Err::<Fields, Failure<Seq<char>>>(
                        Failure::ModelNonJson(text::beginning(content, 160)),
                    ),
                    Ok(out) => chat_answer(s) matches Ok(f) && {
                        &&& json_value::member(out, "title"@) matches Some(JsonModel::Str(t))
                            ==> f.title == t
                        &&& json_value::member(out, "description"@) matches Some(JsonModel::Str(d))
                            ==> f.description == d
                        &&& json_value::member(out, "body"@) matches Some(JsonModel::Str(b))
                            ==> f.body == b
                    },
                }
            },
        },
{
}

/// The request names the model, asks for a JSON object of at most 16384 tokens, and has
/// two messages: what the model is told to do, and what it is given.
pub proof fn law_chat_request(system: Seq<char>, user: Seq<char>)
    ensures
        ({
            let request = chat_request(system, user);
            &&& json_value::member(request, "model"@) == Some(
                JsonModel::Str("openai/gpt-4o-mini"@),
            )
            &&& json_value::member(request, "max_tokens"@) == Some(JsonModel::Unsigned(16384))
            &&& json_value::member(request, "response_format"@) matches Some(format)
            &&& json_value::member(format, "type"@) == Some(JsonModel::Str("json_object"@))
            &&& json_value::member(request, "messages"@) matches Some(JsonModel::Array(messages))
            &&& messages.len() == 2
            &&& json_value::member(messages[0], "role"@) == Some(JsonModel::Str("system"@))
            &&& json_value::member(messages[0], "content"@) == Some(JsonModel::Str(system))
            &&& json_value::member(messages[1], "role"@) == Some(JsonModel::Str("user"@))
            &&& json_value::member(messages[1], "content"@) == Some(JsonModel::Str(user))
        }),
{
    reveal_strlit("model");
    reveal_strlit("max_tokens");
    reveal_strlit("response_format");
    reveal_strlit("messages");
    reveal_strlit("role");
    reveal_strlit("content");
    reveal_strlit("type");
    assert("model"@.len() == 5);
    assert("max_tokens"@.len() == 10);
    assert("response_format"@.len() == 15);
    assert("messages"@.len() == 8);
    assert("role"@.len() == 4);
    assert("content"@.len() == 7);
    let o = chat_request(system, user)->Object_0;
    entries::lemma_entry_at(o, "model"@, 0);
    entries::lemma_entry_at(o, "response_format"@, 1);
    entries::lemma_entry_at(o, "max_tokens"@, 2);
    entries::lemma_entry_at(o, "messages"@, 3);
    let format = seq![("type"@, JsonModel::Str("json_object"@))];
    entries::lemma_entry_at(format, "type"@, 0);
    let a = message_model("system"@, system)->Object_0;
    let b = message_model("user"@, user)->Object_0;
    entries::lemma_entry_at(a, "role"@, 0);
    entries::lemma_entry_at(a, "content"@, 1);
    entries::lemma_entry_at(b, "role"@, 0);
    entries::lemma_entry_at(b, "content"@, 1);
}

/// The text of a request is that of the two messages: the instructions for the language
/// and the fields of the page. A language without a name is a failure that tells it.
pub proof fn law_request_for_a_page(f: Fields, lang: Seq<char>, body_only: bool)
    ensures
        match language_name(lang) {
            None => chat_text(f, lang, body_only) == Err::<Seq<char>, Failure<Seq<char>>>(
                Failure::UnsupportedLanguage(failure::debug_text(lang)),
            ),
            Some(name) => chat_text(f, lang, body_only) == Ok::<Seq<char>, Failure<Seq<char>>>(
                json_value::json_text_of(
                    chat_request(
                        system_prompt_of(name, body_only),
                        json_value::json_text_of(user_message(f, body_only)),
                    ),
                ),
            ),
        },
{
}

/// The languages that have a name are Spanish, Portuguese, simplified Chinese, Korean,
/// Japanese, French and Arabic, each by its code.
pub proof fn law_language_names(code: Seq<char>)
    ensures
        language_name("es"@) == Some("Spanish"@),
        language_name("pt"@) == Some("Portuguese"@),
        language_name("zh"@) == Some("Chinese (Simplified)"@),
        language_name("ko"@) == Some("Korean"@),
        language_name("ja"@) == Some("Japanese"@),
        language_name("fr"@) == Some("French"@),
        language_name("ar"@) == Some("Arabic"@),
        language_name(code) is Some ==> seq![
            "es"@,
            "pt"@,
            "zh"@,
            "ko"@,
            "ja"@,
            "fr"@,
            "ar"@,
        ].contains(code),
{
    reveal_strlit("es");
    reveal_strlit("pt");
    reveal_strlit("zh");
    reveal_strlit("ko");
    reveal_strlit("ja");
    reveal_strlit("fr");
    reveal_strlit("ar");
    assert("es"@[0] == 'e' && "pt"@[0] == 'p' && "zh"@[0] == 'z' && "ko"@[0] == 'k' && "ja"@[0]
        == 'j' && "fr"@[0] == 'f' && "ar"@[0] == 'a');
    let all = seq!["es"@, "pt"@, "zh"@, "ko"@, "ja"@, "fr"@, "ar"@];
    assert(all[0] == "es"@ && all[1] == "pt"@ && all[2] == "zh"@ && all[3] == "ko"@ && all[4]
        == "ja"@ && all[5] == "fr"@ && all[6] == "ar"@);
}

/// The instructions begin with what is to be translated, name the language after that,
/// and tell to keep the brand tokens and to answer with the three keys; for a piece of a
/// body they tell to leave the title and the description empty.
pub proof fn law_instructions(name: Seq<char>)
    ensures
        exists|rest: Seq<char>| #[trigger]
            told(rest) && system_prompt_of(name, false)
                == "You translate marketing web content into "@ + name + rest,
        exists|rest: Seq<char>| #[trigger]
            told(rest) && system_prompt_of(name, true)
                == "You translate marketing web page BODY markdown into "@ + name + rest
                && text::occurs("Leave title and description as empty strings."@, rest),
{
    let a = ". Translate ONLY human-readable text. Preserve these brand tokens verbatim, untranslated: Curriculo, CurriculoATS. Return a single JSON object with exactly these keys: title, description, body. Leave title and description as empty strings. No prose."@;
    let b = ". Translate ONLY human-readable text. Preserve these brand tokens verbatim, untranslated: Curriculo, CurriculoATS. Return a single JSON object with exactly these keys: title, description, body. No prose."@;
    reveal_strlit(
        ". Translate ONLY human-readable text. Preserve these brand tokens verbatim, untranslated: Curriculo, CurriculoATS. Return a single JSON object with exactly these keys: title, description, body. Leave title and description as empty strings. No prose.",
    );
    reveal_strlit(
        ". Translate ONLY human-readable text. Preserve these brand tokens verbatim, untranslated: Curriculo, CurriculoATS. Return a single JSON object with exactly these keys: title, description, body. No prose.",
    );
    reveal_strlit("Preserve these brand tokens verbatim, untranslated: Curriculo, CurriculoATS.");
    reveal_strlit(
        "Return a single JSON object with exactly these keys: title, description, body.",
    );
    reveal_strlit("Leave title and description as empty strings.");
    let p = "Preserve these brand tokens verbatim, untranslated: Curriculo, CurriculoATS."@;
    let q = "Return a single JSON object with exactly these keys: title, description, body."@;
    let r = "Leave title and description as empty strings."@;
    assert(a.subrange(38, (38 + p.len()) as int) =~= p);
    assert(text::occurs_at(p, a, 38));
    assert(b.subrange(38, (38 + p.len()) as int) =~= p);
    assert(text::occurs_at(p, b, 38));
    let n = (38 + p.len() + 1) as int;
    assert(a.subrange(n, n + q.len()) =~= q);
    assert(text::occurs_at(q, a, n));
    assert(b.subrange(n, n + q.len()) =~= q);
    assert(text::occurs_at(q, b, n));
    let m: int = n + q.len() + 1;
    assert(a.subrange(m, m + r.len()) =~= r);
    assert(text::occurs_at(r, a, m));
    assert(told(a) && told(b));
}

/// Whether instructions tell to keep the brand tokens, and which keys to answer with.
pub open spec fn told(s: Seq<char>) -> bool {
    &&& text::occurs(
        "Preserve these brand tokens verbatim, untranslated: Curriculo, CurriculoATS."@,
        s,
    )
    &&& text::occurs(
        "Return a single JSON object with exactly these keys: title, description, body."@,
        s,
    )
}

/// A reply of the status of success whose message is a JSON object with three strings
/// under `title`, `description` and `body` is those three fields. A reply of another
/// status is a failure that tells the status and the first 200 characters of the text.
pub proof fn law_openrouter_reply(
    success: bool,
    status: &str,
    s: &str,
    r: Result<Translatable, CommandError>,
    message: JsonModel,
    f: Fields,
)
    requires
        call_ensures(openrouter_reply, (success, status, s), r),
        json_value::member(message, "title"@) == Some(JsonModel::Str(f.title)),
        json_value::member(message, "description"@) == Some(JsonModel::Str(f.description)),
        json_value::member(message, "body"@) == Some(JsonModel::Str(f.body)),
    ensures
        !success ==> (r matches Err(e) && (e@ matches Failure::OpenRouterHttp { status: t, body: b }
            && t == status@ && b.len() <= 200 && b.is_prefix_of(s@) && (b.len() == 200 || b == s@))),
        success ==> (json_value::json_parse(s@) matches Ok(data) ==> (message_in(
            data,
        ) matches Some(content) ==> (json_value::json_parse(content) == Ok::<JsonModel, Seq<char>>(
            message,
        ) ==> (r matches Ok(t) && t@.title == f.title && t@.description == f.description
            && t@.body == f.body)))),
        success && (json_value::json_parse(s@) is Err || message_in(
            json_value::json_parse(s@)->Ok_0,
        ) is None) ==> r is Err,
{
    law_reply_has_the_fields_of_the_message(message);
    text::law_beginning(s@, 200);
}

} // verus!
