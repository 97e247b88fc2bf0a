use zola_graph::json_value::parse_json;
use zola_graph::openrouter::{lang_name, openrouter_reply, openrouter_request_text};
use zola_graph::translate::Translatable;

fn t(title: &str, description: &str, body: &str) -> Translatable {
    Translatable { title: title.into(), description: description.into(), body: body.into() }
}

#[test]
fn languages_have_names() {
    assert_eq!(lang_name("es"), Some("Spanish"));
    assert_eq!(lang_name("zh"), Some("Chinese (Simplified)"));
    assert_eq!(lang_name("ar"), Some("Arabic"));
    assert_eq!(lang_name("de"), None);
    assert_eq!(lang_name("ES"), None);
}

#[test]
fn unsupported_language_is_quoted() {
    let err = openrouter_request_text(&t("T", "D", "B"), "x\"y", false).unwrap_err();
    assert_eq!(err.message(), "unsupported target language \"x\\\"y\"");
}

#[test]
fn request_names_model_language_and_fields() {
    let text = openrouter_request_text(&t("T", "D", "B"), "fr", false).unwrap();
    let doc = parse_json(&text).unwrap().value;
    assert_eq!(doc.get("model").unwrap().as_str(), Some("openai/gpt-4o-mini"));
    assert_eq!(
        doc.get("response_format").unwrap().get("type").unwrap().as_str(),
        Some("json_object")
    );
    let messages = doc.get("messages").unwrap();
    let system = messages.at(0).unwrap();
    assert_eq!(system.get("role").unwrap().as_str(), Some("system"));
    assert_eq!(
        system.get("content").unwrap().as_str(),
        Some("You translate marketing web content into French. Translate ONLY human-readable text. Preserve these brand tokens verbatim, untranslated: Curriculo, CurriculoATS. Return a single JSON object with exactly these keys: title, description, body. No prose.")
    );
    let user = messages.at(1).unwrap();
    assert_eq!(user.get("role").unwrap().as_str(), Some("user"));
    assert_eq!(
        user.get("content").unwrap().as_str(),
        Some(r#"{"body":"B","description":"D","title":"T"}"#)
    );
    assert_eq!(
        text,
        concat_request("You translate marketing web content into French. Translate ONLY human-readable text. Preserve these brand tokens verbatim, untranslated: Curriculo, CurriculoATS. Return a single JSON object with exactly these keys: title, description, body. No prose.")
    );
}

fn concat_request(system: &str) -> String {
    let user = r#"{\"body\":\"B\",\"description\":\"D\",\"title\":\"T\"}"#;
    format!(
        r#"{{"max_tokens":16384,"messages":[{{"content":"{system}","role":"system"}},{{"content":"{user}","role":"user"}}],"model":"openai/gpt-4o-mini","response_format":{{"type":"json_object"}}}}"#
    )
}

#[test]
fn later_pieces_blank_title_and_description() {
    let text = openrouter_request_text(&t("T", "D", "B"), "ja", true).unwrap();
    let doc = parse_json(&text).unwrap().value;
    let messages = doc.get("messages").unwrap();
    assert_eq!(
        messages.at(1).unwrap().get("content").unwrap().as_str(),
        Some(r#"{"body":"B","description":"","title":""}"#)
    );
    assert_eq!(
        messages.at(0).unwrap().get("content").unwrap().as_str(),
        Some("You translate marketing web page BODY markdown into Japanese. Translate ONLY human-readable text. Preserve these brand tokens verbatim, untranslated: Curriculo, CurriculoATS. Return a single JSON object with exactly these keys: title, description, body. Leave title and description as empty strings. No prose.")
    );
}

#[test]
fn reply_fields_default_to_empty() {
    let out = openrouter_reply(
        true,
        "200 OK",
        r#"{"choices":[{"message":{"content":"{\"title\":\"Titre\",\"body\":5}"}}]}"#,
    )
    .unwrap();
    assert_eq!(out, t("Titre", "", ""));
}

#[test]
fn reply_failures_are_told_apart() {
    assert_eq!(
        openrouter_reply(false, "429 Too Many Requests", "slow down").unwrap_err().message(),
        "OpenRouter HTTP 429 Too Many Requests: slow down"
    );
    assert!(openrouter_reply(true, "200 OK", "nope")
        .unwrap_err()
        .message()
        .starts_with("OpenRouter non-JSON response: "));
    assert_eq!(
        openrouter_reply(true, "200 OK", r#"{"choices":[]}"#).unwrap_err().message(),
        r#"OpenRouter: unexpected shape: {"choices":[]}"#
    );
    assert_eq!(
        openrouter_reply(
            true,
            "200 OK",
            r#"{"choices":[{"message":{"content":"{\"title\":"}}]}"#
        )
        .unwrap_err()
        .message(),
        "model returned non-JSON (likely truncated at output cap): {\"title\":"
    );
}
