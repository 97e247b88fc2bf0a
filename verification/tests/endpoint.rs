use zola_graph::endpoint::{
    build_translate_request, endpoint_step, parse_translate_response, translate_reply,
    translate_request_text, EndpointStep,
};
use zola_graph::json_value::{json_text, parse_json, JsonValue};
use zola_graph::translate::Translatable;

fn t(title: &str, description: &str, body: &str) -> Translatable {
    Translatable { title: title.into(), description: description.into(), body: body.into() }
}

fn strings(v: &[&str]) -> JsonValue {
    JsonValue::Array(v.iter().map(|s| JsonValue::Str(s.to_string())).collect())
}

fn text(s: &str) -> JsonValue {
    JsonValue::Str(s.to_string())
}

#[test]
fn request_carries_every_non_empty_field_in_order() {
    let (payload, sent) = build_translate_request(&t("T", "D", "B"), "ko", &vec![]);
    assert_eq!(sent, vec!["title", "description", "body"]);
    assert_eq!(payload.get("texts"), Some(&strings(&["T", "D", "B"])));
    assert_eq!(payload.get("target_language"), Some(&text("ko")));
    assert_eq!(payload.get("source_language"), Some(&text("en")));
    assert!(payload.get("preserve_terms").is_none());
}

#[test]
fn request_carries_preserve_terms_when_supplied() {
    let terms = vec!["Acme Widgets".to_string(), "Zephyr Analytics".to_string()];
    let (payload, _) = build_translate_request(&t("T", "D", "B"), "ko", &terms);
    assert_eq!(
        payload.get("preserve_terms"),
        Some(&strings(&["Acme Widgets", "Zephyr Analytics"]))
    );
    assert_eq!(payload.get("target_language"), Some(&text("ko")));
}

#[test]
fn body_only_chunk_sends_only_the_body() {
    let (payload, sent) = build_translate_request(&t("", "", "B"), "ja", &vec![]);
    assert_eq!(sent, vec!["body"]);
    assert_eq!(payload.get("texts"), Some(&strings(&["B"])));
}

#[test]
fn response_maps_back_onto_the_fields_that_were_sent() {
    let (_, sent) = build_translate_request(&t("", "", "B"), "ja", &vec![]);
    let out =
        parse_translate_response(r#"{"translations":["本文"]}"#, &sent, &t("", "", "B")).unwrap();
    assert_eq!(out.body, "本文");
    assert!(out.title.is_empty() && out.description.is_empty());
}

#[test]
fn short_response_is_an_error_not_a_silent_shift() {
    let (_, sent) = build_translate_request(&t("T", "D", "B"), "fr", &vec![]);
    let err = parse_translate_response(
        r#"{"translations":["Titre","Description"]}"#,
        &sent,
        &t("T", "D", "B"),
    )
    .unwrap_err();
    assert!(err.message().contains("2 translation(s) for 3"));
}

#[test]
fn missing_translations_array_is_an_error() {
    let (_, sent) = build_translate_request(&t("T", "", ""), "fr", &vec![]);
    let err = parse_translate_response(r#"{"oops":true}"#, &sent, &t("T", "", "")).unwrap_err();
    assert!(err.message().contains("translations"));
    assert_eq!(err.message(), r#"translate endpoint: no `translations` array: {"oops":true}"#);
}

#[test]
fn ok_false_is_a_hard_failure_not_source_passthrough() {
    let (_, sent) = build_translate_request(&t("T", "D", "B"), "ko", &vec![]);
    let err = parse_translate_response(
        r#"{"ok":false,"translations":["T","D","B"]}"#,
        &sent,
        &t("T", "D", "B"),
    )
    .unwrap_err();
    assert!(err.message().contains("ok:false"), "got: {}", err.message());
}

#[test]
fn ok_array_with_a_false_flag_is_a_hard_failure() {
    let (_, sent) = build_translate_request(&t("T", "", "B"), "ko", &vec![]);
    let err = parse_translate_response(
        r#"{"ok":[true,false],"translations":["T","B"]}"#,
        &sent,
        &t("T", "", "B"),
    )
    .unwrap_err();
    assert!(err.message().contains("ok[1]=false"), "got: {}", err.message());
    assert!(err.message().contains("`body`"), "names the failed field: {}", err.message());
}

#[test]
fn ok_all_true_or_absent_still_passes() {
    let (_, sent) = build_translate_request(&t("", "", "B"), "ja", &vec![]);
    for body in [r#"{"ok":[true],"translations":["本文"]}"#, r#"{"translations":["本文"]}"#] {
        let out = parse_translate_response(body, &sent, &t("", "", "B")).unwrap();
        assert_eq!(out.body, "本文");
    }
}

#[test]
fn ok_true_or_null_passes() {
    let (_, sent) = build_translate_request(&t("", "", "B"), "ja", &vec![]);
    for body in [r#"{"ok":true,"translations":["x"]}"#, r#"{"ok":null,"translations":["x"]}"#] {
        let out = parse_translate_response(body, &sent, &t("", "", "B")).unwrap();
        assert_eq!(out.body, "x");
    }
}

#[test]
fn mirrored_error_code_1003_is_a_hard_failure() {
    let (_, sent) = build_translate_request(&t("T", "", ""), "fr", &vec![]);
    for body in [
        r#"{"code":1003,"translations":["T"]}"#,
        r#"{"status":1003,"translations":["T"]}"#,
        r#"{"error_code":"1003","translations":["T"]}"#,
    ] {
        let err = parse_translate_response(body, &sent, &t("T", "", "")).unwrap_err();
        assert!(err.message().contains("1003"), "body {body} -> {}", err.message());
    }
}

#[test]
fn non_string_translation_is_an_error_not_a_blank() {
    let (_, sent) = build_translate_request(&t("T", "D", "B"), "ko", &vec![]);
    for body in [
        r#"{"translations":[null,"D","B"]}"#,
        r#"{"translations":[["T"],"D","B"]}"#,
        r#"{"translations":[{"v":"T"},"D","B"]}"#,
    ] {
        let err = parse_translate_response(body, &sent, &t("T", "D", "B")).unwrap_err();
        assert!(
            err.message().contains("`title` is not a string"),
            "body {body} -> {}",
            err.message()
        );
    }
}

#[test]
fn ok_array_shorter_than_sent_is_malformed() {
    let (_, sent) = build_translate_request(&t("T", "D", "B"), "ko", &vec![]);
    let err = parse_translate_response(
        r#"{"ok":[true],"translations":["T","D","B"]}"#,
        &sent,
        &t("T", "D", "B"),
    )
    .unwrap_err();
    assert_eq!(
        err.message(),
        "translate endpoint: malformed envelope with 1 ok flag(s) for 3 text(s) — not writing"
    );
}

#[test]
fn numeric_negative_error_code_is_a_hard_failure() {
    let (_, sent) = build_translate_request(&t("T", "", ""), "fr", &vec![]);
    for (body, words) in [
        (r#"{"code":-1,"translations":["T"]}"#, "error code -1 in `code`"),
        (r#"{"status":"-7","translations":["T"]}"#, "error code -7 in `status`"),
        (
            r#"{"error_code":18446744073709551615,"translations":["T"]}"#,
            "error code 18446744073709551615 in `error_code`",
        ),
    ] {
        let err = parse_translate_response(body, &sent, &t("T", "", "")).unwrap_err();
        assert!(err.message().contains(words), "body {body} -> {}", err.message());
    }
}

#[test]
fn success_codes_and_other_values_pass() {
    let (_, sent) = build_translate_request(&t("T", "", ""), "fr", &vec![]);
    for body in [
        r#"{"code":0,"translations":["X"]}"#,
        r#"{"status":200,"translations":["X"]}"#,
        r#"{"status":"ok","translations":["X"]}"#,
        r#"{"code":"200","translations":["X"]}"#,
        r#"{"code":null,"translations":["X"]}"#,
        r#"{"code":1003.5,"translations":["X"]}"#,
    ] {
        let out = parse_translate_response(body, &sent, &t("T", "", "")).unwrap();
        assert_eq!(out.title, "X", "body {body}");
    }
}

#[test]
fn non_json_answer_is_named() {
    let (_, sent) = build_translate_request(&t("T", "", ""), "fr", &vec![]);
    let err = parse_translate_response("<html>", &sent, &t("T", "", "")).unwrap_err();
    assert!(err.message().starts_with("translate endpoint non-JSON response: "));
    assert!(err.message().contains("line 1 column 1"));
}

#[test]
fn every_translation_lands_on_its_field() {
    let fields = t("T", "", "B");
    let (_, sent) = build_translate_request(&fields, "fr", &vec![]);
    let out = parse_translate_response(r#"{"translations":["Titre","Corps"]}"#, &sent, &fields)
        .unwrap();
    assert_eq!(out, t("Titre", "", "Corps"));
}

#[test]
fn http_failures_carry_the_beginning_of_the_body() {
    let long = "x".repeat(300);
    let err =
        translate_reply(false, "502 Bad Gateway", &long, &vec!["body"], &t("", "", "B")).unwrap_err();
    assert_eq!(
        err.message(),
        format!("translate endpoint HTTP 502 Bad Gateway: {}", "x".repeat(200))
    );
    let out =
        translate_reply(true, "200 OK", r#"{"translations":["y"]}"#, &vec!["body"], &t("", "", "B"))
            .unwrap();
    assert_eq!(out.body, "y");
}

#[test]
fn request_text_is_json_with_sorted_keys() {
    let (payload, sent) =
        translate_request_text(&t("T", "", "B \"q\""), "ko", &vec!["Acme".to_string()]).unwrap();
    assert_eq!(sent, vec!["title", "body"]);
    assert_eq!(
        payload,
        r#"{"preserve_terms":["Acme"],"source_language":"en","target_language":"ko","texts":["T","B \"q\""]}"#
    );
    assert!(translate_request_text(&t("", "", ""), "ko", &vec![]).is_none());
}

#[test]
fn empty_fields_are_their_own_translation() {
    assert_eq!(
        endpoint_step(&t("", "", ""), "ko", &vec!["Acme".to_string()]),
        EndpointStep::Done(t("", "", ""))
    );
    let terms: Vec<String> = vec![];
    let (payload, sent) = translate_request_text(&t("", "", " "), "ko", &terms).unwrap();
    assert_eq!(endpoint_step(&t("", "", " "), "ko", &terms), EndpointStep::Send(payload, sent));
}

#[test]
fn json_numbers_keep_their_kind() {
    let doc = parse_json(r#"{"a":1,"b":-1,"c":1.5,"d":[true,null],"e":{"f":"g"}}"#).unwrap();
    let v = &doc.value;
    assert_eq!(v.get("a"), Some(&JsonValue::Unsigned(1)));
    assert_eq!(v.get("b"), Some(&JsonValue::Negative(-1)));
    assert_eq!(v.get("c"), Some(&JsonValue::Float("1.5".to_string())));
    assert_eq!(v.get("d").unwrap().at(1), Some(&JsonValue::Null));
    assert_eq!(v.get("d").unwrap().at(2), None);
    assert_eq!(v.get("e").unwrap().get("f").unwrap().as_str(), Some("g"));
    assert_eq!(v.get("x"), None);
    assert_eq!(doc.shown, r#"{"a":1,"b":-1,"c":1.5,"d":[true,null],"e":{"f":"g"}}"#);
    let kinds: Vec<&str> =
        ["a", "c", "d", "e"].iter().map(|k| v.get(k).unwrap().json_kind()).collect();
    assert_eq!(kinds, vec!["number", "number", "array", "object"]);
}

#[test]
fn json_is_written_with_sorted_members() {
    let v = JsonValue::Object(vec![
        ("b".to_string(), JsonValue::Negative(-3)),
        ("a".to_string(), JsonValue::Array(vec![JsonValue::Null, JsonValue::Bool(true)])),
        ("é".to_string(), text("x\ny")),
        ("b".to_string(), JsonValue::Negative(4)),
        ("B".to_string(), JsonValue::Object(vec![])),
    ]);
    let written = json_text(&v);
    assert_eq!(written, r#"{"B":{},"a":[null,true],"b":4,"é":"x\ny"}"#);
    let doc = parse_json(&written).unwrap();
    assert_eq!(doc.shown, written);
    assert_eq!(doc.value.get("b"), Some(&JsonValue::Unsigned(4)));
    assert_eq!(json_text(&doc.value), written);
}

#[test]
fn json_duplicate_keys_keep_the_last() {
    let doc = parse_json(r#"{"code":1003,"code":0}"#).unwrap();
    assert_eq!(doc.value.get("code"), Some(&JsonValue::Unsigned(0)));
}
