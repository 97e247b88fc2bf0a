use std::cell::{Cell, RefCell};
use zola_graph::chunk::{chunk_body, BODY_CHUNK_CHARS};
use zola_graph::failure::{CommandError, Failure};
use zola_graph::settings::{
    asked_secs, choose_client, preserve_terms, refresh_key, timeout_secs, ClientChoice,
};
use zola_graph::translate::{
    assemble, glossary_ok, source_hash, take_answer, translate_fields, translate_fields_impl,
    translation_requests, LlmClient, Progress, Translatable,
};

fn t(title: &str, description: &str, body: &str) -> Translatable {
    Translatable { title: title.into(), description: description.into(), body: body.into() }
}

#[test]
fn long_body_is_chunked_by_the_endpoint_client_too() {
    let body = (0..40)
        .map(|i| format!("## Heading {i}\n\n{}", "word ".repeat(120)))
        .collect::<Vec<_>>()
        .join("\n\n");
    assert!(body.len() > BODY_CHUNK_CHARS, "fixture must exceed the cap");
    let calls = Cell::new(0usize);
    let out = translate_fields_impl(
        |n: usize, f: &Translatable, _body_only: bool| {
            calls.set(n + 1);
            Ok((f.clone(), n + 1))
        },
        0,
        &t("T", "D", &body),
    )
    .unwrap();
    assert!(calls.get() > 1, "expected the body to be chunked, got {} call(s)", calls.get());
    assert_eq!(out.title, "T");
    assert_eq!(out.description, "D");
    let ink = |s: &str| s.chars().filter(|c| !c.is_whitespace()).collect::<String>();
    assert_eq!(ink(&out.body), ink(&body));
}

#[test]
fn source_hash_is_deterministic_and_field_scoped() {
    let a = t("t", "d", "b");
    let b = t("t", "d", "b");
    let c = t("t", "d", "B");
    assert_eq!(source_hash(&a), source_hash(&b));
    assert_ne!(source_hash(&a), source_hash(&c));
}

#[test]
fn source_hash_is_sha256_of_the_separated_fields() {
    // SHA-256 of two zero bytes.
    assert_eq!(
        source_hash(&t("", "", "")),
        "96a296d224f285c67bee93c30f8a309157f0daa35dc5b87e410b78630a09cfc7"
    );
    assert_ne!(source_hash(&t("ab", "", "c")), source_hash(&t("a", "b", "c")));
    let hash = source_hash(&t("a", "b", "c"));
    assert_eq!(hash.len(), 64);
    assert!(hash.chars().all(|c| c.is_ascii_digit() || ('a'..='f').contains(&c)));
}

#[test]
fn glossary_passes_when_token_preserved() {
    let en = t("Welcome to Curriculo", "", "");
    let ok = Translatable { title: "Bienvenue sur Curriculo".into(), ..en.clone() };
    let lost = Translatable { title: "Bienvenue sur Brand".into(), ..en.clone() };
    assert!(glossary_ok(&en, &ok).is_ok());
    assert!(glossary_ok(&en, &lost).is_err());
    assert_eq!(
        glossary_ok(&en, &lost).unwrap_err().message(),
        "glossary: brand token \"Curriculo\" lost in translation"
    );
}

#[test]
fn glossary_holds_each_token_by_itself() {
    let en = t("CurriculoATS", "", "");
    let part = t("Curriculo", "", "");
    assert_eq!(
        glossary_ok(&en, &part).unwrap_err().message(),
        "glossary: brand token \"CurriculoATS\" lost in translation"
    );
    assert!(glossary_ok(&t("plain", "", ""), &t("", "", "")).is_ok());
    assert!(glossary_ok(&en, &t("", "", "x CurriculoATS y")).is_ok());
}

#[test]
fn chunk_body_splits_on_h2_when_large() {
    let h2 = "## Section\n\n";
    let para = "word ".repeat(800); // ~4k chars each
    let body = format!("{h2}{para}\n{h2}{para}\n{h2}{para}");
    let chunks = chunk_body(&body);
    assert!(chunks.len() >= 2, "expected multiple chunks, got {}", chunks.len());
    let joined = chunks.join("\n\n");
    assert!(joined.contains("## Section"));
    assert_eq!(chunks.len(), 3);
    assert!(chunks.iter().all(|c| c.starts_with("## Section\n\nword")));
}

#[test]
fn chunk_body_keeps_short_bodies_whole() {
    assert_eq!(chunk_body("  a\n\n## b \n"), vec!["a\n\n## b"]);
    assert_eq!(chunk_body(" \n "), vec![""]);
    assert_eq!(chunk_body(&"x".repeat(6000)).len(), 1);
    // The cap counts bytes.
    let wide = format!("{}\n{}", "語".repeat(1500), "語".repeat(1500));
    assert_eq!(chunk_body(&wide), vec![wide.clone()]);
}

#[test]
fn chunk_body_ends_a_full_piece_after_any_line() {
    let body = format!("{}\n{}\nend", "a".repeat(3500), "b".repeat(3500));
    assert_eq!(
        chunk_body(&body),
        vec![format!("{}\n{}", "a".repeat(3500), "b".repeat(3500)), "end".to_string()]
    );
    let heads = format!("{}\n## h\n{}", "a".repeat(2900), "b".repeat(4000));
    assert_eq!(chunk_body(&heads).len(), 1);
    let half = format!("{}\n## h\n{}", "a".repeat(3000), "b".repeat(4000));
    assert_eq!(chunk_body(&half), vec!["a".repeat(3000), format!("## h\n{}", "b".repeat(4000))]);
}

#[test]
fn pieces_stay_under_the_cap_and_the_longest_line() {
    let body = (0..400).map(|i| format!("line {i} {}", "z".repeat(90))).collect::<Vec<_>>().join("\n");
    for c in chunk_body(&body) {
        assert!(c.len() <= BODY_CHUNK_CHARS + 100);
    }
}

struct CountingClient {
    calls: Cell<usize>,
}

impl LlmClient for CountingClient {
    fn translate(
        &self,
        f: &Translatable,
        lang: &str,
        _key: &str,
    ) -> Result<Translatable, CommandError> {
        self.calls.set(self.calls.get() + 1);
        Ok(Translatable {
            title: if f.title.is_empty() {
                String::new()
            } else {
                format!("[{lang}] {}", f.title)
            },
            description: if f.description.is_empty() {
                String::new()
            } else {
                format!("[{lang}] {}", f.description)
            },
            body: format!("[{lang}] {}", f.body),
        })
    }
}

#[test]
fn large_body_uses_multiple_translate_calls() {
    let h2 = "## Part\n\n";
    let para = "Curriculo ".repeat(1200);
    let body = format!("{h2}{para}\n{h2}{para}\n{h2}{para}");
    let en = Translatable { title: "Big Curriculo page".into(), description: "desc".into(), body };
    let c = CountingClient { calls: Cell::new(0) };
    let out = translate_fields(&c, &en, "es", "k").unwrap();
    assert!(c.calls.get() > 1, "chunked body should call translate more than once");
    assert!(out.body.contains("[es]"));
    assert!(out.title.contains("Curriculo"));
    assert_eq!(out.title, "[es] Big Curriculo page");
    assert_eq!(out.description, "[es] desc");
}

#[test]
fn first_failing_piece_ends_the_translation() {
    let body = format!("{}\n{}\nend", "a".repeat(3500), "b".repeat(3500));
    let calls = Cell::new(0usize);
    let err = translate_fields_impl(
        |(), f: &Translatable, alone: bool| {
            calls.set(calls.get() + 1);
            if alone {
                assert_eq!(f.title, "");
                Err(Failure::Outside("boom".to_string()))
            } else {
                Ok((f.clone(), ()))
            }
        },
        (),
        &t("T", "D", &body),
    )
    .unwrap_err();
    assert_eq!(err.message(), "boom");
    assert_eq!(calls.get(), 2);
}

/// Translates a page by a service that hands back what it was sent. Tells what came
/// of it, and what was sent.
fn echoed(fields: &Translatable) -> (Translatable, Vec<(Translatable, bool)>) {
    let sent = RefCell::new(Vec::new());
    let out = translate_fields_impl(
        |(), f: &Translatable, alone: bool| {
            sent.borrow_mut().push((f.clone(), alone));
            Ok((f.clone(), ()))
        },
        (),
        fields,
    )
    .unwrap();
    (out, sent.into_inner())
}

#[test]
fn two_pieces_take_two_calls() {
    let a = format!("## A\n{}", "x".repeat(5000));
    let b = format!("## B\n{}", "y".repeat(5000));
    let (out, sent) = echoed(&t("T", "D", &format!("{a}\n{b}")));
    assert_eq!(out, t("T", "D", &format!("{a}\n\n{b}")));
    assert_eq!(sent, vec![(t("T", "D", &a), false), (t("", "", &b), true)]);
}

#[test]
fn one_piece_takes_one_call_and_its_reply_is_kept() {
    let short = t("T", "D", "  a\n\n\nb ");
    let (out, sent) = echoed(&short);
    assert_eq!(out, short);
    assert_eq!(sent, vec![(short, false)]);
}

#[test]
fn first_failing_request_is_the_only_one() {
    let body = format!("{}\n{}\nend", "a".repeat(3500), "b".repeat(3500));
    let calls = Cell::new(0usize);
    let err = translate_fields_impl(
        |(), _f: &Translatable, _alone: bool| -> Result<(Translatable, ()), CommandError> {
            calls.set(calls.get() + 1);
            Err(Failure::Outside("boom".to_string()))
        },
        (),
        &t("T", "D", &body),
    )
    .unwrap_err();
    assert_eq!((err.message(), calls.get()), ("boom".to_string(), 1));
}

#[test]
fn answers_are_taken_one_by_one() {
    let mut replies: Vec<Translatable> = Vec::new();
    assert_eq!(
        take_answer(2, &mut replies, Ok((t("T", "D", "a"), 7usize))),
        Progress::Ask(1, 7)
    );
    let boom = || Failure::Outside("boom".to_string());
    assert_eq!(take_answer::<usize>(2, &mut replies, Err(boom())), Progress::Failed(boom()));
    assert_eq!(replies, vec![t("T", "D", "a")]);
    assert_eq!(
        take_answer(2, &mut replies, Ok((t("x", "y", "b"), 8usize))),
        Progress::Done(t("T", "D", "a\n\nb"))
    );
    assert_eq!(replies.len(), 2);
}

#[test]
fn requests_send_title_and_description_once() {
    let body = format!("{}\n{}\nend", "a".repeat(3500), "b".repeat(3500));
    let requests = translation_requests(&t("T", "D", &body));
    assert_eq!(requests.len(), 2);
    assert_eq!(requests[0].0.title, "T");
    assert!(!requests[0].1);
    assert_eq!(requests[1], (t("", "", "end"), true));
    assert_eq!(translation_requests(&t("T", "D", " b ")), vec![(t("T", "D", " b "), false)]);
}

#[test]
fn replies_are_joined_with_blank_lines() {
    let out = assemble(&vec![t("T", "D", "a"), t("x", "y", ""), t("", "", "b"), t("", "", "c")]);
    assert_eq!(out, t("T", "D", "a\n\nb\n\nc"));
    assert_eq!(assemble(&vec![t("T", "", ""), t("", "", "b")]).body, "b");
}

#[test]
fn translate_timeout_env_default_floor_and_garbage() {
    assert_eq!(timeout_secs(None).unwrap(), 300);
    assert_eq!(timeout_secs(Some("900")).unwrap(), 900);
    assert_eq!(timeout_secs(Some("3")).unwrap(), 30);
    assert_eq!(timeout_secs(Some("  ")).unwrap(), 300);
    assert!(timeout_secs(Some("soon")).is_err());
}

#[test]
fn seconds_that_are_asked_for() {
    assert_eq!(asked_secs(None).unwrap(), None);
    assert_eq!(asked_secs(Some(" \t")).unwrap(), None);
    assert_eq!(asked_secs(Some(" 3 ")).unwrap(), Some(3));
    assert_eq!(asked_secs(Some("900")).unwrap(), Some(900));
    assert_eq!(
        asked_secs(Some("soon")).unwrap_err().message(),
        "TRANSLATE_TIMEOUT must be a number of seconds, got \"soon\""
    );
}

#[test]
fn timeout_accepts_what_an_unsigned_number_accepts() {
    assert_eq!(timeout_secs(Some(" +45\n")).unwrap(), 45);
    assert_eq!(timeout_secs(Some("0090")).unwrap(), 90);
    assert_eq!(timeout_secs(Some("18446744073709551615")).unwrap(), u64::MAX);
    for bad in ["18446744073709551616", "-1", "+", "1 0", "1.5", "a\"b"] {
        assert_eq!(
            timeout_secs(Some(bad)).unwrap_err().message(),
            format!("TRANSLATE_TIMEOUT must be a number of seconds, got {bad:?}")
        );
    }
}

#[test]
fn preserve_terms_env_parses_trims_and_drops_blanks() {
    assert!(preserve_terms("").is_empty());
    assert_eq!(
        preserve_terms(" Acme Widgets ,, Zephyr "),
        vec!["Acme Widgets".to_string(), "Zephyr".to_string()]
    );
    assert!(preserve_terms(" , , ").is_empty());
    assert_eq!(preserve_terms("a,b,"), vec!["a", "b"]);
}

#[test]
fn an_endpoint_needs_no_key_and_openrouter_does() {
    assert_eq!(
        choose_client(Some("http://x"), None, false).unwrap(),
        ClientChoice::Endpoint("http://x".to_string())
    );
    assert_eq!(
        choose_client(Some(""), Some("k"), false).unwrap(),
        ClientChoice::OpenRouter("k".to_string())
    );
    assert_eq!(
        choose_client(None, Some("k"), true).unwrap(),
        ClientChoice::OpenRouter(String::new())
    );
    for key in [None, Some("")] {
        assert_eq!(
            choose_client(None, key, false).unwrap_err().message(),
            "OPENROUTER_API_KEY not set — translate needs it"
        );
        assert_eq!(
            refresh_key(key, false).unwrap_err().message(),
            "OPENROUTER_API_KEY not set — refresh needs it"
        );
        assert_eq!(refresh_key(key, true).unwrap(), "");
    }
    assert_eq!(refresh_key(Some("k"), false).unwrap(), "k");
}
