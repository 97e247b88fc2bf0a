use zola_graph::digest::{hex, sha256_hex};
use zola_graph::failure::{CommandError, Failure};
use zola_graph::number::{decimal, parse_integer, parse_unsigned, signed_decimal};
use zola_graph::text::{
    among, byte_count, contains, ends_with, is_white_space, lines, starts_with, strip_suffix, take160,
    take200, trim, trim_end, word_count,
};

const SAMPLES: [&str; 12] = [
    "",
    " ",
    "a",
    " a b ",
    "\u{a0}x\u{3000}",
    "one\ntwo\r\nthree\rfour\n\n",
    "\n",
    "\r\n",
    "x\n",
    "  \t\nword\u{2028}other\u{85} ",
    "語 語\u{200b}語",
    "trailing\r",
];

#[test]
fn white_space_is_that_of_unicode() {
    for u in 0..=0x10FFFFu32 {
        if let Some(c) = char::from_u32(u) {
            assert_eq!(is_white_space(c), c.is_whitespace(), "U+{u:04X}");
        }
    }
}

#[test]
fn texts_are_cut_as_std_cuts_them() {
    for s in SAMPLES {
        assert_eq!(trim(s), s.trim());
        assert_eq!(trim_end(s), s.trim_end());
        assert_eq!(lines(s), s.lines().collect::<Vec<_>>());
        assert_eq!(word_count(s), s.split_whitespace().count());
        assert_eq!(byte_count(s), s.len());
        for n in ["", "a", "\n", "word", "o\n", "語"] {
            assert_eq!(contains(s, n), s.contains(n));
            assert_eq!(starts_with(s, n), s.starts_with(n));
            assert_eq!(ends_with(s, n), s.ends_with(n));
            assert_eq!(strip_suffix(s, n).as_deref(), s.strip_suffix(n));
        }
    }
}

#[test]
fn long_texts_are_cut_by_characters() {
    let s = "é".repeat(250);
    assert_eq!(take200(&s), "é".repeat(200));
    assert_eq!(take160(&s), "é".repeat(160));
    assert_eq!(take160("short"), "short");
    assert!(among(&vec!["a".to_string(), "b".to_string()], "b"));
    assert!(!among(&vec!["a".to_string()], "A"));
}

#[test]
fn numbers_are_written_and_read() {
    assert_eq!(decimal(0), "0");
    assert_eq!(decimal(1203), "1203");
    assert_eq!(signed_decimal(-45), "-45");
    assert_eq!(signed_decimal(i128::MIN), i128::MIN.to_string());
    assert_eq!(parse_integer("-9223372036854775808"), Some(i64::MIN as i128));
    assert_eq!(parse_integer("-9223372036854775809"), None);
    assert_eq!(parse_integer("+7"), Some(7));
    for s in ["", "+", "-", "-0", "00", "12a", "18446744073709551615", "18446744073709551616", " 1"] {
        assert_eq!(parse_unsigned(s), s.parse::<u64>().ok(), "{s:?}");
    }
}

#[test]
fn digests_are_sha256_in_hexadecimal() {
    assert_eq!(
        sha256_hex(&b"abc".to_vec()),
        "ba7816bf8f01cfea414140de5dae2223b00361a396177a9cb410ff61f20015ad"
    );
    assert_eq!(
        sha256_hex(&vec![]),
        "e3b0c44298fc1c149afbf4c8996fb92427ae41e4649b934ca495991b7852b855"
    );
    assert_eq!(hex(&vec![0, 15, 16, 255]), "000f10ff");
}

#[test]
fn failures_have_words() {
    let cases: Vec<(CommandError, &str)> = vec![
        (
            Failure::OkFalse,
            "translate endpoint reported ok:false — source text returned untranslated, not writing",
        ),
        (
            Failure::OkFlag { index: 3, field: "body".into() },
            "translate endpoint: ok[3]=false — `body` came back untranslated, not writing",
        ),
        (
            Failure::NotAString { field: "title".into(), kind: "null".into() },
            "translate endpoint: value for `title` is not a string (null) — not writing blanks",
        ),
        (
            Failure::TranslationCount { got: 2, sent: 3 },
            "translate endpoint returned 2 translation(s) for 3 text(s)",
        ),
        (
            Failure::NoPriorMigrate,
            "no prior migrate found (meta.source_origin empty); run `zola graph migrate` first",
        ),
        (Failure::RefreshFailures(12), "refresh completed with 12 failure(s)"),
        (Failure::TranslateFailures(1), "translate completed with 1 failure(s)"),
        (Failure::Outside("as it is".into()), "as it is"),
    ];
    for (failure, words) in cases {
        assert_eq!(failure.message(), words);
    }
}
