use zola_graph::locale::{default_rel, is_default_page, read_langs, sibling_path};
use zola_graph::page::{
    extra_bool, extra_hash, extra_str, extra_string_list, fm_date, get_str, parse_page,
    sibling_text, split_page,
};
use zola_graph::toml_value::{parse_toml, toml_text, TomlValue};
use zola_graph::translate::Translatable;

fn t(title: &str, description: &str, body: &str) -> Translatable {
    Translatable { title: title.into(), description: description.into(), body: body.into() }
}

#[test]
fn page_splits_at_the_delimiters() {
    let (front, body) = split_page("p", "+++\ntitle = \"A\"\n+++\n\nText.\nMore").unwrap();
    assert_eq!(front, "title = \"A\"\n");
    assert_eq!(body, "\nText.\nMore\n");
    let (front, body) = split_page("p", " +++ \r\na = 1\r\n+++\r\nB\r\n+++\r\n").unwrap();
    assert_eq!(front, "a = 1\n");
    assert_eq!(body, "B\n+++\n");
}

#[test]
fn page_failures_are_told_apart() {
    assert_eq!(
        parse_page("a.md", "---\n").unwrap_err().message(),
        "a.md: expected `+++` frontmatter (TOML). `zola translate` handles `+++` pages only."
    );
    assert!(parse_page("a.md", "").is_err());
    assert_eq!(
        parse_page("a.md", "+++\ntitle = 1\n").unwrap_err().message(),
        "a.md: frontmatter not terminated by `+++`"
    );
    assert!(parse_page("a.md", "+++\ntitle =\n+++\n")
        .unwrap_err()
        .message()
        .starts_with("a.md: frontmatter parse: TOML parse error"));
}

#[test]
fn front_matter_fields_are_read() {
    let fm = parse_toml(
        "title = \"A\"\ndate = 2024-05-06\nupdated = \" 2024 \"\nblank = \"  \"\nn = 5\n[extra]\nnoindex = true\nauthor = \" Jo \"\nnone = \" \"\nlist = [\" a\", 1, \"\", \"b\"]\none = \" x \"\nsource_hash = \"h\"\n",
    )
    .unwrap();
    assert_eq!(get_str(&fm, "title"), "A");
    assert_eq!(get_str(&fm, "n"), "");
    assert_eq!(get_str(&fm, "missing"), "");
    assert_eq!(fm_date(&fm, "date"), Some("2024-05-06".to_string()));
    assert_eq!(fm_date(&fm, "updated"), Some("2024".to_string()));
    assert_eq!(fm_date(&fm, "blank"), None);
    assert_eq!(fm_date(&fm, "n"), None);
    assert_eq!(extra_bool(&fm, "noindex"), Some(true));
    assert_eq!(extra_bool(&fm, "author"), None);
    assert_eq!(extra_str(&fm, "author"), Some("Jo".to_string()));
    assert_eq!(extra_str(&fm, "none"), None);
    assert_eq!(extra_string_list(&fm, "list"), vec!["a", "b"]);
    assert_eq!(extra_string_list(&fm, "one"), vec!["x"]);
    assert!(extra_string_list(&fm, "none").is_empty());
    assert!(extra_string_list(&fm, "missing").is_empty());
    assert_eq!(extra_hash(&fm), Some("h".to_string()));
    assert_eq!(extra_hash(&parse_toml("extra = 5").unwrap()), None);
}

#[test]
fn toml_values_keep_their_kind() {
    let v = parse_toml("a = 1\nb = 2.5\nc = true\nd = 1979-05-27T07:32:00Z\ne = [1, \"x\"]\n[t]\nk = \"v\"\n")
        .unwrap();
    assert_eq!(v.get("a"), Some(&TomlValue::Integer(1)));
    assert_eq!(v.get("b"), Some(&TomlValue::Float("2.5".to_string())));
    assert_eq!(v.get("c"), Some(&TomlValue::Boolean(true)));
    assert_eq!(v.get("d"), Some(&TomlValue::Datetime("1979-05-27T07:32:00Z".to_string())));
    assert_eq!(
        v.get("e"),
        Some(&TomlValue::Array(vec![TomlValue::Integer(1), TomlValue::Str("x".to_string())]))
    );
    assert_eq!(v.get("t").unwrap().get("k").unwrap().as_str(), Some("v"));
    let again = parse_toml(&toml_text(&v).unwrap()).unwrap();
    assert_eq!(again, v);
    let odd = parse_toml("a = -nan\nb = -inf\nc = -0.0\nd = 1e300\ne = 07:32\nf = 1979-05-27 07:32:00.5-08:00\n")
        .unwrap();
    assert_eq!(odd.get("a"), Some(&TomlValue::Float("NaN".to_string())));
    let again = parse_toml(&toml_text(&odd).unwrap()).unwrap();
    assert_eq!(again, odd);
    assert_eq!(v.duplicate(), v);
}

#[test]
fn values_that_are_no_toml_are_refused() {
    assert!(toml_text(&TomlValue::Table(vec![("a".into(), TomlValue::Float("x".into()))])).is_err());
    assert!(toml_text(&TomlValue::Table(vec![("a".into(), TomlValue::Datetime("y".into()))])).is_err());
    let twice = TomlValue::Table(vec![
        ("a".into(), TomlValue::Integer(1)),
        ("a".into(), TomlValue::Integer(2)),
    ]);
    assert_eq!(toml_text(&twice).unwrap(), "a = 2\n");
    assert!(toml_text(&TomlValue::Integer(1)).is_err());
    let kinds = TomlValue::Table(vec![
        ("f".into(), TomlValue::Float("1e3".into())),
        ("d".into(), TomlValue::Datetime("1979-05-27 07:32:00z".into())),
        ("a".into(), TomlValue::Array(vec![TomlValue::Boolean(false)])),
    ]);
    assert_eq!(
        toml_text(&kinds).unwrap(),
        "a = [false]\nd = 1979-05-27T07:32:00Z\nf = 1000.0\n"
    );
}

#[test]
fn written_sibling_reads_back() {
    let fm = parse_toml(
        "title = \"Hello Curriculo\"\ndescription = \"A desc\"\nweight = 3\n[extra]\nauthor = \"Jo\"\nsource_hash = \"old\"\n",
    )
    .unwrap();
    let tr = t("Hola \"Curriculo\"", "Una\ndesc\t'x'", "\n# Uno\n\ndos  \n\n");
    let text = sibling_text(&fm, &tr, "abc").unwrap();
    assert!(text.starts_with("+++\n"));
    assert!(text.ends_with("dos\n"));
    let (back, body) = parse_page("p", &text).unwrap();
    assert_eq!(get_str(&back, "title"), tr.title);
    assert_eq!(get_str(&back, "description"), tr.description);
    assert_eq!(extra_hash(&back), Some("abc".to_string()));
    assert_eq!(extra_str(&back, "author"), Some("Jo".to_string()));
    assert_eq!(back.get("weight"), Some(&TomlValue::Integer(3)));
    assert_eq!(body.trim(), tr.body.trim());
}

#[test]
fn sibling_layout_is_exact() {
    let fm = parse_toml("title = \"T\"\n").unwrap();
    assert_eq!(
        sibling_text(&fm, &t("A", "B", "C\n\n"), "h").unwrap(),
        "+++\ndescription = \"B\"\ntitle = \"A\"\n\n[extra]\nsource_hash = \"h\"\n+++\n\nC\n"
    );
}

#[test]
fn awkward_strings_survive_a_written_sibling() {
    let fm = parse_toml("").unwrap();
    for s in [
        "",
        "\"\"\"",
        "'''",
        "a\r\nb",
        "\u{0}\u{7f}\u{1b}",
        "\\",
        "tab\tnl\nend\n",
        "'\"'",
        "本文 — é",
        "\n",
        "# [x] = ",
        "a''''''b\n\"\"\"\"\"\"",
    ] {
        let text = sibling_text(&fm, &t(s, s, "b"), s).unwrap();
        let (back, _) = parse_page("p", &text).unwrap();
        assert_eq!(get_str(&back, "title"), s);
        assert_eq!(get_str(&back, "description"), s);
        assert_eq!(extra_hash(&back), Some(s.to_string()));
    }
}

#[test]
fn awkward_keys_survive_a_written_sibling() {
    let keys = ["", "a b", "a.b", "\n", "\r", "é", "\"", "'", "\\", "[x]", "#", "=", "1", "-_"];
    let row = |v: &str| {
        TomlValue::Table(
            keys.iter().map(|k| (k.to_string(), TomlValue::Str(format!("{v}{k}")))).collect(),
        )
    };
    let mut all: Vec<(String, TomlValue)> =
        keys.iter().map(|k| (k.to_string(), row(k))).collect();
    all.push(("list".to_string(), TomlValue::Array(vec![row("p"), row("q")])));
    all.push(("none".to_string(), TomlValue::Table(vec![])));
    let fm = TomlValue::Table(all);
    let text = sibling_text(&fm, &t("T", "D", "B"), "h").unwrap();
    let (back, _) = parse_page("p", &text).unwrap();
    for k in keys {
        for l in keys {
            let want = format!("{k}{l}");
            assert_eq!(back.get(k).unwrap().get(l).unwrap().as_str(), Some(want.as_str()));
        }
    }
    assert_eq!(extra_hash(&back), Some("h".to_string()));
}

#[test]
fn a_delimiter_inside_a_string_ends_the_front_matter() {
    let fm = parse_toml("").unwrap();
    let text = sibling_text(&fm, &t("T", "one\n+++\ntwo", "B"), "h").unwrap();
    assert!(parse_page("p", &text).is_err());
    let text = sibling_text(&fm, &t("+++", "one +++ two", "B\n+++\nC"), "h").unwrap();
    let (back, body) = parse_page("p", &text).unwrap();
    assert_eq!(get_str(&back, "title"), "+++");
    assert_eq!(body.trim(), "B\n+++\nC");
}

#[test]
fn deep_front_matter_survives_a_written_sibling() {
    // The table, the two tables above the innermost level, and arrays or tables below.
    let mut arrays = TomlValue::Str("x".into());
    let mut tables = TomlValue::Str("y".into());
    let mut mixed = TomlValue::Str("z".into());
    for i in 0..79 {
        arrays = TomlValue::Array(vec![arrays]);
        tables = TomlValue::Table(vec![("k".into(), tables)]);
        mixed = if i % 2 == 0 {
            TomlValue::Array(vec![mixed])
        } else {
            TomlValue::Table(vec![("k".into(), mixed)])
        };
    }
    let fm = TomlValue::Table(vec![
        ("a".into(), arrays),
        ("m".into(), mixed),
        ("t".into(), tables),
    ]);
    let text = sibling_text(&fm, &t("T", "D", "B"), "h").unwrap();
    let (back, _) = parse_page("p", &text).unwrap();
    assert_eq!(extra_hash(&back), Some("h".to_string()));
    assert_eq!(back.get("a"), fm.get("a"));
    assert_eq!(back.get("t"), fm.get("t"));
    assert_eq!(back.get("m"), fm.get("m"));
}

/// A value in `n` tables, each in the next.
fn nested(n: usize, value: TomlValue) -> TomlValue {
    let mut v = value;
    for _ in 0..n {
        v = TomlValue::Table(vec![("k".into(), v)]);
    }
    v
}

/// A string in `n` arrays, each in the next.
fn arrays(n: usize) -> TomlValue {
    let mut v = TomlValue::Str("x".into());
    for _ in 0..n {
        v = TomlValue::Array(vec![v]);
    }
    v
}

#[test]
fn front_matter_is_read_again_up_to_the_nesting_limits() {
    let reads = |fm: &TomlValue| {
        let text = sibling_text(fm, &t("T", "D", "B"), "h").unwrap();
        match parse_page("p", &text) {
            Ok((back, _)) => back.get("deep") == fm.get("deep"),
            Err(_) => false,
        }
    };
    let with = |v: TomlValue| TomlValue::Table(vec![("deep".into(), v)]);
    // A header of as many keys as can be read, over a value nested as deep as can be.
    assert!(reads(&with(nested(80, arrays(80)))));
    assert!(!reads(&with(nested(81, TomlValue::Integer(1)))));
    assert!(!reads(&with(arrays(81))));
    // A table of an array of tables has a header, and one of a mixed array has none.
    assert!(reads(&with(TomlValue::Array(vec![nested(80, arrays(80))]))));
    assert!(!reads(&with(TomlValue::Array(vec![nested(81, TomlValue::Integer(1))]))));
    let mixed = |n: usize| {
        TomlValue::Array(vec![TomlValue::Integer(1), nested(n, TomlValue::Integer(1))])
    };
    assert!(reads(&with(mixed(79))));
    assert!(!reads(&with(mixed(80))));
}

#[test]
fn every_key_survives_a_written_sibling() {
    let fm = parse_toml(
        "title = \"T\"\nf = 1e-7\ng = inf\nd = 1979-05-27 07:32:00.5-08:00\ne = []\nn = -0.0\nlines = \"a\\n ++ \\n+++x\\n\\\"+++\\\"\"\nmixed = [1, { a = \"b\\nc\" }, [[]]]\ninline = { x = { y = 1 } }\n[t]\n[t.u.v]\nw = true\n[[rows]]\n[[rows]]\nq = 07:32:00\n[rows.sub]\nr = \"\"\n[[rows.deep]]\n[[rows.deep]]\ns = [\"\\n\"]\n[extra]\nauthor = \"Jo\"\nsource_hash = \"old\"\nlist = [\"a\", 2.5]\n[extra.more]\nk = 1\n[[extra.rows]]\nz = 1\n",
    )
    .unwrap();
    let text = sibling_text(&fm, &t("A\nB", "D", "one\n\n+++\ntwo\n"), "new").unwrap();
    let (back, body) = parse_page("p", &text).unwrap();
    let keys = |v: &TomlValue| match v {
        TomlValue::Table(e) => e.iter().map(|(k, _)| k.clone()).collect::<Vec<String>>(),
        _ => vec![],
    };
    for k in keys(&fm) {
        if k != "title" && k != "extra" {
            assert_eq!(back.get(&k), fm.get(&k), "{k}");
        }
    }
    let (old, new) = (fm.get("extra").unwrap(), back.get("extra").unwrap());
    for k in keys(old) {
        if k != "source_hash" {
            assert_eq!(new.get(&k), old.get(&k), "{k}");
        }
    }
    assert_eq!(keys(new), keys(old));
    assert_eq!(keys(&back).len(), keys(&fm).len() + 1);
    assert_eq!(get_str(&back, "title"), "A\nB");
    assert_eq!(get_str(&back, "description"), "D");
    assert_eq!(extra_hash(&back), Some("new".to_string()));
    assert_eq!(body.trim(), "one\n\n+++\ntwo");
}

#[test]
fn only_a_line_of_a_string_can_be_a_delimiter() {
    let fm = parse_toml("a = [[\"+++\"], { b = \"+++\" }]\nx = \"\"\"\n\n\\n  +++\"\"\"\n").unwrap();
    let text = sibling_text(&fm, &t("\n\n+++", "++\n+\n", "B"), "+++").unwrap();
    let (back, _) = parse_page("p", &text).unwrap();
    assert_eq!(back.get("a"), fm.get("a"));
    assert_eq!(back.get("x"), fm.get("x"));
    assert_eq!(get_str(&back, "title"), "\n\n+++");
    let fm = parse_toml("a = [[{ b = [\"x\\n  +++ \\ny\"] }], 1]\n").unwrap();
    let text = sibling_text(&fm, &t("T", "D", "B"), "h").unwrap();
    assert!(parse_page("p", &text).is_err());
}

#[test]
fn front_matter_that_cannot_carry_a_hash_stays() {
    let fm = parse_toml("extra = 5\n").unwrap();
    let text = sibling_text(&fm, &t("A", "B", "C"), "h").unwrap();
    let (back, _) = parse_page("p", &text).unwrap();
    assert_eq!(back.get("extra"), Some(&TomlValue::Integer(5)));
    assert_eq!(extra_hash(&back), None);
    assert_eq!(get_str(&back, "title"), "A");
}

#[test]
fn unwritable_front_matter_is_a_failure() {
    let fm = TomlValue::Table(vec![("x".into(), TomlValue::Float("no float".into()))]);
    assert_eq!(
        sibling_text(&fm, &t("A", "B", "C"), "h").unwrap_err().message(),
        "serialize frontmatter: a float or a date-time that is none"
    );
}

#[test]
fn languages_are_sorted_without_the_default() {
    let (default, langs) = read_langs(
        "base_url = \"https://x/\"\ndefault_language = \"en\"\n[languages.fr]\n[languages.es]\n[languages.en]\n[languages.pt-BR]\n",
    )
    .unwrap();
    assert_eq!(default, "en");
    assert_eq!(langs, vec!["es", "fr", "pt-BR"]);
    let (default, langs) = read_langs("languages = 3\ndefault_language = 1\n").unwrap();
    assert_eq!(default, "en");
    assert!(langs.is_empty());
    assert!(read_langs("x").unwrap_err().message().starts_with("parse config: "));
}

#[test]
fn default_pages_are_neither_sections_nor_translations() {
    let langs = vec!["es".to_string(), "fr".to_string()];
    assert!(is_default_page("index.md", &langs));
    assert!(is_default_page("about.md", &langs));
    assert!(is_default_page("index.de.md", &langs));
    assert!(!is_default_page("index.es.md", &langs));
    assert!(!is_default_page("_index.md", &langs));
    assert!(!is_default_page("_index.fr.md", &langs));
    assert!(!is_default_page("index.txt", &langs));
    assert!(is_default_page("es.md", &langs));
}

#[test]
fn siblings_stand_beside_their_page() {
    assert_eq!(sibling_path("content/post/index.md", "es"), "content/post/index.es.md");
    assert_eq!(sibling_path("about.md", "fr"), "about.fr.md");
    assert_eq!(sibling_path("a.b/v1.2.md", "ja"), "a.b/v1.2.ja.md");
    assert_eq!(sibling_path("a/.hidden", "ja"), "a/.hidden.ja.md");
    assert_eq!(sibling_path("a/plain", "ja"), "a/plain.ja.md");
}

#[test]
fn siblings_lead_back_to_their_page() {
    assert_eq!(default_rel("content/_index.fr.md", "_index.fr.md", "fr"), "content/_index.md");
    assert_eq!(default_rel("x.fr.md", "x.fr.md", "fr"), "x.md");
    assert_eq!(default_rel("content/x.md", "x.md", "fr"), "content/x.md");
    for page in ["content/post/index.md", "about.md", "a.b/v1.2.md"] {
        let sibling = sibling_path(page, "pt");
        let name = sibling.rsplit('/').next().unwrap().to_string();
        assert_eq!(default_rel(&sibling, &name, "pt"), page);
        assert!(!is_default_page(&name, &vec!["pt".to_string()]));
    }
}
