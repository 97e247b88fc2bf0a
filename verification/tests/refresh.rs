use std::cell::Cell;
use zola_graph::facts::{
    default_lang_page_id, is_cjk_or_hangul, is_section_index, is_stub, is_thin_exempt, page_facts,
    word_count_of, words_fit, PageNames, PageSource,
};
use zola_graph::failure::{CommandError, Failure};
use zola_graph::graph::{
    detach_page_topics, mark_untranslated_siblings, prune_store, upsert_relation,
};
use zola_graph::heading::{extract_h1, heading_from, strip_html_tags};
use zola_graph::overview::{
    accept_overview, fetch_overview, overview_in_range, overview_step, OverviewStep,
};
use zola_graph::page::parse_page;
use zola_graph::refresh_run::{EnrichStep, RefreshRun};
use zola_graph::schema::{GraphStore, Meta, Page, Relation, Topic};
use zola_graph::site::GraphSiteConfig;

const CONFIG: &str = "title = \"Acme\"\n[extra.graph]\npillars = [\"content/_index.md\"]\n";

fn words(n: usize) -> String {
    (0..n).map(|i| format!("w{i}")).collect::<Vec<_>>().join(" ")
}

fn cjk_spaced(chars: usize, spaces: usize) -> String {
    let n = spaces.max(1);
    let chunk = (chars / n).max(1);
    (0..n).map(|_| "語".repeat(chunk)).collect::<Vec<_>>().join(" ")
}

fn migrated() -> GraphStore {
    GraphStore {
        pages: vec![Page {
            id: "content/a/index.md".into(),
            canonical_path: "/a/".into(),
            path: "content/a/index.md".into(),
            title: "A".into(),
            summary: "s".into(),
            content_hash: "oldhash".into(),
            ..Default::default()
        }],
        meta: Meta { source_origin: "https://x".into(), last_refresh: String::new() },
        ..Default::default()
    }
}

/// A stand-in for a content hash: what it is does not matter here, only when two
/// of them agree.
fn hash_of(body: &str) -> String {
    format!("hash of {}", body.trim())
}

fn lang_of(file_name: &str) -> String {
    let parts: Vec<&str> = file_name.split('.').collect();
    if parts.len() == 3 {
        parts[1].to_string()
    } else {
        "en".to_string()
    }
}

fn names_of(rel: &str) -> PageNames {
    let file_name = rel.rsplit('/').next().unwrap().to_string();
    let lang = lang_of(&file_name);
    let base_id = default_lang_page_id(rel, &file_name, &lang, |p: &str| p.to_string());
    let dir = rel.trim_start_matches("content").trim_end_matches(file_name.as_str());
    let canonical_path = if lang == "en" { dir.to_string() } else { format!("/{lang}{dir}") };
    PageNames {
        rel: rel.to_string(),
        id: rel.to_string(),
        canonical_path,
        file_name,
        lang,
        base_id,
    }
}

fn source_of(text: &str) -> PageSource {
    let (fm, body) = parse_page("p", text).unwrap();
    page_facts(fm, body, |p: &str| hash_of(p), |p: &str| format!("summary of {p}"))
}

/// Runs a refresh over files in memory, with topics named after the pages.
fn refresh<F: Fn() -> Result<String, CommandError>>(
    store: GraphStore,
    config: &str,
    files: &[(&str, String)],
    max: Option<usize>,
    dry_run: bool,
    ask: F,
) -> Result<(RefreshRun, bool), CommandError> {
    let site = GraphSiteConfig::load_optional(Some(config));
    let mut run = RefreshRun::start(store, site, "en".to_string(), vec![], max, dry_run)?;
    for (rel, text) in files {
        if run.open_file(rel, Ok(text.clone())).is_err() {
            continue;
        }
        let visit = run.visit(&names_of(rel), &source_of(text));
        if visit.wants_overview {
            let overview = fetch_overview(|| ask(), |_: &String| ask());
            run.take_overview(visit.index, overview);
        }
    }
    run.end_walk();
    let mut i = 0;
    loop {
        match run.enrich_step(i) {
            EnrichStep::Stop => break,
            EnrichStep::Report => {}
            EnrichStep::Enrich => {
                let (id, input) = run.todo[i].clone();
                run.store.topics.push(Topic {
                    id: format!("topic-{id}"),
                    label: format!("Topic-{}", input.title),
                    aliases: vec![],
                    page_ids: vec![id],
                });
            }
        }
        i += 1;
    }
    let save = run.stamp("now");
    run.finish()?;
    Ok((run, save))
}

fn after(store: GraphStore, files: &[(&str, String)]) -> GraphStore {
    refresh(store, CONFIG, files, None, false, || Ok(words(140))).unwrap().0.store
}

fn page<'a>(store: &'a GraphStore, id: &str) -> &'a Page {
    store.pages.iter().find(|p| p.id == id).expect("page must be in the graph")
}

#[test]
fn refresh_bails_without_prior_migrate() {
    let err = refresh(GraphStore::default(), CONFIG, &[], None, false, || Ok(words(140)))
        .map(|_| ())
        .unwrap_err();
    assert!(err.message().contains("no prior migrate"));
}

#[test]
fn refresh_retopics_stale_and_skips_fresh() {
    let body = "Edited body.\n";
    let text =
        format!("+++\ntitle = \"A\"\n[extra]\nsource_url = \"https://x/a\"\n+++\n\n{body}");
    assert_ne!(hash_of(body), "oldhash");
    let files = [("content/a/index.md", text)];
    let store = after(migrated(), &files);
    assert_eq!(store.pages[0].content_hash, hash_of(body), "hash updated to current body");
    assert!(!store.meta.last_refresh.is_empty());
    assert!(!store.topics.is_empty(), "stale page re-enriched");
    // the second run finds the page fresh
    let (run, _) = refresh(store, CONFIG, &files, None, false, || Ok(words(140))).unwrap();
    assert!(run.todo.is_empty());
    assert_eq!(run.store.topics.len(), 1);
}

#[test]
fn refresh_dry_run_no_mutate() {
    let files = [("content/a/index.md", "+++\ntitle = \"A\"\n+++\n\nEdited body.\n".to_string())];
    let (run, save) =
        refresh(migrated(), CONFIG, &files, None, true, || panic!("asks nothing")).unwrap();
    assert_eq!(run.todo.len(), 1);
    assert!(run.store.topics.is_empty());
    let kept = if save { run.store } else { migrated() };
    assert_eq!(kept.pages[0].content_hash, "oldhash", "dry-run must not change hash");
    assert!(kept.meta.last_refresh.is_empty(), "dry-run must not stamp");
}

#[test]
fn refresh_marks_em_dash_title_stub_and_ids_are_paths() {
    let files = [
        (
            "content/_index.md",
            "+++\ntitle = \"AI ATS for high-volume hiring\"\n[extra]\ncanonical = \"https://curriculo.me/\"\n+++\n\n# AI ATS\n\nHomepage body.\n".to_string(),
        ),
        ("content/x/index.md", "+++\ntitle = \"—\"\n+++\n\nLeftover body.\n".to_string()),
    ];
    let store = after(migrated(), &files);
    let home = page(&store, "content/_index.md");
    assert_eq!(home.canonical_path, "/");
    assert!(!home.id.starts_with("http"), "id must be a path, not a hostful url");
    assert_ne!(home.id, "https://curriculo.me/", "extra.canonical must be ignored");
    assert_eq!(home.h1, "AI ATS");
    assert_eq!(home.lang, "en");
    let dash = page(&store, "content/x/index.md");
    assert!(dash.stub, "title = \"—\" is a stub");
    assert!(!dash.sitemap, "stubs must be omitted from the sitemap");
    assert!(!dash.thin, "stubs are not thin");
    for p in &store.pages {
        assert!(!p.id.starts_with("http://") && !p.id.starts_with("https://"));
        assert!(!p.id.starts_with("local:"));
    }
}

#[test]
fn refresh_seeds_org_from_extra_graph_not_claims() {
    let config = "title = \"Acme\"\n[extra.graph]\norg_id = \"org:acme\"\norg_name = \"Acme\"\norg_logo = \"/logo.webp\"\n";
    let files = [("content/a/index.md", "+++\ntitle = \"A\"\n+++\n\nBody.\n".to_string())];
    let (run, _) = refresh(migrated(), config, &files, None, false, || Ok(words(140))).unwrap();
    let orgs = &run.store.organizations;
    assert_eq!(orgs.len(), 1);
    assert_eq!(orgs[0].id, "org:acme");
    assert_eq!(orgs[0].name, "Acme");
    assert_eq!(orgs[0].logo, "/logo.webp");
    assert!(orgs[0].url.is_empty(), "org url is hostless");
    assert!(run.store.claims.is_empty(), "must not seed Claims");
}

#[test]
fn refresh_sets_translation_of_and_walks_locale_index() {
    let files = [
        (
            "content/_index.md",
            "+++\ntitle = \"AI ATS\"\n+++\n\n# Home\n\nEnglish home.\n".to_string(),
        ),
        ("content/_index.fr.md", "+++\ntitle = \"ATS IA\"\n+++\n\nAccueil.\n".to_string()),
    ];
    let store = after(migrated(), &files);
    let fr = page(&store, "content/_index.fr.md");
    assert_eq!(fr.lang, "fr");
    assert_eq!(fr.canonical_path, "/fr/");
    assert_eq!(fr.translation_of.as_deref(), Some("content/_index.md"));
}

#[test]
fn refresh_marks_thin_noindex_and_sitemap_false() {
    let files = [
        (
            "content/short/index.md",
            "+++\ntitle = \"Short\"\n[extra]\nnoindex = true\n+++\n\nOnly a few words here.\n"
                .to_string(),
        ),
        (
            "content/hidden/index.md",
            "+++\ntitle = \"Hidden\"\n[extra]\nsitemap = false\n+++\n\nAlso a few words only.\n"
                .to_string(),
        ),
        (
            "content/privacy/index.md",
            "+++\ntitle = \"Privacy\"\n+++\n\nLegal short page.\n".to_string(),
        ),
    ];
    let store = after(migrated(), &files);
    let short = page(&store, "content/short/index.md");
    assert!(short.thin);
    assert!(short.noindex);
    assert!(!short.sitemap, "noindex implies sitemap false");
    let hidden = page(&store, "content/hidden/index.md");
    assert!(!hidden.sitemap);
    assert!(!hidden.noindex);
    assert!(hidden.thin);
    let privacy = page(&store, "content/privacy/index.md");
    assert!(!privacy.thin, "legal paths are thin-exempt");
    assert!(privacy.sitemap);
}

#[test]
fn refresh_empty_body_is_stub() {
    let files = [("content/empty/index.md", "+++\ntitle = \"Empty\"\n+++\n\n".to_string())];
    let store = after(migrated(), &files);
    let empty = page(&store, "content/empty/index.md");
    assert!(empty.stub);
    assert!(!empty.sitemap);
    assert_eq!(empty.summary, "");
}

#[test]
fn refresh_section_index_empty_body_is_not_stub() {
    let files = [
        (
            "content/_index.md",
            "+++\ntitle = \"AI ATS\"\ndescription = \"Homepage copy in frontmatter.\"\n+++\n\n"
                .to_string(),
        ),
        ("content/blogs/_index.md", "+++\ntitle = \"Blog\"\n+++\n\n".to_string()),
        (
            "content/_index.ja.md",
            "+++\ntitle = \"—\"\n[extra]\nnoindex = true\n+++\n\n".to_string(),
        ),
    ];
    let store = after(migrated(), &files);
    let home = page(&store, "content/_index.md");
    assert!(!home.stub, "frontmatter-driven homepage is not a stub");
    assert!(!home.thin, "section index is not thin");
    assert!(home.sitemap);
    let blogs = page(&store, "content/blogs/_index.md");
    assert!(!blogs.stub, "listing _index is not a stub");
    assert!(!blogs.thin);
    assert!(blogs.sitemap);
    assert_eq!(blogs.canonical_path, "/blogs/");
    let ja = page(&store, "content/_index.ja.md");
    assert!(ja.stub, "em-dash locale home stays a stub");
    assert!(!ja.sitemap);
}

#[test]
fn extract_h1_prefers_markdown_then_html() {
    assert_eq!(extract_h1("# Hello\n\nbody"), "Hello");
    assert_eq!(extract_h1("## Not h1\n\n<h1>HTML</h1>"), "HTML");
    assert_eq!(extract_h1("no heading"), "");
}

#[test]
fn headings_are_trimmed_and_untagged() {
    assert_eq!(extract_h1("intro\n#  Spaced out  \nrest"), "Spaced out");
    assert_eq!(extract_h1("<H1 class=\"x\">\n A <b>bold</b> one </H1>"), "A bold one");
    assert_eq!(heading_from(Some(" md ".into()), Some("html".into())), "md");
    assert_eq!(heading_from(None, Some(" <i>h</i> ".into())), "h");
    assert_eq!(heading_from(None, None), "");
    assert_eq!(strip_html_tags("a<b>c>d<e"), "acd");
}

#[test]
fn word_count_strips_html_tags() {
    assert_eq!(word_count_of("<p>one two</p> three"), 3);
}

#[test]
fn refresh_overview_retries_then_accepts() {
    let files = [(
        "content/_index.md",
        "+++\ntitle = \"AI ATS\"\n+++\n\n# Home\n\nPillar body.\n".to_string(),
    )];
    let calls = Cell::new(0usize);
    let (run, _) = refresh(migrated(), CONFIG, &files, None, false, || {
        let n = calls.get();
        calls.set(n + 1);
        Ok(if n == 0 { words(10) } else { words(140) })
    })
    .unwrap();
    let home = page(&run.store, "content/_index.md");
    let ov = home.overview.as_ref().expect("overview set after retry");
    assert_eq!(ov.split_whitespace().count(), 140);
    assert_eq!(calls.get(), 2);
}

#[test]
fn refresh_prunes_ghost_pages_and_topic_links() {
    let ghost = "content/gone/index.md";
    let home = "content/_index.md";
    let topic_id = "gone-topic";
    let store = GraphStore {
        pages: vec![
            Page {
                id: home.into(),
                canonical_path: "/".into(),
                path: home.into(),
                title: "Home".into(),
                summary: "s".into(),
                content_hash: "h".into(),
                ..Default::default()
            },
            Page {
                id: ghost.into(),
                canonical_path: "/gone/".into(),
                path: ghost.into(),
                title: "Gone".into(),
                summary: "ghost".into(),
                content_hash: "ghost".into(),
                topic_ids: vec![topic_id.into()],
                ..Default::default()
            },
        ],
        topics: vec![Topic {
            id: topic_id.into(),
            label: "Gone topic".into(),
            aliases: vec![],
            page_ids: vec![ghost.into(), home.into()],
        }],
        relations: vec![Relation {
            from: ghost.into(),
            to: topic_id.into(),
            kind: "page_topic".into(),
        }],
        meta: Meta { source_origin: "https://x".into(), last_refresh: String::new() },
        ..Default::default()
    };
    let files = [(
        "content/_index.md",
        "+++\ntitle = \"Home\"\n+++\n\n# Home\n\nEnglish home.\n".to_string(),
    )];
    let store = after(store, &files);
    assert!(store.pages.iter().all(|p| p.id != ghost), "ghost page must be dropped");
    assert!(
        !store.relations.iter().any(|r| r.from == ghost || r.to == ghost),
        "ghost page_topic edges must be dropped"
    );
    let topic = store.topics.iter().find(|t| t.id == topic_id).unwrap();
    assert!(
        !topic.page_ids.iter().any(|id| id == ghost),
        "ghost must be removed from topic.page_ids"
    );
}

#[test]
fn refresh_emits_reciprocal_translation_relations() {
    let files = [
        (
            "content/_index.md",
            "+++\ntitle = \"AI ATS\"\n+++\n\n# Home\n\nEnglish home.\n".to_string(),
        ),
        ("content/_index.fr.md", "+++\ntitle = \"ATS IA\"\n+++\n\nAccueil.\n".to_string()),
    ];
    let store = after(migrated(), &files);
    let en = "content/_index.md";
    let fr = "content/_index.fr.md";
    let rels = &store.relations;
    assert!(rels.iter().any(|r| r.kind == "translation" && r.from == fr && r.to == en));
    assert!(rels.iter().any(|r| r.kind == "translation" && r.from == en && r.to == fr));
    let n = rels.len();
    assert_eq!(after(store, &files).relations.len(), n, "edges are not doubled");
}

#[test]
fn pages_past_the_cap_are_left_with_their_hash_recorded() {
    let files = [
        ("content/a/index.md", "+++\ntitle = \"A\"\n+++\n\nOne.\n".to_string()),
        ("content/b/index.md", "+++\ntitle = \"B\"\n+++\n\nTwo.\n".to_string()),
    ];
    let (run, save) =
        refresh(migrated(), CONFIG, &files, Some(1), false, || Ok(words(140))).unwrap();
    assert!(save);
    assert_eq!(run.todo.len(), 2);
    assert_eq!(run.store.topics.len(), 1);
    assert_eq!(page(&run.store, "content/b/index.md").content_hash, hash_of("Two."));
    let (next, _) =
        refresh(run.store, CONFIG, &files, None, false, || Ok(words(140))).unwrap();
    assert!(next.todo.is_empty());
    let edited = [
        files[0].clone(),
        ("content/b/index.md", "+++\ntitle = \"B\"\n+++\n\nThree.\n".to_string()),
    ];
    let (last, _) =
        refresh(next.store, CONFIG, &edited, None, false, || Ok(words(140))).unwrap();
    assert_eq!(last.todo.len(), 1);
    assert_eq!(last.todo[0].0, "content/b/index.md");
}

#[test]
fn files_that_cannot_be_read_are_counted() {
    let site = GraphSiteConfig::load_optional(None);
    let mut run =
        RefreshRun::start(migrated(), site, "en".to_string(), vec![], None, false).unwrap();
    let down = || Failure::Outside("no such file".to_string());
    assert_eq!(run.open_file("a.md", Err(down())), Err(down()));
    assert_eq!(run.failures, 1);
    let err = run.open_file("a.md", Ok("+++\ntitle = 1\n".to_string())).unwrap_err();
    assert_eq!(err.message(), "a.md: frontmatter not terminated by `+++`");
    assert_eq!(run.failures, 2);
    let (_, body) = run.open_file("a.md", Ok("+++\n+++\nB\n".to_string())).unwrap();
    assert_eq!((body.as_str(), run.failures), ("B\n", 2));
    assert_eq!(run.store, migrated());
}

#[test]
fn hash_and_summary_are_of_the_trimmed_body() {
    let (fm, body) = parse_page("p", "+++\ntitle = \"A\"\n+++\n\n  One. \n\n").unwrap();
    let src = page_facts(fm, body, |p: &str| format!("h({p})"), |p: &str| format!("s({p})"));
    assert_eq!(src.body, "\n  One. \n\n");
    assert_eq!((src.hash.as_str(), src.summary.as_str()), ("h(One.)", "s(One.)"));
    assert_eq!(src.fm.get("title").unwrap().as_str(), Some("A"));
}

#[test]
fn refresh_prunes_ghost_even_when_max_zero() {
    let ghost = "content/gone/index.md";
    let store = GraphStore {
        pages: vec![
            Page {
                id: "content/_index.md".into(),
                canonical_path: "/".into(),
                path: "content/_index.md".into(),
                title: "Home".into(),
                summary: "s".into(),
                content_hash: "old".into(),
                ..Default::default()
            },
            Page {
                id: ghost.into(),
                canonical_path: "/gone/".into(),
                path: ghost.into(),
                title: "Gone".into(),
                summary: "ghost".into(),
                content_hash: "ghost".into(),
                ..Default::default()
            },
        ],
        meta: Meta { source_origin: "https://x".into(), last_refresh: String::new() },
        ..Default::default()
    };
    let files = [(
        "content/_index.md",
        "+++\ntitle = \"Home\"\n+++\n\n# Home\n\nFresh body for retopic.\n".to_string(),
    )];
    let (run, save) =
        refresh(store, CONFIG, &files, Some(0), false, || Ok(words(140))).unwrap();
    assert!(save);
    assert!(run.store.pages.iter().all(|p| p.id != ghost));
    assert!(run.store.topics.is_empty());
}

#[test]
fn refresh_overview_out_of_range_left_unset() {
    let files = [(
        "content/_index.md",
        "+++\ntitle = \"AI ATS\"\n+++\n\n# Home\n\nPillar body.\n".to_string(),
    )];
    let (run, _) = refresh(migrated(), CONFIG, &files, None, false, || Ok(words(10))).unwrap();
    let home = page(&run.store, "content/_index.md");
    assert!(home.overview.is_none(), "must not write a short stub overview");
}

#[test]
fn word_count_counts_cjk_chars_and_keeps_english_tokens() {
    let cjk = cjk_spaced(3000, 100);
    assert!(word_count_of(&cjk) >= 300, "got {}", word_count_of(&cjk));
    assert_eq!(word_count_of(&words(50)), 50);
    assert!(word_count_of(&"한".repeat(300)) >= 300);
    assert_eq!(word_count_of(&cjk), 3100);
    assert!(words_fit(&cjk));
}

#[test]
fn refresh_cjk_body_is_not_thin() {
    let files = [
        (
            "content/about-us/index.md",
            format!("+++\ntitle = \"About\"\n+++\n\n{}\n", words(400)),
        ),
        (
            "content/about-us/index.ja.md",
            format!("+++\ntitle = \"私たちについて\"\n+++\n\n{}\n", cjk_spaced(3000, 100)),
        ),
    ];
    let store = after(migrated(), &files);
    let ja = page(&store, "content/about-us/index.ja.md");
    assert!(ja.word_count >= 300, "got {}", ja.word_count);
    assert!(!ja.thin);
    let en = page(&store, "content/about-us/index.md");
    assert!(!en.thin);
}

#[test]
fn refresh_fifty_english_tokens_still_thin() {
    let files = [(
        "content/short/index.md",
        format!("+++\ntitle = \"Short\"\n+++\n\n{}\n", words(50)),
    )];
    let store = after(migrated(), &files);
    let short = page(&store, "content/short/index.md");
    assert_eq!(short.word_count, 50);
    assert!(short.thin);
}

#[test]
fn refresh_hides_untranslated_locale_with_same_hash() {
    let body = words(400);
    let files = [
        ("content/dup/index.md", format!("+++\ntitle = \"Dup\"\n+++\n\n{body}\n")),
        ("content/dup/index.ja.md", format!("+++\ntitle = \"Dup JA\"\n+++\n\n{body}\n")),
    ];
    let store = after(migrated(), &files);
    let en = page(&store, "content/dup/index.md");
    let ja = page(&store, "content/dup/index.ja.md");
    assert!(en.sitemap);
    assert!(!en.noindex);
    assert!(!ja.sitemap);
    assert!(ja.noindex);
}

#[test]
fn refresh_keeps_translated_cjk_in_sitemap() {
    let files = [
        ("content/ok/index.md", format!("+++\ntitle = \"Ok\"\n+++\n\n{}\n", words(400))),
        (
            "content/ok/index.ja.md",
            format!("+++\ntitle = \"了解\"\n+++\n\n{}\n", cjk_spaced(3000, 100)),
        ),
    ];
    let store = after(migrated(), &files);
    let en = page(&store, "content/ok/index.md");
    let ja = page(&store, "content/ok/index.ja.md");
    assert!(en.sitemap);
    assert!(ja.sitemap);
    assert!(!ja.thin);
    assert!(ja.word_count >= 300);
}

#[test]
fn refresh_counts_unreadable_pages() {
    let files = [
        ("content/bad.md", "no front matter".to_string()),
        ("content/a/index.md", "+++\ntitle = \"A\"\n+++\n\nBody.\n".to_string()),
    ];
    let err = refresh(migrated(), CONFIG, &files, None, false, || Ok(words(140)))
        .map(|_| ())
        .unwrap_err();
    assert_eq!(err.message(), "refresh completed with 1 failure(s)");
}

#[test]
fn visit_records_what_the_file_says() {
    let text = "+++\ntitle = \"Guide\"\ndescription = \"d\"\ndate = 2024-01-02\nupdated = \"2024-02-03\"\n[extra]\nauthor = \"Jo\"\nog_image = \"/x.png\"\nschema_types = [\"Article\"]\n+++\n\n# Head\n\nBody words here.\n";
    let mut run = RefreshRun::start(
        migrated(),
        GraphSiteConfig::default(),
        "en".to_string(),
        vec!["fr".to_string()],
        Some(7),
        false,
    )
    .unwrap();
    let v = run.visit(&names_of("content/g/index.md"), &source_of(text));
    assert_eq!((v.index, v.wants_overview), (1, false));
    let p = &run.store.pages[1];
    assert_eq!(p.id, "content/g/index.md");
    assert_eq!(p.path, p.id);
    assert_eq!(p.title, "Guide");
    assert_eq!(p.h1, "Head");
    assert_eq!(p.word_count, 5);
    assert_eq!(p.author.as_deref(), Some("Jo"));
    assert_eq!(p.date_published.as_deref(), Some("2024-01-02"));
    assert_eq!(p.date_modified.as_deref(), Some("2024-02-03"));
    assert_eq!(p.og_image.as_deref(), Some("/x.png"));
    assert_eq!(p.schema_types, vec!["Article"]);
    assert_eq!(p.summary, "summary of # Head\n\nBody words here.");
    assert_eq!(p.translation_of, None);
    assert_eq!(run.seen, vec!["content/g/index.md"]);
    assert_eq!(run.todo.len(), 1);
    assert_eq!(run.todo[0].1.description, "d");
    assert_eq!(run.todo[0].1.body, "# Head\n\nBody words here.");
    // visiting the same file again changes nothing
    let before = format!("{:?}", run);
    let again = run.visit(&names_of("content/g/index.md"), &source_of(text));
    assert_eq!(again.index, 1);
    assert_eq!(format!("{:?}", run), before);
    // translations are not noted down
    run.visit(&names_of("content/g/index.fr.md"), &source_of(text));
    assert_eq!(run.todo.len(), 1);
    assert_eq!(run.enrich_step(0), EnrichStep::Enrich);
    assert_eq!(run.enrich_step(1), EnrichStep::Stop);
}

#[test]
fn stale_page_is_detached_from_its_topics() {
    let id = "content/a/index.md";
    let mut store = migrated();
    store.pages[0].topic_ids = vec!["t".into()];
    store.topics = vec![Topic {
        id: "t".into(),
        label: "T".into(),
        aliases: vec![],
        page_ids: vec![id.into(), "content/b.md".into()],
    }];
    store.relations = vec![
        Relation { from: id.into(), to: "t".into(), kind: "page_topic".into() },
        Relation { from: id.into(), to: "content/b.md".into(), kind: "related".into() },
    ];
    let mut copy = store.clone();
    detach_page_topics(&mut copy, id);
    assert_eq!(copy.relations.len(), 1);
    assert_eq!(copy.relations[0].kind, "related");
    assert_eq!(copy.topics[0].page_ids, vec!["content/b.md"]);
    let mut run = RefreshRun::start(
        store,
        GraphSiteConfig::default(),
        "en".to_string(),
        vec![],
        None,
        false,
    )
    .unwrap();
    run.visit(&names_of(id), &source_of("+++\ntitle = \"A\"\n+++\nNew.\n"));
    assert!(run.store.pages[0].topic_ids.is_empty());
    assert_eq!(run.store.topics, copy.topics);
    assert_eq!(run.store.relations, copy.relations);
}

#[test]
fn marking_needs_a_twin_of_the_same_group() {
    let p = |id: &str, lang: &str, base: Option<&str>, hash: &str| Page {
        id: id.into(),
        lang: lang.into(),
        translation_of: base.map(|b| b.to_string()),
        content_hash: hash.into(),
        sitemap: true,
        ..Default::default()
    };
    let mut store = GraphStore {
        pages: vec![
            p("a", "en", None, "x"),
            p("a.fr", "fr", Some("a"), "y"),
            p("a.es", "es", Some("a"), "y"),
            p("b.fr", "fr", Some("b"), "x"),
            p("a.ja", "ja", Some("a"), ""),
            p("a.ko", "ko", Some("a"), ""),
            p("a.pt", "pt", Some("a"), "x"),
        ],
        ..Default::default()
    };
    mark_untranslated_siblings(&mut store, "en");
    let hidden: Vec<bool> = store.pages.iter().map(|p| p.noindex && !p.sitemap).collect();
    assert_eq!(hidden, vec![false, true, true, false, false, false, true]);
}

#[test]
fn pruning_keeps_edges_that_touch_no_missing_page() {
    let r = |from: &str, to: &str, kind: &str| Relation {
        from: from.into(),
        to: to.into(),
        kind: kind.into(),
    };
    let mut store = GraphStore {
        pages: vec![
            Page { id: "content/a.md".into(), ..Default::default() },
            Page {
                id: "content/a.fr.md".into(),
                translation_of: Some("content/a.md".into()),
                ..Default::default()
            },
            Page { id: "content/gone.md".into(), ..Default::default() },
        ],
        relations: vec![
            r("content/a.md", "t", "page_topic"),
            r("content/gone.md", "t", "page_topic"),
            r("t", "u", "related"),
            r("content/a.md", "content/gone.md", "related"),
        ],
        ..Default::default()
    };
    let seen = vec!["content/a.md".to_string(), "content/a.fr.md".to_string()];
    prune_store(&mut store, &seen);
    let expected = vec![
        r("content/a.md", "t", "page_topic"),
        r("t", "u", "related"),
        r("content/a.fr.md", "content/a.md", "translation"),
        r("content/a.md", "content/a.fr.md", "translation"),
    ];
    assert_eq!(store.relations, expected);
    assert_eq!(store.pages.len(), 2);
    let once = store.clone();
    prune_store(&mut store, &seen);
    assert_eq!(store, once);
    let rel = r("t", "u", "related");
    upsert_relation(&mut store.relations, &rel);
    assert_eq!(store.relations, expected);
    upsert_relation(&mut store.relations, &r("u", "t", "related"));
    assert_eq!(store.relations.len(), 5);
}

#[test]
fn overviews_have_a_length() {
    for (n, ok) in [(133, false), (134, true), (167, true), (168, false)] {
        assert_eq!(overview_in_range(&words(n)), ok);
        assert_eq!(accept_overview(words(n)).is_ok(), ok);
    }
    assert_eq!(
        accept_overview("one two".to_string()).unwrap_err().message(),
        "overview word count 2 still outside 134–167; leaving unset"
    );
}

/// Fetches an overview where the two requests are answered so. Tells what came of it,
/// and how often each request was made.
fn fetched(
    first: Result<String, CommandError>,
    second: Result<String, CommandError>,
) -> (Result<String, CommandError>, usize, usize) {
    let calls = Cell::new((0usize, 0usize));
    let r = fetch_overview(
        || {
            let (a, b) = calls.get();
            calls.set((a + 1, b));
            first
        },
        |refused: &String| {
            assert!(!overview_in_range(refused));
            let (a, b) = calls.get();
            calls.set((a, b + 1));
            second
        },
    );
    let (a, b) = calls.get();
    (r, a, b)
}

#[test]
fn overviews_are_asked_for_at_most_twice() {
    let down = || Failure::Outside("down".to_string());
    assert_eq!(fetched(Err(down()), Ok(words(150))), (Err(down()), 1, 0));
    assert_eq!(fetched(Ok(words(134)), Ok(words(150))), (Ok(words(134)), 1, 0));
    assert_eq!(fetched(Ok(words(133)), Ok(words(167))), (Ok(words(167)), 1, 1));
    assert_eq!(fetched(Ok(words(168)), Err(down())), (Err(down()), 1, 1));
    let (r, first, second) = fetched(Ok(words(5)), Ok(words(168)));
    assert_eq!(
        r.unwrap_err().message(),
        "overview word count 168 still outside 134–167; leaving unset"
    );
    assert_eq!((first, second), (1, 1));
}

#[test]
fn overview_steps() {
    let down = || Failure::Outside("down".to_string());
    assert_eq!(overview_step(Err(down()), false), OverviewStep::Done(Err(down())));
    assert_eq!(overview_step(Err(down()), true), OverviewStep::Done(Err(down())));
    assert_eq!(overview_step(Ok(words(140)), false), OverviewStep::Done(Ok(words(140))));
    assert_eq!(overview_step(Ok(words(140)), true), OverviewStep::Done(Ok(words(140))));
    assert_eq!(overview_step(Ok(words(9)), false), OverviewStep::AskAgain(words(9)));
    assert_eq!(
        overview_step(Ok(words(9)), true),
        OverviewStep::Done(Err(Failure::OverviewLength(9)))
    );
}

#[test]
fn kinds_of_pages() {
    assert!(is_section_index("_index.md"));
    assert!(is_section_index("_index.fr.md"));
    assert!(!is_section_index("_indexes.md"));
    assert!(is_stub("", "body", "x.md"));
    assert!(is_stub("—", "body", "_index.md"));
    assert!(is_stub("T", "", "x.md"));
    assert!(!is_stub("T", "", "_index.md"));
    assert!(!is_stub("T", "b", "x.md"));
    assert!(is_thin_exempt("/privacy-policy/"));
    assert!(is_thin_exempt("/terms/"));
    assert!(is_thin_exempt("/404.html"));
    assert!(!is_thin_exempt("/about/terms/"));
}

#[test]
fn cjk_ranges_have_their_bounds() {
    for (lo, hi) in [
        (0x1100u32, 0x11FFu32),
        (0x3040, 0x30FF),
        (0x3130, 0x318F),
        (0x31F0, 0x31FF),
        (0x3400, 0x4DBF),
        (0x4E00, 0x9FFF),
        (0xA960, 0xA97F),
        (0xAC00, 0xD7FF),
        (0xF900, 0xFAFF),
        (0xFF66, 0xFF9D),
    ] {
        assert!(is_cjk_or_hangul(char::from_u32(lo).unwrap()));
        assert!(is_cjk_or_hangul(char::from_u32(hi).unwrap()));
        assert!(!is_cjk_or_hangul(char::from_u32(lo - 1).unwrap()));
        assert!(char::from_u32(hi + 1).map_or(true, |c| !is_cjk_or_hangul(c)));
    }
}

#[test]
fn every_page_has_one_node() {
    let files = [
        ("content/a/index.md", "+++\ntitle = \"A\"\n+++\n\nBody.\n".to_string()),
        ("content/b/index.md", "+++\ntitle = \"B\"\n+++\n\nBody.\n".to_string()),
        ("content/a/index.md", "+++\ntitle = \"A again\"\n+++\n\nBody.\n".to_string()),
    ];
    let store = after(migrated(), &files);
    let ids: Vec<&str> = store.pages.iter().map(|p| p.id.as_str()).collect();
    assert_eq!(ids, vec!["content/a/index.md", "content/b/index.md"]);
    assert_eq!(store.pages[0].title, "A again");
    // a node that is known by its path alone is taken over
    let mut old = migrated();
    old.pages[0].id = "https://x/a".into();
    let store = after(old, &files);
    assert_eq!(store.pages.len(), 2);
    assert_eq!(store.pages[0].id, "content/a/index.md");
}
