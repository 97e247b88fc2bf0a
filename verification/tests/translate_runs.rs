use std::cell::Cell;
use std::collections::BTreeMap;
use zola_graph::endpoint::{build_translate_request, translate_reply};
use zola_graph::failure::{CommandError, Failure};
use zola_graph::locale::{is_default_page, read_langs, sibling_path};
use zola_graph::page::parse_page;
use zola_graph::toml_value::TomlValue;
use zola_graph::translate::{source_hash, LlmClient, Translatable};
use zola_graph::translate_run::{is_fresh, page_work, Opened, Outcome, Step, TranslateRun};

/// Files in memory, by path.
struct Fixture {
    files: BTreeMap<String, String>,
}

const CONFIG: &str =
    "base_url = \"https://x/\"\ndefault_language = \"en\"\n[languages.es]\n[languages.fr]\n";

impl Fixture {
    fn new() -> Self {
        Fixture { files: BTreeMap::new() }
    }

    fn write_page(&mut self, rel: &str, fm: &str, body: &str) {
        self.files.insert(rel.to_string(), format!("+++\n{fm}+++\n\n{body}"));
    }

    fn has(&self, rel: &str) -> bool {
        self.files.contains_key(rel)
    }

    fn run<C: LlmClient>(
        &mut self,
        max: Option<usize>,
        dry_run: bool,
        client: &C,
    ) -> (TranslateRun, Result<(), CommandError>) {
        let mut run = TranslateRun::new(max, dry_run);
        let (_, langs) = read_langs(CONFIG).unwrap();
        let pages: Vec<String> = self.files.keys().cloned().collect();
        for page in pages {
            let name = page.rsplit('/').next().unwrap().to_string();
            if !is_default_page(&name, &langs) {
                continue;
            }
            let (fm, en, hash) = match run.open_page(&page, Ok(self.files[&page].clone())) {
                Opened::Work { fm, en, hash } => (fm, en, hash),
                _ => continue,
            };
            for lang in &langs {
                let path = sibling_path(&page, lang);
                let fresh = is_fresh(&path, self.files.get(&path).map(|s| s.as_str()), &hash);
                if run.decide(fresh) != Step::Ask {
                    continue;
                }
                let reply = client.translate(&en, lang, "test-key");
                match run.settle(&fm, &en, &hash, reply) {
                    Outcome::Write(text) => {
                        self.files.insert(path, text);
                        run.wrote();
                    }
                    Outcome::Failed(_) => {}
                    Outcome::Stop(e) => return (run, Err(e)),
                }
            }
        }
        let end = run.finish();
        (run, end)
    }
}

struct EchoClient {
    calls: Cell<usize>,
}

impl LlmClient for EchoClient {
    fn translate(
        &self,
        f: &Translatable,
        lang: &str,
        _key: &str,
    ) -> Result<Translatable, CommandError> {
        self.calls.set(self.calls.get() + 1);
        Ok(Translatable {
            title: format!("[{lang}] {}", f.title),
            description: format!("[{lang}] {}", f.description),
            body: format!("[{lang}] {}", f.body),
        })
    }
}

struct DroppingClient;

impl LlmClient for DroppingClient {
    fn translate(
        &self,
        f: &Translatable,
        _lang: &str,
        _key: &str,
    ) -> Result<Translatable, CommandError> {
        Ok(Translatable {
            title: f.title.replace("Curriculo", "Brand"),
            description: f.description.replace("Curriculo", "Brand"),
            body: f.body.replace("Curriculo", "Brand"),
        })
    }
}

struct FailClient;

impl LlmClient for FailClient {
    fn translate(&self, _: &Translatable, _: &str, _: &str) -> Result<Translatable, CommandError> {
        Err(Failure::Outside("boom".to_string()))
    }
}

/// A client of an endpoint that always answers with the same text.
struct EndpointClient {
    answer: &'static str,
}

impl LlmClient for EndpointClient {
    fn translate(
        &self,
        f: &Translatable,
        lang: &str,
        _key: &str,
    ) -> Result<Translatable, CommandError> {
        let (_, sent) = build_translate_request(f, lang, &vec![]);
        translate_reply(true, "200 OK", self.answer, &sent, f)
    }
}

fn en_page_fm() -> &'static str {
    "title = \"Hello Curriculo\"\ndescription = \"A desc\"\n[date]\ntaxonomies = {tags = [\"x\"]}\n"
}

#[test]
fn hash_gate_fresh_skip_and_stale_regen() {
    let mut fx = Fixture::new();
    fx.write_page("content/post/index.md", en_page_fm(), "Body one.\n");

    let c = EchoClient { calls: Cell::new(0) };
    // run 1: both langs stale → 2 calls, both written
    let (run, end) = fx.run(None, false, &c);
    end.unwrap();
    assert_eq!(c.calls.get(), 2);
    assert_eq!((run.calls, run.written, run.skipped_fresh), (2, 2, 0));
    let es = fx.files["content/post/index.es.md"].clone();
    assert!(es.contains("[es] Hello Curriculo"));
    assert!(es.contains("source_hash"));
    assert!(es.contains("Curriculo"));

    // run 2: source unchanged → both fresh → no calls
    let (run, end) = fx.run(None, false, &c);
    end.unwrap();
    assert_eq!(c.calls.get(), 2, "fresh siblings must not re-translate");
    assert_eq!((run.calls, run.written, run.skipped_fresh), (0, 0, 2));

    // mutate en body → both stale → 2 more calls
    fx.write_page("content/post/index.md", en_page_fm(), "Body two.\n");
    fx.run(None, false, &c).1.unwrap();
    assert_eq!(c.calls.get(), 4, "stale siblings must regenerate");
}

#[test]
fn glossary_rejection_does_not_write() {
    let mut fx = Fixture::new();
    fx.write_page("content/post/index.md", en_page_fm(), "Curriculo body.\n");
    let (_, res) = fx.run(None, false, &DroppingClient);
    assert!(res.is_err(), "glossary failure must surface as non-zero exit");
    assert!(!fx.has("content/post/index.es.md"), "file must NOT be written");
    assert!(!fx.has("content/post/index.fr.md"));
}

#[test]
fn max_cap_resumes_next_run() {
    let mut fx = Fixture::new();
    fx.write_page("content/post/index.md", en_page_fm(), "Body.\n");

    // cap at 1 call: only one of {es, fr} translated
    let c1 = EchoClient { calls: Cell::new(0) };
    let (run, end) = fx.run(Some(1), false, &c1);
    end.unwrap();
    assert_eq!(c1.calls.get(), 1);
    assert_eq!(run.skipped_cap, 1);
    let one_written = fx.has("content/post/index.es.md") ^ fx.has("content/post/index.fr.md");
    assert!(one_written, "exactly one sibling written under --max 1");

    // resume: the remaining lang is still missing → translated now
    let c2 = EchoClient { calls: Cell::new(0) };
    fx.run(None, false, &c2).1.unwrap();
    assert_eq!(c2.calls.get(), 1, "only the previously-capped lang remains");
    assert!(fx.has("content/post/index.es.md"));
    assert!(fx.has("content/post/index.fr.md"));
}

#[test]
fn non_zero_exit_on_failures() {
    let mut fx = Fixture::new();
    fx.write_page("content/post/index.md", en_page_fm(), "Body.\n");
    let (_, res) = fx.run(None, false, &FailClient);
    assert!(res.is_err());
    assert!(res.unwrap_err().message().contains("failure"));
}

#[test]
fn empty_body_skipped_no_key_needed_for_dry_run() {
    let mut fx = Fixture::new();
    // title-only page: empty body → skipped by translate
    fx.write_page("content/stub/index.md", "title = \"Stub\"\n", "\n");
    let c = EchoClient { calls: Cell::new(0) };
    fx.run(None, true, &c).1.unwrap();
    assert_eq!(c.calls.get(), 0);
    assert!(!fx.has("content/stub/index.es.md"));
}

#[test]
fn dry_run_asks_for_nothing() {
    let mut fx = Fixture::new();
    fx.write_page("content/post/index.md", en_page_fm(), "Body.\n");
    let c = EchoClient { calls: Cell::new(0) };
    let (run, end) = fx.run(None, true, &c);
    end.unwrap();
    assert_eq!(c.calls.get(), 0);
    assert_eq!(run, TranslateRun::new(None, true));
    assert_eq!(fx.files.len(), 1);
}

#[test]
fn failure_envelopes_write_no_sibling() {
    for answer in [
        r#"{"ok": false, "translations": ["passthrough", "passthrough", "passthrough"]}"#,
        r#"{"code": 1003, "translations": ["passthrough", "passthrough", "passthrough"]}"#,
    ] {
        let mut fx = Fixture::new();
        fx.write_page("content/post/index.md", en_page_fm(), "Body one.\n");
        let (run, res) = fx.run(None, false, &EndpointClient { answer });
        assert_eq!(res.unwrap_err().message(), "translate completed with 2 failure(s)");
        assert_eq!((run.calls, run.written, run.failures), (2, 0, 2));
        assert!(!fx.has("content/post/index.es.md"));
        assert!(!fx.has("content/post/index.fr.md"));
    }
}

#[test]
fn unreadable_pages_are_counted_and_the_run_goes_on() {
    let mut fx = Fixture::new();
    fx.files.insert("content/bad/index.md".to_string(), "no front matter".to_string());
    fx.write_page("content/post/index.md", en_page_fm(), "Body.\n");
    let c = EchoClient { calls: Cell::new(0) };
    let (run, res) = fx.run(None, false, &c);
    assert_eq!(res.unwrap_err().message(), "translate completed with 1 failure(s)");
    assert_eq!((run.written, run.failures), (2, 1));
}

#[test]
fn reading_failures_are_counted() {
    let mut run = TranslateRun::new(Some(0), false);
    assert!(run.has_room());
    match run.open_page("p", Err(Failure::Outside("gone".to_string()))) {
        Opened::Failed(e) => assert_eq!(e.message(), "gone"),
        _ => panic!("must fail"),
    }
    assert_eq!(run.failures, 1);
    assert_eq!(run.decide(false), Step::Capped);
    assert_eq!(run.decide(true), Step::Fresh);
    assert_eq!((run.skipped_cap, run.skipped_fresh), (1, 1));
}

#[test]
fn unwritable_front_matter_stops_the_run() {
    let mut run = TranslateRun::new(None, false);
    let fm = TomlValue::Table(vec![("x".to_string(), TomlValue::Float("bad".to_string()))]);
    let en = Translatable { title: "T".into(), description: "D".into(), body: "B".into() };
    assert_eq!(run.decide(false), Step::Ask);
    match run.settle(&fm, &en, "h", Ok(en.clone())) {
        Outcome::Stop(e) => assert_eq!(e.message(), "serialize frontmatter: a float or a date-time that is none"),
        _ => panic!("must stop"),
    }
    assert_eq!((run.failures, run.written), (0, 0));
}

#[test]
fn work_is_title_description_and_trimmed_body() {
    let (fm, body) = parse_page("p", "+++\ntitle = \"T\"\n+++\n\n  x \n").unwrap();
    let (en, hash) = page_work(&fm, &body).unwrap();
    assert_eq!(
        en,
        Translatable { title: "T".into(), description: "".into(), body: "x".into() }
    );
    assert_eq!(hash, source_hash(&en));
    assert!(page_work(&fm, " \n").is_none());
}

#[test]
fn a_sibling_is_fresh_only_with_the_hash() {
    let s = "+++\n[extra]\nsource_hash = \"h\"\n+++\nB";
    assert!(is_fresh("p", Some(s), "h"));
    assert!(!is_fresh("p", Some(s), "g"));
    assert!(!is_fresh("p", None, "h"));
    assert!(!is_fresh("p", Some("+++\n"), "h"));
    assert!(!is_fresh("p", Some("+++\n[extra]\nsource_hash = 5\n+++\n"), "5"));
}
