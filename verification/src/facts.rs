//! What the graph records of a page: whether it is unfinished, thin or hidden,
//! how many words it has, and what its front matter says.
use vstd::prelude::*;

use crate::heading;
use crate::locale;
use crate::page;
use crate::schema::{Page, PageModel};
use crate::text;
use crate::toml_value;
use crate::toml_value::{TomlModel, TomlValue};

verus! {

/// A page with fewer words than this is thin.
pub const THIN_WORDS: u32 = 300;

// ---- kinds of pages ----

/// Whether a file is the index of a section.
pub open spec fn section_index(file_name: Seq<char>) -> bool {
    file_name == "_index.md"@ || "_index."@.is_prefix_of(file_name)
}

/// Whether a file is the index of a section.
pub fn is_section_index(file_name: &str) -> (b: bool)
    ensures
        b == section_index(file_name@),
{
    text::same(file_name, "_index.md") || text::starts_with(file_name, "_index.")
}

/// Whether a page is unfinished: it has no real title, or no body where it is not
/// the index of a section, whose content may all be in its front matter.
pub open spec fn stub(title: Seq<char>, body_trim: Seq<char>, file_name: Seq<char>) -> bool {
    ||| title.len() == 0
    ||| title == "—"@
    ||| body_trim.len() == 0 && !section_index(file_name)
}

/// Whether a page is unfinished.
pub fn is_stub(title: &str, body_trim: &str, file_name: &str) -> (b: bool)
    ensures
        b == stub(title@, body_trim@, file_name@),
{
    if title.is_empty() || text::same(title, "—") {
        return true;
    }
    if !body_trim.is_empty() {
        return false;
    }
    !is_section_index(file_name)
}

/// Whether a page may be short.
pub open spec fn thin_exempt(canonical_path: Seq<char>) -> bool {
    ||| "/privacy"@.is_prefix_of(canonical_path)
    ||| "/terms"@.is_prefix_of(canonical_path)
    ||| "/404"@.is_prefix_of(canonical_path)
}

/// Whether a page may be short.
pub fn is_thin_exempt(canonical_path: &str) -> (b: bool)
    ensures
        b == thin_exempt(canonical_path@),
{
    text::starts_with(canonical_path, "/privacy") || text::starts_with(canonical_path, "/terms")
        || text::starts_with(canonical_path, "/404")
}

// ---- words ----

/// Han, Hiragana, Katakana and Hangul: each character counts as a word.
pub open spec fn cjk_or_hangul(c: char) -> bool {
    let u = c as u32;
    ||| 0x1100 <= u <= 0x11FF
    ||| 0x3040 <= u <= 0x309F
    ||| 0x30A0 <= u <= 0x30FF
    ||| 0x3130 <= u <= 0x318F
    ||| 0x31F0 <= u <= 0x31FF
    ||| 0x3400 <= u <= 0x4DBF
    ||| 0x4E00 <= u <= 0x9FFF
    ||| 0xA960 <= u <= 0xA97F
    ||| 0xAC00 <= u <= 0xD7FF
    ||| 0xF900 <= u <= 0xFAFF
    ||| 0xFF66 <= u <= 0xFF9D
}

/// Whether a character counts as a word.
pub fn is_cjk_or_hangul(c: char) -> (b: bool)
    ensures
        b == cjk_or_hangul(c),
{
    let u: u32 = c as u32;
    // Hangul Jamo, Hiragana, Katakana
    (0x1100 <= u && u <= 0x11FF) || (0x3040 <= u && u <= 0x309F) || (0x30A0 <= u && u <= 0x30FF)
    // Hangul Compatibility Jamo, Katakana Phonetic Extensions
     || (0x3130 <= u && u <= 0x318F) || (0x31F0 <= u && u <= 0x31FF)
    // CJK Unified Ideographs Extension A, CJK Unified Ideographs
     || (0x3400 <= u && u <= 0x4DBF) || (0x4E00 <= u && u <= 0x9FFF)
    // Hangul Jamo Extended-A, Hangul Syllables and Hangul Jamo Extended-B
     || (0xA960 <= u && u <= 0xA97F) || (0xAC00 <= u && u <= 0xD7FF)
    // CJK Compatibility Ideographs, Halfwidth Katakana
     || (0xF900 <= u && u <= 0xFAFF) || (0xFF66 <= u && u <= 0xFF9D)
}

/// The characters of a text that count as words.
pub open spec fn cjk_in(s: Seq<char>) -> Seq<char> {
    s.filter(|c: char| cjk_or_hangul(c))
}

/// The number of words in a body: without its tags, its runs of characters, and
/// once more its characters that count as words.
pub open spec fn total_words(body: Seq<char>) -> nat {
    let plain = heading::untagged(body, false);
    text::words_of(plain) + cjk_in(plain).len()
}

fn cjk_count(s: &str) -> (n: usize)
    ensures
        n == cjk_in(s@).len(),
{
    let v: Vec<char> = text::chars_of(s);
    let ghost p = |c: char| cjk_or_hangul(c);
    let mut n: usize = 0;
    assert(v@.take(0).filter(p) =~= Seq::<char>::empty()) by {
        reveal(Seq::filter);
    }
    for i in 0..v.len()
        invariant
            v@ == s@,
            p == |c: char| cjk_or_hangul(c),
            n == v@.take(i as int).filter(p).len(),
            n <= i,
    {
        proof {
            text::lemma_filter_step(v@, i as int, p);
        }
        if is_cjk_or_hangul(v[i]) {
            n = n + 1;
        }
    }
    assert(v@.take(v@.len() as int) =~= v@);
    n
}

/// Whether the number of words in a body can be recorded.
pub fn words_fit(body: &str) -> (b: bool)
    ensures
        b == (total_words(body@) <= u32::MAX),
{
    let plain: String = heading::strip_html_tags(body);
    let spaced: usize = text::word_count(plain.as_str());
    let cjk: usize = cjk_count(plain.as_str());
    spaced as u128 + cjk as u128 <= u32::MAX as u128
}

/// The number of words in a body.
pub fn word_count_of(body: &str) -> (n: u32)
    requires
        total_words(body@) <= u32::MAX,
    ensures
        n == total_words(body@),
{
    let plain: String = heading::strip_html_tags(body);
    let spaced: u32 = text::word_count(plain.as_str()) as u32;
    let cjk: u32 = cjk_count(plain.as_str()) as u32;
    spaced + cjk
}

// ---- filling a node ----

/// What a page is called: its path from the root of the site, the name of its
/// file, its identifier, its path on the site, its language, and the identifier of
/// the page in the default language that it would translate.
#[derive(Clone, Debug, PartialEq, Eq)]
pub struct PageNames {
    pub rel: String,
    pub file_name: String,
    pub id: String,
    pub canonical_path: String,
    pub lang: String,
    pub base_id: String,
}

/// What the names of a page say.
pub struct NamesModel {
    pub rel: Seq<char>,
    pub file_name: Seq<char>,
    pub id: Seq<char>,
    pub canonical_path: Seq<char>,
    pub lang: Seq<char>,
    pub base_id: Seq<char>,
}

impl View for PageNames {
    type V = NamesModel;

    open spec fn view(&self) -> NamesModel {
        NamesModel {
            rel: self.rel@,
            file_name: self.file_name@,
            id: self.id@,
            canonical_path: self.canonical_path@,
            lang: self.lang@,
            base_id: self.base_id@,
        }
    }
}

/// What a file holds: its front matter and its body, and of its trimmed body the
/// hash and a summary.
#[derive(Debug, PartialEq, Eq)]
pub struct PageSource {
    pub fm: TomlValue,
    pub body: String,
    pub hash: String,
    pub summary: String,
}

/// What the contents of a file say.
pub struct SourceModel {
    pub fm: TomlModel,
    pub body: Seq<char>,
    pub hash: Seq<char>,
    pub summary: Seq<char>,
}

impl View for PageSource {
    type V = SourceModel;

    open spec fn view(&self) -> SourceModel {
        SourceModel {
            fm: self.fm@,
            body: self.body@,
            hash: self.hash@,
            summary: self.summary@,
        }
    }
}

/// What a file holds, given its front matter and its body. `content_hash` and
/// `summarize` give the hash and the summary of the trimmed body.
pub fn page_facts<H: Fn(&str) -> String, S: Fn(&str) -> String>(
    fm: TomlValue,
    body: String,
    content_hash: H,
    summarize: S,
) -> (src: PageSource)
    requires
        forall|p: &str| content_hash.requires((p,)),
        forall|p: &str| summarize.requires((p,)),
    ensures
        src@.fm == fm@,
        src@.body == body@,
        exists|p: &str| #[trigger]
            p@ == text::trim_of(body@) && content_hash.ensures((p,), src.hash)
                && summarize.ensures((p,), src.summary),
{
    let trimmed: String = text::trim(body.as_str());
    let p: &str = trimmed.as_str();
    let hash: String = content_hash(p);
    let summary: String = summarize(p);
    assert(p@ == text::trim_of(body@) && content_hash.ensures((p,), hash) && summarize.ensures(
        (p,),
        summary,
    ));
    PageSource { fm, body, hash, summary }
}

/// The identifier of the page in the default language that a file in the language
/// `lang` translates. `page_id_from_rel` gives the identifier of a path.
pub fn default_lang_page_id<F: Fn(&str) -> String>(
    rel: &str,
    file_name: &str,
    lang: &str,
    page_id_from_rel: F,
) -> (id: String)
    requires
        forall|p: &str| page_id_from_rel.requires((p,)),
    ensures
        exists|p: &str| #[trigger]
            p@ == locale::default_rel_of(rel@, file_name@, lang@) && page_id_from_rel.ensures(
                (p,),
                id,
            ),
{
    let p: String = locale::default_rel(rel, file_name, lang);
    let path: &str = p.as_str();
    let id: String = page_id_from_rel(path);
    assert(path@ == locale::default_rel_of(rel@, file_name@, lang@) && page_id_from_rel.ensures(
        (path,),
        id,
    ));
    id
}

/// Whether a page is unfinished.
pub open spec fn stub_page(names: NamesModel, src: SourceModel) -> bool {
    stub(page::str_of(src.fm, "title"@), text::trim_of(src.body), names.file_name)
}

/// Whether a page asks not to be indexed.
pub open spec fn noindex_page(src: SourceModel) -> bool {
    toml_value::toml_bool(page::extra_of(src.fm, "noindex"@)) == Some(true)
}

/// A node of the graph, filled from a file. What was recorded of its topics and
/// its overview stays.
pub open spec fn filled(
    old_page: PageModel,
    names: NamesModel,
    src: SourceModel,
    default_lang: Seq<char>,
) -> PageModel {
    PageModel {
        id: names.id,
        canonical_path: names.canonical_path,
        path: names.id,
        title: page::str_of(src.fm, "title"@),
        h1: heading::heading_of(
            heading::first_capture(heading::MD_H1@, src.body),
            heading::first_capture(heading::HTML_H1@, src.body),
        ),
        word_count: total_words(src.body) as u32,
        stub: stub_page(names, src),
        thin: !stub_page(names, src) && total_words(src.body) < THIN_WORDS && !thin_exempt(
            names.canonical_path,
        ) && !section_index(names.file_name),
        noindex: noindex_page(src),
        sitemap: !stub_page(names, src) && !noindex_page(src) && toml_value::toml_bool(
            page::extra_of(src.fm, "sitemap"@),
        ) != Some(false),
        lang: names.lang,
        translation_of: if names.lang == default_lang {
            None
        } else {
            Some(names.base_id)
        },
        author: page::inked_string(page::extra_of(src.fm, "author"@)),
        date_published: page::date_of(src.fm, "date"@),
        date_modified: page::date_of(src.fm, "updated"@),
        og_image: page::inked_string(page::extra_of(src.fm, "og_image"@)),
        schema_types: page::string_list_of(page::extra_of(src.fm, "schema_types"@)),
        summary: if text::trim_of(src.body).len() == 0 {
            Seq::empty()
        } else {
            src.summary
        },
        content_hash: src.hash,
        topic_ids: old_page.topic_ids,
        overview: old_page.overview,
    }
}

/// Fills a node of the graph from a file.
pub fn fill_page_fields(page: &mut Page, names: &PageNames, src: &PageSource, default_lang: &str)
    requires
        total_words(src@.body) <= u32::MAX,
    ensures
        final(page)@ == filled(old(page)@, names@, src@, default_lang@),
{
    let fm: &TomlValue = &src.fm;
    let title: String = page::get_str(fm, "title");
    let body_trim: String = text::trim(src.body.as_str());
    let wc: u32 = word_count_of(src.body.as_str());
    let stub: bool = is_stub(title.as_str(), body_trim.as_str(), names.file_name.as_str());
    let noindex: bool = match page::extra_bool(fm, "noindex") {
        Some(b) => b,
        None => false,
    };
    let sitemap_off: bool = match page::extra_bool(fm, "sitemap") {
        Some(b) => !b,
        None => false,
    };
    // The copy of a section listing is often all in its front matter: having no
    // words does not make it thin.
    let thin: bool = !stub && wc < THIN_WORDS && !is_thin_exempt(names.canonical_path.as_str())
        && !is_section_index(names.file_name.as_str());
    let translation_of: Option<String> = if text::same(names.lang.as_str(), default_lang) {
        None
    } else {
        Some(names.base_id.clone())
    };
    let summary: String = if body_trim.as_str().is_empty() {
        String::new()
    } else {
        src.summary.clone()
    };
    assert(summary@ =~= filled(page@, names@, src@, default_lang@).summary);
    page.id = names.id.clone();
    page.canonical_path = names.canonical_path.clone();
    page.path = names.id.clone();
    page.title = title;
    page.h1 = heading::extract_h1(src.body.as_str());
    page.word_count = wc;
    page.stub = stub;
    page.thin = thin;
    page.noindex = noindex;
    page.sitemap = !(stub || noindex || sitemap_off);
    page.lang = names.lang.clone();
    page.translation_of = translation_of;
    page.author = page::extra_str(fm, "author");
    page.date_published = page::fm_date(fm, "date");
    page.date_modified = page::fm_date(fm, "updated");
    page.og_image = page::extra_str(fm, "og_image");
    page.schema_types = page::extra_string_list(fm, "schema_types");
    page.summary = summary;
    page.content_hash = src.hash.clone();
}

/// Stubs and pages that ask not to be indexed are out of the sitemap, and a stub
/// is never called thin.
pub proof fn law_hidden_pages(
    old_page: PageModel,
    names: NamesModel,
    src: SourceModel,
    default_lang: Seq<char>,
)
    ensures
        ({
            let p = filled(old_page, names, src, default_lang);
            &&& p.stub ==> !p.sitemap && !p.thin
            &&& p.noindex ==> !p.sitemap
        }),
{
}

/// Filling a node leaves its topics and its overview as they were, names it by its
/// identifier whatever its front matter says, records the hash of the file, and
/// makes it a translation exactly where it is not in the default language. Filling
/// it again from the same file changes nothing.
pub proof fn law_filling_a_node(
    old_page: PageModel,
    names: NamesModel,
    src: SourceModel,
    default_lang: Seq<char>,
)
    ensures
        ({
            let p = filled(old_page, names, src, default_lang);
            &&& p.topic_ids == old_page.topic_ids
            &&& p.overview == old_page.overview
            &&& p.id == names.id
            &&& p.path == names.id
            &&& p.lang == names.lang
            &&& p.content_hash == src.hash
            &&& p.translation_of is None <==> p.lang == default_lang
            &&& filled(p, names, src, default_lang) == p
        }),
{
}

// ---- what is recorded of a page ----

/// Each character of Han, Hiragana, Katakana and Hangul counts as a word, and no other.
pub proof fn law_cjk_or_hangul(c: char)
    ensures
        cjk_or_hangul(c) <==> {
            ||| '\u{1100}' <= c <= '\u{11ff}' || '\u{3040}' <= c <= '\u{30ff}'
            ||| '\u{3130}' <= c <= '\u{318f}' || '\u{31f0}' <= c <= '\u{31ff}'
            ||| '\u{3400}' <= c <= '\u{4dbf}' || '\u{4e00}' <= c <= '\u{9fff}'
            ||| '\u{a960}' <= c <= '\u{a97f}' || '\u{ac00}' <= c <= '\u{d7ff}'
            ||| '\u{f900}' <= c <= '\u{faff}' || '\u{ff66}' <= c <= '\u{ff9d}'
        },
{
}

/// The words of a body are counted in what stands outside of its tags: its runs of
/// characters, and one more for each character that counts as a word. A tag adds
/// nothing.
pub proof fn law_word_count(plain: Seq<char>, tag: Seq<char>, rest: Seq<char>)
    requires
        heading::without_brackets(plain),
        heading::without_brackets(rest),
        !tag.contains('>'),
    ensures
        total_words(plain) == text::words_of(plain) + plain.filter(
            |c: char| cjk_or_hangul(c),
        ).len(),
        total_words(plain + (seq!['<'] + tag + seq!['>'] + rest)) == total_words(plain + rest),
{
    let inner = seq!['<'] + tag + seq!['>'] + rest;
    heading::law_tags_are_dropped(plain, tag, rest);
    heading::law_tags_are_dropped(plain, tag, inner);
    heading::law_tags_are_dropped(rest, tag, rest);
    assert(heading::without_brackets(plain + rest)) by {
        assert forall|c: char| (plain + rest).contains(c) implies plain.contains(c)
            || rest.contains(c) by {
            let i = choose|i: int| 0 <= i < (plain + rest).len() && (plain + rest)[i] == c;
            if i < plain.len() {
                assert(plain[i] == c);
            } else {
                assert(rest[i - plain.len()] == c);
            }
        }
    }
    heading::law_tags_are_dropped(plain + rest, tag, rest);
}

/// The title that is recorded is the string under `title`, or nothing.
pub proof fn law_recorded_title(
    old_page: PageModel,
    names: NamesModel,
    src: SourceModel,
    default_lang: Seq<char>,
)
    ensures
        match toml_value::toml_member(src.fm, "title"@) {
            Some(TomlModel::Str(s)) => filled(old_page, names, src, default_lang).title == s,
            _ => filled(old_page, names, src, default_lang).title.len() == 0,
        },
{
}

/// A page is a stub exactly where its title is empty or a dash, or where its body is
/// blank and it is not the index of a section. A section index with a title is none,
/// whatever its body.
pub proof fn law_recorded_stub(
    old_page: PageModel,
    names: NamesModel,
    src: SourceModel,
    default_lang: Seq<char>,
)
    ensures
        ({
            let p = filled(old_page, names, src, default_lang);
            p.stub <==> {
                ||| p.title.len() == 0
                ||| p.title == "—"@
                ||| text::blank(src.body) && !"_index."@.is_prefix_of(names.file_name)
            }
        }),
{
    page::law_inked(src.body);
    reveal_strlit("_index.md");
    reveal_strlit("_index.");
    if names.file_name == "_index.md"@ {
        assert("_index."@ =~= "_index.md"@.subrange(0, "_index."@.len() as int));
    }
}

/// A page is thin exactly where it is no stub, has fewer than 300 words, is not the
/// index of a section, and is not about privacy, terms or missing pages. A body of as
/// many words as can be recorded is recorded with its number of words.
pub proof fn law_recorded_thin(
    old_page: PageModel,
    names: NamesModel,
    src: SourceModel,
    default_lang: Seq<char>,
)
    requires
        total_words(src.body) <= u32::MAX,
    ensures
        ({
            let p = filled(old_page, names, src, default_lang);
            &&& p.word_count == total_words(src.body)
            &&& p.thin <==> {
                &&& !p.stub
                &&& p.word_count < 300
                &&& !"_index."@.is_prefix_of(names.file_name)
                &&& !"/privacy"@.is_prefix_of(p.canonical_path)
                &&& !"/terms"@.is_prefix_of(p.canonical_path)
                &&& !"/404"@.is_prefix_of(p.canonical_path)
            }
        }),
{
    reveal_strlit("_index.md");
    reveal_strlit("_index.");
    if names.file_name == "_index.md"@ {
        assert("_index."@ =~= "_index.md"@.subrange(0, "_index."@.len() as int));
    }
}

/// A page asks not to be indexed exactly where `noindex` of `extra` is true, and is in
/// the sitemap exactly where it is no stub, does not ask that, and `sitemap` of `extra`
/// is not false. How many words it has plays no part in either.
pub proof fn law_recorded_sitemap(
    old_page: PageModel,
    names: NamesModel,
    src: SourceModel,
    default_lang: Seq<char>,
)
    ensures
        ({
            let p = filled(old_page, names, src, default_lang);
            let extra = toml_value::toml_member(src.fm, "extra"@);
            &&& p.noindex <==> toml_value::member_of(extra, "noindex"@) == Some(
                TomlModel::Boolean(true),
            )
            &&& p.sitemap <==> !p.stub && !p.noindex && toml_value::member_of(extra, "sitemap"@)
                != Some(TomlModel::Boolean(false))
        }),
{
}

/// Two pages that agree in their front matter, their names and in whether their bodies
/// are blank agree in whether they are stubs, are indexed and are in the sitemap, whatever
/// else their bodies hold.
pub proof fn law_sitemap_is_not_about_length(
    old_page: PageModel,
    names: NamesModel,
    a: SourceModel,
    b: SourceModel,
    default_lang: Seq<char>,
)
    requires
        a.fm == b.fm,
        text::blank(a.body) <==> text::blank(b.body),
    ensures
        ({
            let p = filled(old_page, names, a, default_lang);
            let q = filled(old_page, names, b, default_lang);
            p.stub == q.stub && p.noindex == q.noindex && p.sitemap == q.sitemap && p.title
                == q.title
        }),
{
    law_recorded_stub(old_page, names, a, default_lang);
    law_recorded_stub(old_page, names, b, default_lang);
}

/// The names of a page are recorded as they are: its identifier, as its path too, its
/// path on the site and its language; and the page that it translates, where it is not
/// in the default language.
pub proof fn law_recorded_names(
    old_page: PageModel,
    names: NamesModel,
    src: SourceModel,
    default_lang: Seq<char>,
)
    ensures
        ({
            let p = filled(old_page, names, src, default_lang);
            &&& p.id == names.id
            &&& p.path == names.id
            &&& p.canonical_path == names.canonical_path
            &&& p.lang == names.lang
            &&& names.lang == default_lang ==> p.translation_of is None
            &&& names.lang != default_lang ==> p.translation_of == Some(names.base_id)
        }),
{
}

/// The author and the image are the strings under `author` and `og_image` of `extra`, and
/// the types those under `schema_types`; the dates stand under `date` and `updated`, and
/// not in `extra`. The hash and the summary are those of the file, and a page without a
/// body has no summary.
pub proof fn law_recorded_details(
    old_page: PageModel,
    names: NamesModel,
    src: SourceModel,
    default_lang: Seq<char>,
)
    ensures
        ({
            let p = filled(old_page, names, src, default_lang);
            let extra = toml_value::toml_member(src.fm, "extra"@);
            &&& match toml_value::member_of(extra, "author"@) {
                Some(TomlModel::Str(s)) => p.author == if text::blank(s) {
                    None
                } else {
                    Some(text::trim_of(s))
                },
                _ => p.author is None,
            }
            &&& match toml_value::member_of(extra, "og_image"@) {
                Some(TomlModel::Str(s)) => p.og_image == if text::blank(s) {
                    None
                } else {
                    Some(text::trim_of(s))
                },
                _ => p.og_image is None,
            }
            &&& p.schema_types == page::string_list_of(
                toml_value::member_of(extra, "schema_types"@),
            )
            &&& p.date_published == page::date_of(src.fm, "date"@)
            &&& p.date_modified == page::date_of(src.fm, "updated"@)
            &&& p.content_hash == src.hash
            &&& p.summary == if text::blank(src.body) {
                Seq::empty()
            } else {
                src.summary
            }
        }),
{
    page::law_inked(src.body);
    let extra = toml_value::toml_member(src.fm, "extra"@);
    if let Some(TomlModel::Str(s)) = toml_value::member_of(extra, "author"@) {
        page::law_inked(s);
    }
    if let Some(TomlModel::Str(s)) = toml_value::member_of(extra, "og_image"@) {
        page::law_inked(s);
    }
}

/// The heading that is recorded is what the two patterns find in the body.
pub proof fn law_recorded_heading(
    old_page: PageModel,
    names: NamesModel,
    src: SourceModel,
    default_lang: Seq<char>,
)
    ensures
        ({
            let p = filled(old_page, names, src, default_lang);
            match (
                heading::first_capture(r"(?m)^#\s+(.+)$"@, src.body),
                heading::first_capture(r"(?is)<h1\b[^>]*>(.*?)</h1>"@, src.body),
            ) {
                (Some(s), _) => p.h1 == text::trim_of(s),
                (None, Some(s)) => p.h1 == text::trim_of(heading::untagged(s, false)),
                (None, None) => p.h1.len() == 0,
            }
        }),
{
    heading::law_heading_patterns();
}

/// What is recorded of a file is its front matter and its body as they are, and the hash
/// and the summary that are given for the body without the white space around it. So two
/// bodies that differ in that white space alone have the same hash, where a text has one.
pub proof fn law_facts_of_a_page<H: Fn(&str) -> String, S: Fn(&str) -> String>(
    fm: TomlValue,
    body: String,
    content_hash: H,
    summarize: S,
    src: PageSource,
    hash: spec_fn(Seq<char>) -> Seq<char>,
    summary: spec_fn(Seq<char>) -> Seq<char>,
)
    requires
        call_ensures(page_facts::<H, S>, (fm, body, content_hash, summarize), src),
        forall|p: &str, h: String| #[trigger] content_hash.ensures((p,), h) ==> h@ == hash(p@),
        forall|p: &str, s: String| #[trigger] summarize.ensures((p,), s) ==> s@ == summary(p@),
    ensures
        src@.fm == fm@,
        src@.body == body@,
        src@.hash == hash(text::trim_of(body@)),
        src@.summary == summary(text::trim_of(body@)),
{
}

/// The page that a file `<dir><stem>.<lang>.md` translates has the identifier of the path
/// `<dir><stem>.md`.
pub proof fn law_identifier_of_the_default_page<F: Fn(&str) -> String>(
    rel: &str,
    file_name: &str,
    lang: &str,
    page_id_from_rel: F,
    id: String,
    identifier: spec_fn(Seq<char>) -> Seq<char>,
    dir: Seq<char>,
    stem: Seq<char>,
)
    requires
        call_ensures(default_lang_page_id::<F>, (rel, file_name, lang, page_id_from_rel), id),
        forall|p: &str, i: String| #[trigger]
            page_id_from_rel.ensures((p,), i) ==> i@ == identifier(p@),
        locale::is_dir(dir),
        !stem.contains('/'),
        !lang@.contains('/'),
        file_name@ == stem + "."@ + lang@ + ".md"@,
        rel@ == dir + file_name@,
    ensures
        id@ == identifier(dir + stem + ".md"@),
{
    locale::law_page_of_a_translation(dir, stem, Seq::empty(), lang@);
}

} // verus!
