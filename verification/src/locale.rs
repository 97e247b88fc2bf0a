//! The languages of a site, and the files that hold a page in each of them: a
//! page `<dir>/<stem>.md` has its translations beside it, in
//! `<dir>/<stem>.<lang>.md`.
use vstd::prelude::*;

use crate::failure::{CommandError, Failure};
use crate::order;
use crate::text;
use crate::toml_value;
use crate::toml_value::{TomlModel, TomlValue};

verus! {

/// Puts `s` in its place, unless it is there.
fn insert_in_order(v: &mut Vec<String>, s: String)
    requires
        order::ascending(text::views(old(v)@)),
    ensures
        order::ascending(text::views(final(v)@)),
        forall|k: Seq<char>|
            text::views(final(v)@).contains(k) <==> text::views(old(v)@).contains(k) || k == s@,
{
    let ghost l = text::views(v@);
    let mut i: usize = 0;
    while i < v.len() && order::precedes(v[i].as_str(), s.as_str())
        invariant
            l == text::views(v@),
            i <= v@.len(),
            forall|j: int| 0 <= j < i ==> order::before(#[trigger] l[j], s@),
        decreases v@.len() - i,
    {
        assert(l[i as int] == v@[i as int]@);
        i = i + 1;
    }
    if i < v.len() && text::same(v[i].as_str(), s.as_str()) {
        assert(l[i as int] == s@);
        return ;
    }
    let ghost t = s@;
    proof {
        if i < v@.len() {
            assert(l[i as int] == v@[i as int]@);
            order::lemma_before_total(l[i as int], t);
            assert forall|j: int| i <= j < l.len() implies order::before(t, #[trigger] l[j]) by {
                if i < j {
                    order::lemma_before_transitive(t, l[i as int], l[j]);
                }
            }
        }
    }
    v.insert(i, s);
    let ghost m = text::views(v@);
    proof {
        assert(m =~= l.insert(i as int, t));
        assert forall|a: int, b: int| 0 <= a < b < m.len() implies order::before(
            #[trigger] m[a],
            #[trigger] m[b],
        ) by {
            let p = if a < i {
                a
            } else {
                a - 1
            };
            let q = if b < i {
                b
            } else {
                b - 1
            };
            if a != i {
                assert(m[a] == l[p]);
            }
            if b != i {
                assert(m[b] == l[q]);
            }
        }
        assert forall|k: Seq<char>| m.contains(k) <==> l.contains(k) || k == t by {
            if m.contains(k) {
                let a = choose|a: int| 0 <= a < m.len() && m[a] == k;
                if a < i {
                    assert(l[a] == k);
                } else if a > i {
                    assert(l[a - 1] == k);
                }
            }
            if l.contains(k) {
                let a = choose|a: int| 0 <= a < l.len() && l[a] == k;
                if a < i {
                    assert(m[a] == k);
                } else {
                    assert(m[a + 1] == k);
                }
            }
            assert(m[i as int] == t);
        }
    }
}

// ---- the languages of a site ----

/// The default language of a site.
pub open spec fn default_lang_of(cfg: TomlModel) -> Seq<char> {
    match toml_value::toml_string(toml_value::toml_member(cfg, "default_language"@)) {
        Some(s) => s,
        None => "en"@,
    }
}

/// Whether a site is configured for a language other than the default one.
pub open spec fn has_lang(cfg: TomlModel, lang: Seq<char>) -> bool {
    &&& lang != default_lang_of(cfg)
    &&& toml_value::member_of(toml_value::toml_member(cfg, "languages"@), lang) is Some
}

/// Whether `langs` are the languages of a site other than the default one.
pub open spec fn are_langs(cfg: TomlModel, langs: Seq<Seq<char>>) -> bool {
    &&& order::ascending(langs)
    &&& forall|l: Seq<char>| #[trigger] langs.contains(l) <==> has_lang(cfg, l)
}

proof fn lemma_key_found(t: Seq<(Seq<char>, TomlModel)>, key: Seq<char>)
    ensures
        crate::entries::entry(t, key) is Some <==> exists|i: int|
            0 <= i < t.len() && (#[trigger] t[i]).0 == key,
    decreases t.len(),
{
    if t.len() > 0 {
        let rest = t.drop_last();
        lemma_key_found(rest, key);
        if exists|i: int| 0 <= i < t.len() && (#[trigger] t[i]).0 == key {
            let i = choose|i: int| 0 <= i < t.len() && (#[trigger] t[i]).0 == key;
            if t.last().0 != key {
                assert(rest[i].0 == key);
            }
        }
        if t.last().0 == key {
            assert(t[t.len() - 1].0 == key);
        } else if crate::entries::entry(t, key) is Some {
            let i = choose|i: int| 0 <= i < rest.len() && (#[trigger] rest[i]).0 == key;
            assert(t[i].0 == key);
        }
    }
}

/// The default language of a site, and its other languages in ascending order.
pub fn site_langs(cfg: &TomlValue) -> (r: (String, Vec<String>))
    ensures
        r.0@ == default_lang_of(cfg@),
        are_langs(cfg@, text::views(r.1@)),
{
    let default: String = match cfg.get("default_language") {
        Some(v) => match v.as_str() {
            Some(s) => s.to_string(),
            None => "en".to_string(),
        },
        None => "en".to_string(),
    };
    let mut langs: Vec<String> = Vec::new();
    assert(text::views(langs@) =~= Seq::<Seq<char>>::empty());
    match cfg.get("languages") {
        Some(v) => match v {
            TomlValue::Table(t) => {
                let ghost all = v@->Table_0;
                proof {
                    toml_value::lemma_toml_entries(*v);
                }
                for i in 0..t.len()
                    invariant
                        default@ == default_lang_of(cfg@),
                        all.len() == t@.len(),
                        forall|j: int| 0 <= j < t@.len() ==> (#[trigger] all[j]).0 == t@[j].0@,
                        order::ascending(text::views(langs@)),
                        forall|k: Seq<char>| #[trigger]
                            text::views(langs@).contains(k) <==> k != default@ && exists|j: int|
                                0 <= j < i && (#[trigger] all[j]).0 == k,
                {
                    let ghost was = text::views(langs@);
                    assert(all[i as int].0 == t@[i as int].0@);
                    if !text::same(t[i].0.as_str(), default.as_str()) {
                        insert_in_order(&mut langs, t[i].0.clone());
                    }
                    assert forall|k: Seq<char>| #[trigger]
                        text::views(langs@).contains(k) <==> k != default@ && exists|j: int|
                            0 <= j < i + 1 && (#[trigger] all[j]).0 == k by {
                        if was.contains(k) {
                            let j = choose|j: int| 0 <= j < i && (#[trigger] all[j]).0 == k;
                            assert(0 <= j < i + 1);
                        }
                        if exists|j: int| 0 <= j < i + 1 && (#[trigger] all[j]).0 == k {
                            let j = choose|j: int| 0 <= j < i + 1 && (#[trigger] all[j]).0 == k;
                            assert(j < i || k == t@[i as int].0@);
                        }
                    }
                }
                proof {
                    assert forall|k: Seq<char>| #[trigger]
                        text::views(langs@).contains(k) <==> has_lang(cfg@, k) by {
                        lemma_key_found(all, k);
                    }
                }
            },
            _ => {},
        },
        None => {},
    }
    (default, langs)
}

/// Reads the default language of a site, and its other languages, in the text of
/// its configuration.
pub fn read_langs(config: &str) -> (r: Result<(String, Vec<String>), CommandError>)
    ensures
        match r {
            Ok((default, langs)) => toml_value::toml_parse(config@) matches Ok(cfg) && default@
                == default_lang_of(cfg) && are_langs(cfg, text::views(langs@)),
            Err(e) => toml_value::toml_parse(config@) matches Err(detail) && e@
                == Failure::ConfigParse(detail),
        },
{
    match toml_value::parse_toml(config) {
        Ok(cfg) => Ok(site_langs(&cfg)),
        Err(e) => Err(Failure::ConfigParse(e)),
    }
}

// ---- files ----

/// Whether the name of a file is that of a page in the default language: not of a
/// section, and not of a translation.
pub open spec fn default_page_name(file_name: Seq<char>, langs: Seq<Seq<char>>) -> bool {
    &&& ".md"@.is_suffix_of(file_name)
    &&& !"_index"@.is_prefix_of(stem_of_page(file_name))
    &&& forall|i: int|
        0 <= i < langs.len() ==> !("."@ + #[trigger] langs[i]).is_suffix_of(
            stem_of_page(file_name),
        )
}

/// The name of a markdown file without `.md`.
pub open spec fn stem_of_page(file_name: Seq<char>) -> Seq<char> {
    file_name.take(file_name.len() - ".md"@.len())
}

fn dotted(a: &str, end: &str) -> (s: String)
    ensures
        s@ == "."@ + a@ + end@,
{
    let mut s: String = String::new();
    s.append(".");
    s.append(a);
    s.append(end);
    assert(s@ =~= "."@ + a@ + end@);
    s
}

/// Whether `file_name` is that of a page in the default language.
pub fn is_default_page(file_name: &str, langs: &Vec<String>) -> (b: bool)
    ensures
        b == default_page_name(file_name@, text::views(langs@)),
{
    match text::strip_suffix(file_name, ".md") {
        None => false,
        Some(stem) => {
            if text::starts_with(stem.as_str(), "_index") {
                return false;
            }
            for i in 0..langs.len()
                invariant
                    stem@ == stem_of_page(file_name@),
                    forall|j: int|
                        0 <= j < i ==> !("."@ + #[trigger] text::views(langs@)[j]).is_suffix_of(
                            stem@,
                        ),
            {
                let ending: String = dotted(langs[i].as_str(), "");
                proof {
                    reveal_strlit("");
                    assert(ending@ =~= "."@ + text::views(langs@)[i as int]);
                }
                if text::ends_with(stem.as_str(), ending.as_str()) {
                    return false;
                }
            }
            true
        },
    }
}

/// Where the name of a file begins in its path: after the last slash.
pub open spec fn name_start(path: Seq<char>) -> int
    decreases path.len(),
{
    if path.len() == 0 || path.last() == '/' {
        path.len() as int
    } else {
        name_start(path.drop_last())
    }
}

/// The name of a file.
pub open spec fn name_of(path: Seq<char>) -> Seq<char> {
    path.skip(name_start(path))
}

/// Where the ending of a file name begins: at its last dot, or -1 without one.
pub open spec fn last_dot(name: Seq<char>) -> int
    decreases name.len(),
{
    if name.len() == 0 {
        -1
    } else if name.last() == '.' {
        name.len() - 1
    } else {
        last_dot(name.drop_last())
    }
}

/// The name of a file without its ending; a dot at the front begins no ending.
pub open spec fn stem_of(name: Seq<char>) -> Seq<char> {
    if last_dot(name) > 0 {
        name.take(last_dot(name))
    } else {
        name
    }
}

/// Whether a path ends with the name of a file.
pub open spec fn is_file_path(path: Seq<char>) -> bool {
    &&& name_of(path).len() > 0
    &&& name_of(path) != "."@
    &&& name_of(path) != ".."@
}

/// The path of the translation beside a page.
pub open spec fn sibling_path_of(page: Seq<char>, lang: Seq<char>) -> Seq<char> {
    page.take(name_start(page)) + stem_of(name_of(page)) + "."@ + lang + ".md"@
}

proof fn lemma_name_start_at(path: Seq<char>, i: int)
    requires
        0 <= i <= path.len(),
        i == 0 || path[i - 1] == '/',
        forall|j: int| i <= j < path.len() ==> #[trigger] path[j] != '/',
    ensures
        name_start(path) == i,
    decreases path.len() - i,
{
    if i < path.len() {
        assert(path[path.len() - 1] != '/');
        assert(forall|j: int| 0 <= j < path.len() - 1 ==> path.drop_last()[j] == path[j]);
        lemma_name_start_at(path.drop_last(), i);
    }
}

proof fn lemma_name_start(path: Seq<char>)
    ensures
        0 <= name_start(path) <= path.len(),
        name_start(path) == 0 || path[name_start(path) - 1] == '/',
        forall|j: int| name_start(path) <= j < path.len() ==> #[trigger] path[j] != '/',
    decreases path.len(),
{
    if path.len() > 0 && path.last() != '/' {
        let rest = path.drop_last();
        lemma_name_start(rest);
        assert forall|j: int| name_start(path) <= j < path.len() implies #[trigger] path[j]
            != '/' by {
            if j < path.len() - 1 {
                assert(rest[j] == path[j]);
            }
        }
    }
}

proof fn lemma_last_dot_at(name: Seq<char>, i: int)
    requires
        -1 <= i < name.len(),
        i == -1 || name[i] == '.',
        forall|j: int| i < j < name.len() ==> #[trigger] name[j] != '.',
    ensures
        last_dot(name) == i,
    decreases name.len() - i,
{
    if i < name.len() - 1 {
        assert(name[name.len() - 1] != '.');
        assert(forall|j: int| 0 <= j < name.len() - 1 ==> name.drop_last()[j] == name[j]);
        lemma_last_dot_at(name.drop_last(), i);
    }
}

proof fn lemma_last_dot(name: Seq<char>)
    ensures
        -1 <= last_dot(name) < name.len(),
    decreases name.len(),
{
    if name.len() > 0 && name.last() != '.' {
        lemma_last_dot(name.drop_last());
    }
}

/// Where the name of a file begins in its path.
fn find_name(path: &Vec<char>) -> (i: usize)
    ensures
        i == name_start(path@),
        i <= path@.len(),
{
    let mut i: usize = path.len();
    while i > 0 && path[i - 1] != '/'
        invariant
            i <= path@.len(),
            forall|j: int| i <= j < path@.len() ==> #[trigger] path@[j] != '/',
        decreases i,
    {
        i = i - 1;
    }
    proof {
        lemma_name_start_at(path@, i as int);
    }
    i
}

/// Where the stem of a file name ends, which begins at `start`.
fn find_stem_end(path: &Vec<char>, start: usize) -> (end: usize)
    requires
        start <= path@.len(),
    ensures
        start <= end <= path@.len(),
        stem_of(path@.skip(start as int)) == path@.subrange(start as int, end as int),
{
    let ghost name = path@.skip(start as int);
    let mut i: usize = path.len();
    while i > start && path[i - 1] != '.'
        invariant
            start <= i <= path@.len(),
            name == path@.skip(start as int),
            forall|j: int| i - start <= j < name.len() ==> #[trigger] name[j] != '.',
        decreases i,
    {
        assert(name[i - 1 - start] == path@[i - 1]);
        i = i - 1;
    }
    proof {
        if i > start {
            assert(name[i - 1 - start] == path@[i - 1]);
        }
        lemma_last_dot_at(name, i - 1 - start);
        assert(path@.subrange(start as int, path@.len() as int) =~= name);
    }
    if i > start && i - 1 > start {
        assert(path@.subrange(start as int, i - 1) =~= name.take(i - 1 - start));
        i - 1
    } else {
        path.len()
    }
}

/// The path `<dir>/<stem>.<lang>.md` of the translation beside a page
/// `<dir>/<stem>.md`.
pub fn sibling_path(page: &str, lang: &str) -> (p: String)
    requires
        is_file_path(page@),
    ensures
        p@ == sibling_path_of(page@, lang@),
{
    let v: Vec<char> = text::chars_of(page);
    let start: usize = find_name(&v);
    let end: usize = find_stem_end(&v, start);
    let mut p: String = text::string_of(&v, 0, end);
    p.append(dotted(lang, ".md").as_str());
    assert(p@ =~= sibling_path_of(page@, lang@));
    p
}

/// The path of the page that a file in the language `lang` translates: the same
/// without the language.
pub open spec fn default_rel_of(rel: Seq<char>, file_name: Seq<char>, lang: Seq<char>) -> Seq<char> {
    let ending = "."@ + lang + ".md"@;
    rel.take(name_start(rel)) + if ending.is_suffix_of(file_name) {
        file_name.take(file_name.len() - ending.len()) + ".md"@
    } else {
        file_name
    }
}

/// The path of the page that a file in the language `lang` translates.
pub fn default_rel(rel: &str, file_name: &str, lang: &str) -> (p: String)
    ensures
        p@ == default_rel_of(rel@, file_name@, lang@),
{
    let v: Vec<char> = text::chars_of(rel);
    let start: usize = find_name(&v);
    let mut p: String = text::string_of(&v, 0, start);
    match text::strip_suffix(file_name, dotted(lang, ".md").as_str()) {
        Some(stem) => {
            p.append(stem.as_str());
            p.append(".md");
        },
        None => {
            p.append(file_name);
        },
    }
    assert(p@ =~= default_rel_of(rel@, file_name@, lang@));
    p
}

/// The name of a translation is that of its page, with the language before the
/// ending.
proof fn lemma_sibling_name(page: Seq<char>, lang: Seq<char>)
    requires
        !lang.contains('/'),
    ensures
        name_start(sibling_path_of(page, lang)) == name_start(page),
        name_of(sibling_path_of(page, lang)) == stem_of(name_of(page)) + "."@ + lang + ".md"@,
{
    reveal_strlit(".");
    reveal_strlit(".md");
    lemma_name_start(page);
    let k = name_start(page);
    let name = name_of(page);
    lemma_last_dot(name);
    let s = sibling_path_of(page, lang);
    let stem = stem_of(name);
    assert forall|j: int| k <= j < s.len() implies #[trigger] s[j] != '/' by {
        let i = j - k;
        if i < stem.len() {
            assert(s[j] == stem[i]);
            assert(stem[i] == page[j]);
        } else if stem.len() + 1 <= i < stem.len() + 1 + lang.len() {
            assert(s[j] == lang[i - stem.len() - 1]);
            assert(lang.contains(lang[i - stem.len() - 1]));
        }
    }
    if k > 0 {
        assert(s[k - 1] == page[k - 1]);
    }
    lemma_name_start_at(s, k);
    assert(s.skip(k) =~= stem + "."@ + lang + ".md"@);
}

/// The translation of a page into a language of the site is never taken for a
/// page in the default language.
pub proof fn law_sibling_is_no_default_page(page: Seq<char>, langs: Seq<Seq<char>>, i: int)
    requires
        0 <= i < langs.len(),
        !langs[i].contains('/'),
    ensures
        !default_page_name(name_of(sibling_path_of(page, langs[i])), langs),
{
    lemma_sibling_name(page, langs[i]);
    let stem = stem_of(name_of(page));
    let name = stem + "."@ + langs[i] + ".md"@;
    let ending = "."@ + langs[i];
    assert(stem_of_page(name) =~= stem + ending);
    assert(ending.is_suffix_of(stem + ending)) by {
        assert((stem + ending).subrange(
            (stem + ending).len() - ending.len(),
            (stem + ending).len() as int,
        ) =~= ending);
    }
}

/// A translation leads back to the page that it stands beside.
pub proof fn law_sibling_leads_back(page: Seq<char>, lang: Seq<char>)
    requires
        !lang.contains('/'),
        ".md"@.is_suffix_of(name_of(page)),
        name_of(page) != ".md"@,
    ensures
        default_rel_of(
            sibling_path_of(page, lang),
            name_of(sibling_path_of(page, lang)),
            lang,
        ) == page,
{
    reveal_strlit(".");
    reveal_strlit(".md");
    lemma_sibling_name(page, lang);
    lemma_name_start(page);
    let k = name_start(page);
    let name = name_of(page);
    let n = name.len() - 3;
    assert(name.skip(n) =~= ".md"@);
    assert(name[n] == ".md"@[0]);
    assert(name[n + 1] == ".md"@[1]);
    assert(name[n + 2] == ".md"@[2]);
    if n == 0 {
        assert(name =~= ".md"@);
    }
    lemma_last_dot_at(name, n);
    let stem = stem_of(name);
    let ending = "."@ + lang + ".md"@;
    let s = sibling_path_of(page, lang);
    assert(name_of(s) =~= stem + ending);
    assert((stem + ending).subrange(stem.len() as int, (stem + ending).len() as int) =~= ending);
    assert((stem + ending).take(stem.len() as int) =~= stem);
    assert(s.take(k) =~= page.take(k));
    assert(stem + ".md"@ =~= name);
    assert(page.take(k) + name =~= page);
}

/// Translations of a page into different languages stand in different files.
pub proof fn law_siblings_are_apart(page: Seq<char>, a: Seq<char>, b: Seq<char>)
    requires
        a != b,
    ensures
        sibling_path_of(page, a) != sibling_path_of(page, b),
{
    let front = page.take(name_start(page)) + stem_of(name_of(page)) + "."@;
    let x = sibling_path_of(page, a);
    let y = sibling_path_of(page, b);
    if x == y {
        assert(x.len() == front.len() + a.len() + ".md"@.len());
        assert(y.len() == front.len() + b.len() + ".md"@.len());
        assert(x.subrange(front.len() as int, (front.len() + a.len()) as int) =~= a);
        assert(y.subrange(front.len() as int, (front.len() + b.len()) as int) =~= b);
    }
}

// ---- what holds of languages and files ----

/// The default language is the string under `default_language`, and English without one.
/// The other languages are the keys of the table `languages` but for that one.
pub proof fn law_languages_of_a_site(cfg: TomlModel, lang: Seq<char>)
    ensures
        match toml_value::toml_member(cfg, "default_language"@) {
            Some(TomlModel::Str(s)) => default_lang_of(cfg) == s,
            _ => default_lang_of(cfg) == "en"@,
        },
        has_lang(cfg, lang) <==> lang != default_lang_of(cfg) && (toml_value::toml_member(
            cfg,
            "languages"@,
        ) matches Some(t) && toml_value::toml_member(t, lang) is Some),
{
}

/// The list of the other languages has each of them once, in ascending order, and
/// nothing else.
pub proof fn law_list_of_languages(cfg: TomlModel, langs: Seq<Seq<char>>)
    requires
        are_langs(cfg, langs),
    ensures
        forall|l: Seq<char>| #[trigger]
            langs.contains(l) <==> l != default_lang_of(cfg) && (toml_value::toml_member(
                cfg,
                "languages"@,
            ) matches Some(t) && toml_value::toml_member(t, l) is Some),
        forall|i: int, j: int|
            0 <= i < j < langs.len() ==> order::before(#[trigger] langs[i], #[trigger] langs[j])
                && langs[i] != langs[j],
{
    assert forall|i: int, j: int| 0 <= i < j < langs.len() implies order::before(
        #[trigger] langs[i],
        #[trigger] langs[j],
    ) && langs[i] != langs[j] by {
        order::law_ascending(langs, i, j);
    }
}

/// A markdown file holds a page in the default language exactly where its name neither
/// begins as that of a section nor ends, before `.md`, with a dot and another language. No
/// other file does.
pub proof fn law_pages_in_the_default_language(
    stem: Seq<char>,
    name: Seq<char>,
    langs: Seq<Seq<char>>,
)
    ensures
        default_page_name(stem + ".md"@, langs) <==> !"_index"@.is_prefix_of(stem) && forall|i: int|
            0 <= i < langs.len() ==> !("."@ + #[trigger] langs[i]).is_suffix_of(stem),
        default_page_name(name, langs) ==> exists|s: Seq<char>| name == #[trigger] (s + ".md"@),
{
    let s = stem + ".md"@;
    assert(s.subrange(s.len() - ".md"@.len(), s.len() as int) =~= ".md"@);
    assert(stem_of_page(s) =~= stem);
    if default_page_name(name, langs) {
        let t = stem_of_page(name);
        assert(name =~= t + ".md"@);
    }
}

/// Whether a text is a directory: nothing, or something that ends with a slash.
pub open spec fn is_dir(dir: Seq<char>) -> bool {
    dir.len() == 0 || dir[dir.len() - 1] == '/'
}

proof fn lemma_name_in_dir(dir: Seq<char>, name: Seq<char>)
    requires
        is_dir(dir),
        !name.contains('/'),
    ensures
        name_start(dir + name) == dir.len(),
        name_of(dir + name) == name,
        (dir + name).take(dir.len() as int) == dir,
{
    let s = dir + name;
    assert forall|j: int| dir.len() <= j < s.len() implies #[trigger] s[j] != '/' by {
        assert(s[j] == name[j - dir.len()]);
        assert(name.contains(name[j - dir.len()]));
    }
    lemma_name_start_at(s, dir.len() as int);
    assert(s.skip(dir.len() as int) =~= name);
    assert(s.take(dir.len() as int) =~= dir);
}

/// The translation of the page `<dir><stem>.md` stands in `<dir><stem>.<lang>.md`, and
/// that of the page `<dir><stem>`, without an ending, there too.
pub proof fn law_path_of_a_translation(dir: Seq<char>, stem: Seq<char>, lang: Seq<char>)
    requires
        is_dir(dir),
        stem.len() > 0,
        !stem.contains('/'),
    ensures
        sibling_path_of(dir + stem + seq!['.', 'm', 'd'], lang) == dir + stem + seq!['.'] + lang
            + seq!['.', 'm', 'd'],
        !stem.contains('.') ==> sibling_path_of(dir + stem, lang) == dir + stem + seq!['.'] + lang
            + seq!['.', 'm', 'd'],
{
    reveal_strlit(".");
    reveal_strlit(".md");
    let md = seq!['.', 'm', 'd'];
    assert(".md"@ =~= md);
    assert("."@ =~= seq!['.']);
    let name = stem + md;
    assert(!name.contains('/')) by {
        if name.contains('/') {
            let i = choose|i: int| 0 <= i < name.len() && name[i] == '/';
            if i < stem.len() {
                assert(stem[i] == '/');
            }
        }
    }
    lemma_name_in_dir(dir, name);
    assert(dir + stem + md =~= dir + name);
    assert(name[stem.len() as int] == '.');
    assert forall|j: int| stem.len() < j < name.len() implies #[trigger] name[j] != '.' by {
        assert(name[j] == md[j - stem.len()]);
    }
    lemma_last_dot_at(name, stem.len() as int);
    assert(name.take(stem.len() as int) =~= stem);
    if !stem.contains('.') {
        lemma_name_in_dir(dir, stem);
        lemma_last_dot_at(stem, -1);
    }
}

/// The file `<dir><stem>.<lang>.md` translates the page `<dir><stem>.md`; a file whose
/// name does not end so translates nothing but itself.
pub proof fn law_page_of_a_translation(
    dir: Seq<char>,
    stem: Seq<char>,
    name: Seq<char>,
    lang: Seq<char>,
)
    requires
        is_dir(dir),
        !stem.contains('/'),
        !name.contains('/'),
        !lang.contains('/'),
    ensures
        ({
            let file = stem + "."@ + lang + ".md"@;
            default_rel_of(dir + file, file, lang) == dir + stem + ".md"@
        }),
        !("."@ + lang + ".md"@).is_suffix_of(name) ==> default_rel_of(dir + name, name, lang) == dir
            + name,
{
    reveal_strlit(".");
    reveal_strlit(".md");
    let ending = "."@ + lang + ".md"@;
    let file = stem + "."@ + lang + ".md"@;
    assert(file =~= stem + ending);
    assert(!file.contains('/')) by {
        if file.contains('/') {
            let i = choose|i: int| 0 <= i < file.len() && file[i] == '/';
            if i < stem.len() {
                assert(stem[i] == '/');
            } else if stem.len() < i < stem.len() + 1 + lang.len() {
                assert(lang[i - stem.len() - 1] == '/');
            }
        }
    }
    lemma_name_in_dir(dir, file);
    lemma_name_in_dir(dir, name);
    assert(file.subrange(file.len() - ending.len(), file.len() as int) =~= ending);
    assert(file.take(file.len() - ending.len()) =~= stem);
    assert(dir + (stem + ".md"@) =~= dir + stem + ".md"@);
}

/// A path in a directory is that of a file unless it has no name, or one that stands for
/// a directory.
pub proof fn law_paths_of_files(dir: Seq<char>, name: Seq<char>)
    requires
        is_dir(dir),
        !name.contains('/'),
    ensures
        is_file_path(dir + name) <==> name.len() > 0 && name != "."@ && name != ".."@,
        name_of(dir + name) == name,
{
    lemma_name_in_dir(dir, name);
}

/// The ending of a name, from its last dot on, makes way for that of the translation; a dot
/// at the front of a name begins no ending.
pub proof fn law_ending_makes_way(
    dir: Seq<char>,
    stem: Seq<char>,
    ending: Seq<char>,
    lang: Seq<char>,
)
    requires
        is_dir(dir),
        !stem.contains('/'),
        !ending.contains('/'),
        !ending.contains('.'),
    ensures
        stem.len() > 0 ==> sibling_path_of(dir + stem + seq!['.'] + ending, lang) == dir + stem
            + seq!['.'] + lang + seq!['.', 'm', 'd'],
        sibling_path_of(dir + seq!['.'] + ending, lang) == dir + seq!['.'] + ending + seq!['.']
            + lang + seq!['.', 'm', 'd'],
{
    reveal_strlit(".");
    reveal_strlit(".md");
    let dot = seq!['.'];
    assert(".md"@ =~= seq!['.', 'm', 'd']);
    assert("."@ =~= dot);
    lemma_ending(dir, stem, ending);
    lemma_ending(dir, Seq::empty(), ending);
    let name = stem + dot + ending;
    assert(dir + stem + dot + ending =~= dir + name);
    if stem.len() > 0 {
        assert(name.take(stem.len() as int) =~= stem);
    }
    let hidden = Seq::<char>::empty() + dot + ending;
    assert(dir + dot + ending =~= dir + hidden);
    assert(hidden =~= dot + ending);
    assert(dir + (dot + ending) =~= dir + dot + ending);
}

proof fn lemma_ending(dir: Seq<char>, stem: Seq<char>, ending: Seq<char>)
    requires
        is_dir(dir),
        !stem.contains('/'),
        !ending.contains('/'),
        !ending.contains('.'),
    ensures
        ({
            let name = stem + seq!['.'] + ending;
            &&& name_start(dir + name) == dir.len()
            &&& name_of(dir + name) == name
            &&& (dir + name).take(dir.len() as int) == dir
            &&& last_dot(name) == stem.len()
        }),
{
    let name = stem + seq!['.'] + ending;
    let n = stem.len() as int;
    assert forall|j: int| n < j < name.len() implies #[trigger] name[j] != '.' && name[j]
        != '/' by {
        assert(name[j] == ending[j - n - 1]);
        assert(ending.contains(ending[j - n - 1]));
    }
    assert(!name.contains('/')) by {
        if name.contains('/') {
            let i = choose|i: int| 0 <= i < name.len() && name[i] == '/';
            if i < n {
                assert(stem[i] == '/');
            }
        }
    }
    lemma_name_in_dir(dir, name);
    lemma_last_dot_at(name, n);
}

} // verus!
