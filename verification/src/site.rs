//! Site identity for the graph, read from `[extra.graph]` of the configuration of
//! the site, with its title and description to fall back on.
use vstd::prelude::*;

use crate::failure::{CommandError, Failure};
use crate::page;
use crate::schema::{GraphStore, Organization, OrganizationModel};
use crate::schema;
use crate::text;
use crate::toml_value;
use crate::toml_value::{TomlModel, TomlValue};

verus! {

/// The identity of a site.
#[derive(Clone, Debug, PartialEq, Eq)]
pub struct GraphSiteConfig {
    pub title: String,
    pub description: String,
    pub org_id: String,
    pub org_name: String,
    pub org_logo: String,
    pub pillars: Vec<String>,
    pub no_related: Vec<(String, String)>,
    pub required_redirects: Vec<(String, String)>,
    pub overview_instruction: Option<String>,
}

/// What the identity of a site says.
pub struct SiteModel {
    pub title: Seq<char>,
    pub description: Seq<char>,
    pub org_id: Seq<char>,
    pub org_name: Seq<char>,
    pub org_logo: Seq<char>,
    pub pillars: Seq<Seq<char>>,
    pub no_related: Seq<(Seq<char>, Seq<char>)>,
    pub required_redirects: Seq<(Seq<char>, Seq<char>)>,
    pub overview_instruction: Option<Seq<char>>,
}

/// What each of some pairs says.
pub open spec fn pair_views(v: Seq<(String, String)>) -> Seq<(Seq<char>, Seq<char>)> {
    v.map_values(|p: (String, String)| (p.0@, p.1@))
}

impl View for GraphSiteConfig {
    type V = SiteModel;

    open spec fn view(&self) -> SiteModel {
        SiteModel {
            title: self.title@,
            description: self.description@,
            org_id: self.org_id@,
            org_name: self.org_name@,
            org_logo: self.org_logo@,
            pillars: text::views(self.pillars@),
            no_related: pair_views(self.no_related@),
            required_redirects: pair_views(self.required_redirects@),
            overview_instruction: text::opt_view(self.overview_instruction),
        }
    }
}

/// A site without an identity.
pub open spec fn blank_site() -> SiteModel {
    SiteModel {
        title: Seq::empty(),
        description: Seq::empty(),
        org_id: Seq::empty(),
        org_name: Seq::empty(),
        org_logo: Seq::empty(),
        pillars: Seq::empty(),
        no_related: Seq::empty(),
        required_redirects: Seq::empty(),
        overview_instruction: None,
    }
}

impl Default for GraphSiteConfig {
    fn default() -> (s: Self)
        ensures
            s@ == blank_site(),
    {
        let s: GraphSiteConfig = GraphSiteConfig {
            title: String::new(),
            description: String::new(),
            org_id: String::new(),
            org_name: String::new(),
            org_logo: String::new(),
            pillars: Vec::new(),
            no_related: Vec::new(),
            required_redirects: Vec::new(),
            overview_instruction: None,
        };
        assert(s@.pillars =~= blank_site().pillars);
        assert(s@.no_related =~= blank_site().no_related);
        assert(s@.required_redirects =~= blank_site().required_redirects);
        s
    }
}

// ---- slugs ----

/// Whether `c` is a letter or a digit of ASCII.
pub open spec fn ascii_alphanumeric(c: char) -> bool {
    'a' <= c <= 'z' || 'A' <= c <= 'Z' || '0' <= c <= '9'
}

/// `c`, in lower case where it is a letter of ASCII.
pub open spec fn ascii_lower(c: char) -> char {
    if 'A' <= c <= 'Z' {
        (c as u32 + 32) as char
    } else {
        c
    }
}

/// The letters and digits of a text in lower case, with one dash for what stands
/// between two, and for what follows the last.
pub open spec fn dashed(s: Seq<char>) -> Seq<char>
    decreases s.len(),
{
    if s.len() == 0 {
        Seq::empty()
    } else {
        let done = dashed(s.drop_last());
        if ascii_alphanumeric(s.last()) {
            done.push(ascii_lower(s.last()))
        } else if done.len() > 0 && done.last() != '-' {
            done.push('-')
        } else {
            done
        }
    }
}

/// The slug of a text: its letters and digits in lower case, with one dash for
/// what stands between two.
pub open spec fn slug_of(s: Seq<char>) -> Seq<char> {
    let d = dashed(s);
    if d.len() > 0 && d.last() == '-' {
        d.drop_last()
    } else {
        d
    }
}

fn to_lower(c: char) -> (d: char)
    ensures
        d == ascii_lower(c),
{
    if 'A' <= c && c <= 'Z' {
        ((c as u8) + 32) as char
    } else {
        c
    }
}

/// The slug of a text.
pub fn slug(s: &str) -> (out: String)
    ensures
        out@ == slug_of(s@),
{
    let v: Vec<char> = text::chars_of(s);
    let mut out: Vec<char> = Vec::new();
    for i in 0..v.len()
        invariant
            v@ == s@,
            out@ == dashed(s@.take(i as int)),
    {
        proof {
            assert(s@.take(i + 1).drop_last() =~= s@.take(i as int));
            assert(s@.take(i + 1).last() == v@[i as int]);
        }
        let c: char = v[i];
        if ('a' <= c && c <= 'z') || ('A' <= c && c <= 'Z') || ('0' <= c && c <= '9') {
            out.push(to_lower(c));
        } else if out.len() > 0 && out[out.len() - 1] != '-' {
            out.push('-');
        }
    }
    assert(s@.take(s@.len() as int) =~= s@);
    let end: usize = if out.len() > 0 && out[out.len() - 1] == '-' {
        out.len() - 1
    } else {
        out.len()
    };
    assert(out@.subrange(0, end as int) =~= slug_of(s@));
    text::string_of(&out, 0, end)
}

/// Whether `c` may stand in a slug.
pub open spec fn slug_char(c: char) -> bool {
    'a' <= c <= 'z' || '0' <= c <= '9' || c == '-'
}

proof fn lemma_lower_char(c: char)
    requires
        ascii_alphanumeric(c),
    ensures
        slug_char(ascii_lower(c)),
        ascii_lower(c) != '-',
{
}

proof fn lemma_dashed(s: Seq<char>)
    ensures
        forall|i: int| 0 <= i < dashed(s).len() ==> slug_char(#[trigger] dashed(s)[i]),
        dashed(s).len() > 0 ==> dashed(s).first() != '-',
        forall|i: int, j: int|
            0 <= i && j == i + 1 && j < dashed(s).len() && #[trigger] dashed(s)[i] == '-'
                ==> #[trigger] dashed(s)[j] != '-',
    decreases s.len(),
{
    if s.len() > 0 {
        lemma_dashed(s.drop_last());
        if ascii_alphanumeric(s.last()) {
            lemma_lower_char(s.last());
        }
    }
}

/// A slug has lower-case letters, digits and dashes only; it neither begins nor
/// ends with a dash and has no two in a row.
pub proof fn law_slug_is_tidy(s: Seq<char>)
    ensures
        forall|i: int| 0 <= i < slug_of(s).len() ==> slug_char(#[trigger] slug_of(s)[i]),
        slug_of(s).len() > 0 ==> slug_of(s).first() != '-' && slug_of(s).last() != '-',
        forall|i: int, j: int|
            0 <= i && j == i + 1 && j < slug_of(s).len() && #[trigger] slug_of(s)[i] == '-'
                ==> #[trigger] slug_of(s)[j] != '-',
{
    lemma_dashed(s);
    let d = dashed(s);
    let t = slug_of(s);
    assert(forall|i: int| 0 <= i < t.len() ==> #[trigger] t[i] == d[i]);
    if t.len() > 0 && d.last() == '-' {
        assert(d[d.len() - 2] == t.last());
        assert(d[d.len() - 1] == '-');
    }
}

// ---- reading the configuration ----

/// The trimmed string under `key`, where it holds any ink.
pub open spec fn field_of(g: Option<TomlModel>, key: Seq<char>) -> Option<Seq<char>> {
    page::inked_string(toml_value::member_of(g, key))
}

/// The trimmed strings in the list under `key` that hold any ink.
pub open spec fn list_of(g: Option<TomlModel>, key: Seq<char>) -> Seq<Seq<char>> {
    match toml_value::member_of(g, key) {
        Some(TomlModel::Array(a)) => page::inked_strings(a),
        _ => Seq::empty(),
    }
}

/// Two trimmed strings, where an item is a list of two strings.
pub open spec fn pair_of(v: TomlModel) -> Option<(Seq<char>, Seq<char>)> {
    match v {
        TomlModel::Array(p) => if p.len() == 2 && p[0] is Str && p[1] is Str {
            Some((text::trim_of(p[0]->Str_0), text::trim_of(p[1]->Str_0)))
        } else {
            None
        },
        _ => None,
    }
}

/// The pairs among the items of a list, in order.
pub open spec fn pairs_in(a: Seq<TomlModel>) -> Seq<(Seq<char>, Seq<char>)>
    decreases a.len(),
{
    if a.len() == 0 {
        Seq::empty()
    } else {
        match pair_of(a.last()) {
            Some(p) => pairs_in(a.drop_last()).push(p),
            None => pairs_in(a.drop_last()),
        }
    }
}

/// The pairs in the list under `key`.
pub open spec fn pair_list_of(g: Option<TomlModel>, key: Seq<char>) -> Seq<(Seq<char>, Seq<char>)> {
    match toml_value::member_of(g, key) {
        Some(TomlModel::Array(a)) => pairs_in(a),
        _ => Seq::empty(),
    }
}

/// The identifier that an organization gets from its name.
pub open spec fn org_id_of(name: Seq<char>) -> Seq<char> {
    "org:"@ + slug_of(name)
}

/// The identity of a site in its configuration.
pub open spec fn site_of(cfg: TomlModel) -> SiteModel {
    let g = page::extra_of(cfg, "graph"@);
    let title = text::trim_of(page::str_of(cfg, "title"@));
    let org_name = match field_of(g, "org_name"@) {
        Some(s) => s,
        None => title,
    };
    SiteModel {
        title,
        description: text::trim_of(page::str_of(cfg, "description"@)),
        org_id: match field_of(g, "org_id"@) {
            Some(s) => s,
            None => if org_name.len() == 0 {
                Seq::empty()
            } else {
                org_id_of(org_name)
            },
        },
        org_name,
        org_logo: match field_of(g, "org_logo"@) {
            Some(s) => s,
            None => Seq::empty(),
        },
        pillars: list_of(g, "pillars"@),
        no_related: pair_list_of(g, "no_related"@),
        required_redirects: pair_list_of(g, "required_redirects"@),
        overview_instruction: field_of(g, "overview_instruction"@),
    }
}

/// What an optional value says.
pub open spec fn opt_model(g: Option<&TomlValue>) -> Option<TomlModel> {
    match g {
        Some(v) => Some(v@),
        None => None,
    }
}

fn member<'a>(g: Option<&'a TomlValue>, key: &str) -> (r: Option<&'a TomlValue>)
    ensures
        opt_model(r) == toml_value::member_of(opt_model(g), key@),
{
    match g {
        Some(v) => v.get(key),
        None => None,
    }
}

fn str_field(g: Option<&TomlValue>, key: &str) -> (r: Option<String>)
    ensures
        text::opt_view(r) == field_of(opt_model(g), key@),
{
    match member(g, key) {
        Some(TomlValue::Str(s)) => page::trimmed(s.as_str()),
        _ => None,
    }
}

fn str_list(g: Option<&TomlValue>, key: &str) -> (r: Vec<String>)
    ensures
        text::views(r@) == list_of(opt_model(g), key@),
{
    match member(g, key) {
        Some(v) => page::trimmed_strings(v),
        None => {
            let none: Vec<String> = Vec::new();
            assert(text::views(none@) =~= Seq::<Seq<char>>::empty());
            none
        },
    }
}

fn pair(v: &TomlValue) -> (r: Option<(String, String)>)
    ensures
        match r {
            Some(p) => pair_of(v@) == Some((p.0@, p.1@)),
            None => pair_of(v@) is None,
        },
{
    match v {
        TomlValue::Array(p) => {
            proof {
                toml_value::lemma_toml_items(*v);
            }
            if p.len() != 2 {
                return None;
            }
            assert(v@->Array_0[0] == p@[0]@);
            assert(v@->Array_0[1] == p@[1]@);
            match (&p[0], &p[1]) {
                (TomlValue::Str(a), TomlValue::Str(b)) => Some(
                    (text::trim(a.as_str()), text::trim(b.as_str())),
                ),
                _ => None,
            }
        },
        _ => None,
    }
}

fn pair_list(g: Option<&TomlValue>, key: &str) -> (out: Vec<(String, String)>)
    ensures
        pair_views(out@) == pair_list_of(opt_model(g), key@),
{
    let mut out: Vec<(String, String)> = Vec::new();
    assert(pair_views(out@) =~= Seq::<(Seq<char>, Seq<char>)>::empty());
    match member(g, key) {
        Some(v) => match v {
            TomlValue::Array(a) => {
                let ghost all = v@->Array_0;
                proof {
                    toml_value::lemma_toml_items(*v);
                    assert(all.take(0) =~= Seq::<TomlModel>::empty());
                }
                for i in 0..a.len()
                    invariant
                        all.len() == a@.len(),
                        forall|j: int| 0 <= j < a@.len() ==> #[trigger] all[j] == a@[j]@,
                        pair_views(out@) == pairs_in(all.take(i as int)),
                {
                    proof {
                        assert(all.take(i + 1).drop_last() =~= all.take(i as int));
                        assert(all.take(i + 1).last() == a@[i as int]@);
                    }
                    let ghost was = out@;
                    match pair(&a[i]) {
                        Some(p) => {
                            out.push(p);
                            assert(pair_views(out@) =~= pair_views(was).push((p.0@, p.1@)));
                        },
                        None => {},
                    }
                }
                assert(all.take(all.len() as int) =~= all);
            },
            _ => {},
        },
        None => {},
    }
    out
}

fn org_id_for(name: &str) -> (s: String)
    ensures
        s@ == org_id_of(name@),
{
    let mut s: String = String::new();
    s.append("org:");
    s.append(slug(name).as_str());
    assert(s@ =~= org_id_of(name@));
    s
}

/// The organization behind a site, where it has a name.
pub open spec fn organization_of(site: SiteModel) -> Option<OrganizationModel> {
    if site.org_name.len() == 0 {
        None
    } else {
        Some(
            OrganizationModel {
                id: if site.org_id.len() == 0 {
                    org_id_of(site.org_name)
                } else {
                    site.org_id
                },
                name: site.org_name,
                url: Seq::empty(),
                logo: site.org_logo,
                same_as: Seq::empty(),
            },
        )
    }
}

impl GraphSiteConfig {
    /// Reads the identity of a site in the text of its configuration.
    pub fn load(config: &str) -> (r: Result<Self, CommandError>)
        ensures
            match r {
                Ok(s) => toml_value::toml_parse(config@) matches Ok(cfg) && s@ == site_of(cfg),
                Err(e) => toml_value::toml_parse(config@) matches Err(detail) && e@
                    == Failure::ConfigParse(detail),
            },
    {
        match toml_value::parse_toml(config) {
            Ok(cfg) => Ok(Self::from_toml(&cfg)),
            Err(e) => Err(Failure::ConfigParse(e)),
        }
    }

    /// The identity of a site in the text of its configuration; none where there
    /// is no such text, or it cannot be read.
    pub fn load_optional(config: Option<&str>) -> (s: Self)
        ensures
            s@ == match config {
                Some(text) => match toml_value::toml_parse(text@) {
                    Ok(cfg) => site_of(cfg),
                    Err(_) => blank_site(),
                },
                None => blank_site(),
            },
    {
        match config {
            Some(text) => match Self::load(text) {
                Ok(s) => s,
                Err(_) => Self::default(),
            },
            None => Self::default(),
        }
    }

    /// The identity of a site in its configuration.
    pub fn from_toml(cfg: &TomlValue) -> (s: Self)
        ensures
            s@ == site_of(cfg@),
    {
        let title: String = text::trim(page::get_str(cfg, "title").as_str());
        let description: String = text::trim(page::get_str(cfg, "description").as_str());
        let g: Option<&TomlValue> = page::extra(cfg, "graph");
        assert(opt_model(g) == page::extra_of(cfg@, "graph"@));
        let org_name: String = match str_field(g, "org_name") {
            Some(s) => s,
            None => title.clone(),
        };
        let org_id: String = match str_field(g, "org_id") {
            Some(s) => s,
            None => if org_name.as_str().is_empty() {
                String::new()
            } else {
                org_id_for(org_name.as_str())
            },
        };
        let org_logo: String = match str_field(g, "org_logo") {
            Some(s) => s,
            None => String::new(),
        };
        let s: GraphSiteConfig = GraphSiteConfig {
            org_logo,
            org_id,
            org_name,
            pillars: str_list(g, "pillars"),
            no_related: pair_list(g, "no_related"),
            required_redirects: pair_list(g, "required_redirects"),
            overview_instruction: str_field(g, "overview_instruction"),
            title,
            description,
        };
        assert(s@.org_id =~= site_of(cfg@).org_id);
        assert(s@.org_logo =~= site_of(cfg@).org_logo);
        s
    }

    /// The organization behind the site, where it has a name.
    pub fn organization(&self) -> (r: Option<Organization>)
        ensures
            match r {
                Some(o) => organization_of(self@) == Some(o@),
                None => organization_of(self@) is None,
            },
    {
        if self.org_name.as_str().is_empty() {
            return None;
        }
        let id: String = if self.org_id.as_str().is_empty() {
            org_id_for(self.org_name.as_str())
        } else {
            self.org_id.clone()
        };
        let o: Organization = Organization {
            id,
            name: self.org_name.clone(),
            url: String::new(),
            logo: self.org_logo.clone(),
            same_as: Vec::new(),
        };
        assert(o@.same_as =~= Seq::<Seq<char>>::empty());
        assert(o@.url =~= Seq::<char>::empty());
        Some(o)
    }

    /// Whether a page is one of the pillars of the site.
    pub fn is_pillar(&self, id: &str) -> (b: bool)
        ensures
            b == self@.pillars.contains(id@),
    {
        text::among(&self.pillars, id)
    }
}

/// A site that was read has an organization exactly where it has a name, under the
/// identifier that it was read with.
pub proof fn law_organization_of_a_site(cfg: TomlModel)
    ensures
        match organization_of(site_of(cfg)) {
            Some(o) => o.id == site_of(cfg).org_id && o.name == site_of(cfg).org_name && o.id.len()
                > 0 && o.name.len() > 0,
            None => site_of(cfg).org_name.len() == 0,
        },
{
    reveal_strlit("org:");
    let g = page::extra_of(cfg, "graph"@);
    assert(site_of(cfg).org_name.len() > 0 ==> site_of(cfg).org_id.len() > 0) by {
        if field_of(g, "org_id"@) is None {
            assert(org_id_of(site_of(cfg).org_name).len() >= 4);
        }
    }
}

/// The organizations of a graph: those that it has, or else that of the site.
pub open spec fn seeded(organizations: Seq<OrganizationModel>, site: SiteModel) -> Seq<
    OrganizationModel,
> {
    match organization_of(site) {
        Some(o) => if organizations.len() == 0 {
            seq![o]
        } else {
            organizations
        },
        None => organizations,
    }
}

/// Enters the organization behind the site into a graph that has none.
pub fn seed_organization(store: &mut GraphStore, site: &GraphSiteConfig)
    ensures
        final(store)@ == (schema::StoreModel {
            organizations: seeded(old(store)@.organizations, site@),
            ..old(store)@
        }),
{
    if store.organizations.len() > 0 {
        return ;
    }
    match site.organization() {
        Some(org) => {
            store.organizations.push(org);
        },
        None => {},
    }
    assert(store@.organizations =~= seeded(old(store)@.organizations, site@));
}

/// Seeding a graph twice is seeding it once.
pub proof fn law_seeding_is_idempotent(organizations: Seq<OrganizationModel>, site: SiteModel)
    ensures
        seeded(seeded(organizations, site), site) == seeded(organizations, site),
{
}

// ---- what holds of the identity of a site ----

/// Whether a character is a letter or a digit of ASCII, by its number.
pub open spec fn letter_or_digit(c: char) -> bool {
    ||| 48 <= c as u32 <= 57
    ||| 65 <= c as u32 <= 90
    ||| 97 <= c as u32 <= 122
}

/// Whether a text has no letter and no digit of ASCII.
pub open spec fn only_signs(s: Seq<char>) -> bool {
    forall|i: int| 0 <= i < s.len() ==> !letter_or_digit(#[trigger] s[i])
}

/// The letters and digits of ASCII are those between `0` and `9`, `A` and `Z`, and `a` and
/// `z`.
pub proof fn law_letters_and_digits(c: char)
    ensures
        ascii_alphanumeric(c) <==> letter_or_digit(c),
{
}

proof fn lemma_dashed_concat(x: Seq<char>, b: Seq<char>)
    requires
        b.len() > 0,
        letter_or_digit(b[0]),
    ensures
        dashed(x + b) == dashed(x) + dashed(b),
        dashed(b).len() > 0,
    decreases b.len(),
{
    let rest = b.drop_last();
    assert((x + b).drop_last() =~= x + rest);
    assert((x + b).last() == b.last());
    if b.len() == 1 {
        assert(rest =~= Seq::<char>::empty());
        assert(x + rest =~= x);
        assert(b.last() == b[0]);
        assert(dashed(rest).len() == 0);
        assert(dashed(b) =~= seq![ascii_lower(b[0])]);
        assert(dashed(x + b) =~= dashed(x) + dashed(b));
    } else {
        assert(rest[0] == b[0]);
        lemma_dashed_concat(x, rest);
        let d = dashed(rest);
        assert((dashed(x) + d).last() == d.last());
        assert(dashed(x + b) =~= dashed(x) + dashed(b));
    }
}

proof fn lemma_dashed_signs(a: Seq<char>, gap: Seq<char>)
    requires
        only_signs(gap),
    ensures
        dashed(gap).len() == 0,
        a.len() > 0 && letter_or_digit(a[a.len() - 1]) && gap.len() > 0 ==> dashed(a + gap)
            == dashed(a).push('-'),
        a.len() > 0 && letter_or_digit(a[a.len() - 1]) ==> dashed(a).len() > 0 && dashed(a).last()
            != '-',
    decreases gap.len(),
{
    if a.len() > 0 && letter_or_digit(a[a.len() - 1]) {
        assert(a.last() == a[a.len() - 1]);
        law_letters_and_digits(a.last());
        lemma_lower_char(a.last());
        assert(dashed(a).last() == ascii_lower(a.last()));
    }
    if gap.len() > 0 {
        let rest = gap.drop_last();
        assert(forall|i: int| 0 <= i < rest.len() ==> rest[i] == gap[i]);
        lemma_dashed_signs(a, rest);
        assert(!letter_or_digit(gap[gap.len() - 1]));
        assert((a + gap).drop_last() =~= a + rest);
        assert((a + gap).last() == gap[gap.len() - 1]);
        if rest.len() == 0 {
            assert(a + rest =~= a);
        } else if a.len() > 0 && letter_or_digit(a[a.len() - 1]) {
            assert(dashed(a + rest).last() == '-');
        }
    }
}

/// A letter or a digit is its own slug, a capital letter in lower case. What stands
/// between two parts of a text, each of which begins and ends with a letter or a digit, is
/// one dash between their slugs, and nothing where nothing stands there. Other signs at the
/// ends are dropped.
pub proof fn law_slug(a: Seq<char>, gap: Seq<char>, b: Seq<char>)
    requires
        a.len() > 0 && letter_or_digit(a[a.len() - 1]),
        b.len() > 0 && letter_or_digit(b[0]),
        only_signs(gap),
    ensures
        slug_of(a + gap + b) == if gap.len() > 0 {
            slug_of(a) + seq!['-'] + slug_of(b)
        } else {
            slug_of(a) + slug_of(b)
        },
        slug_of(gap + b) == slug_of(b),
        slug_of(a + gap) == slug_of(a),
        slug_of(gap).len() == 0,
{
    lemma_dashed_signs(a, gap);
    lemma_dashed_concat(a + gap, b);
    lemma_dashed_concat(gap, b);
    let x = dashed(a);
    let y = dashed(b);
    assert(dashed(gap) + y =~= y);
    if gap.len() == 0 {
        assert(a + gap =~= a);
        assert(slug_of(a + gap + b) =~= slug_of(a) + slug_of(b));
    } else {
        assert((x.push('-') + y).last() == y.last());
        assert(x.push('-').drop_last() =~= x);
        assert(slug_of(a + gap + b) =~= slug_of(a) + seq!['-'] + slug_of(b));
    }
}

/// The slug of a letter or a digit is that character, a capital letter in lower case.
pub proof fn law_slug_of_a_character(c: char)
    requires
        letter_or_digit(c),
    ensures
        slug_of(seq![c]) == if 65 <= c as u32 <= 90 {
            seq![(c as u32 + 32) as char]
        } else {
            seq![c]
        },
{
    reveal_with_fuel(dashed, 2);
    let s = seq![c];
    assert(s.drop_last() =~= Seq::<char>::empty());
    assert(s.last() == c);
    lemma_lower_char(c);
    assert(dashed(s) =~= seq![ascii_lower(c)]);
    assert(dashed(s).last() == ascii_lower(c));
}

/// The string under a key of `[extra.graph]`, without the white space around it; none
/// where it is missing, no string or blank.
pub open spec fn graph_text(cfg: TomlModel, key: Seq<char>, t: Option<Seq<char>>) -> bool {
    match toml_value::member_of(
        toml_value::member_of(toml_value::toml_member(cfg, "extra"@), "graph"@),
        key,
    ) {
        Some(TomlModel::Str(s)) => t == if text::blank(s) {
            None
        } else {
            Some(text::trim_of(s))
        },
        _ => t is None,
    }
}

proof fn lemma_graph_text(cfg: TomlModel, key: Seq<char>)
    ensures
        graph_text(cfg, key, field_of(page::extra_of(cfg, "graph"@), key)),
{
    if let Some(TomlModel::Str(s)) = toml_value::member_of(page::extra_of(cfg, "graph"@), key) {
        page::law_inked(s);
    }
}

/// The title and the description of a site are the strings under `title` and
/// `description` of its configuration, without the white space around them.
pub proof fn law_title_of_a_site(cfg: TomlModel)
    ensures
        match toml_value::toml_member(cfg, "title"@) {
            Some(TomlModel::Str(s)) => site_of(cfg).title == text::trim_of(s),
            _ => site_of(cfg).title.len() == 0,
        },
        match toml_value::toml_member(cfg, "description"@) {
            Some(TomlModel::Str(s)) => site_of(cfg).description == text::trim_of(s),
            _ => site_of(cfg).description.len() == 0,
        },
{
    text::law_trim(Seq::empty());
}

/// The name of the organization is that under `org_name`, and the title of the site
/// without one. Its identifier is that under `org_id`; without one it is `org:` with the
/// slug of the name, and empty where there is no name. Its logo is that under `org_logo`,
/// or empty; the instruction for overviews is that under `overview_instruction`, or none.
pub proof fn law_names_of_an_organization(
    cfg: TomlModel,
    name: Option<Seq<char>>,
    id: Option<Seq<char>>,
    logo: Option<Seq<char>>,
    instruction: Option<Seq<char>>,
)
    requires
        graph_text(cfg, "org_name"@, name),
        graph_text(cfg, "org_id"@, id),
        graph_text(cfg, "org_logo"@, logo),
        graph_text(cfg, "overview_instruction"@, instruction),
    ensures
        site_of(cfg).org_name == name.unwrap_or(site_of(cfg).title),
        site_of(cfg).org_id == match id {
            Some(s) => s,
            None => if site_of(cfg).org_name.len() == 0 {
                Seq::empty()
            } else {
                seq!['o', 'r', 'g', ':'] + slug_of(site_of(cfg).org_name)
            },
        },
        site_of(cfg).org_logo == logo.unwrap_or(Seq::empty()),
        site_of(cfg).overview_instruction == instruction,
{
    lemma_graph_text(cfg, "org_name"@);
    lemma_graph_text(cfg, "org_id"@);
    lemma_graph_text(cfg, "org_logo"@);
    lemma_graph_text(cfg, "overview_instruction"@);
    reveal_strlit("org:");
    assert("org:"@ =~= seq!['o', 'r', 'g', ':']);
}

/// The pillars of a site are the strings with any ink in the list under `pillars` of
/// `[extra.graph]`; there are none where that is no list. The pairs are those in the lists
/// under `no_related` and `required_redirects`.
pub proof fn law_lists_of_a_site(cfg: TomlModel)
    ensures
        ({
            let graph = toml_value::member_of(
                toml_value::toml_member(cfg, "extra"@),
                "graph"@,
            );
            &&& match toml_value::member_of(graph, "pillars"@) {
                Some(TomlModel::Array(a)) => site_of(cfg).pillars == page::string_list_of(
                    Some(TomlModel::Array(a)),
                ),
                _ => site_of(cfg).pillars.len() == 0,
            }
            &&& match toml_value::member_of(graph, "no_related"@) {
                Some(TomlModel::Array(a)) => site_of(cfg).no_related == pairs_in(a),
                _ => site_of(cfg).no_related.len() == 0,
            }
            &&& match toml_value::member_of(graph, "required_redirects"@) {
                Some(TomlModel::Array(a)) => site_of(cfg).required_redirects == pairs_in(a),
                _ => site_of(cfg).required_redirects.len() == 0,
            }
        }),
{
}

/// A list of two strings is a pair of them, the first first, each without the white space
/// around it; nothing else is a pair. The pairs of a list stand in its order.
pub proof fn law_pairs_of_a_list(
    a: Seq<TomlModel>,
    b: Seq<TomlModel>,
    v: TomlModel,
    x: Seq<char>,
    y: Seq<char>,
)
    ensures
        pairs_in(a + b) == pairs_in(a) + pairs_in(b),
        pairs_in(seq![TomlModel::Array(seq![TomlModel::Str(x), TomlModel::Str(y)])]) == seq![
            (text::trim_of(x), text::trim_of(y)),
        ],
        pairs_in(seq![v]).len() <= 1,
        pairs_in(seq![v]).len() == 1 ==> (v matches TomlModel::Array(p) && p.len() == 2
            && p[0] is Str && p[1] is Str),
        pairs_in(Seq::empty()).len() == 0,
    decreases b.len(),
{
    reveal_with_fuel(pairs_in, 2);
    let one = seq![TomlModel::Array(seq![TomlModel::Str(x), TomlModel::Str(y)])];
    assert(one.drop_last() =~= Seq::<TomlModel>::empty());
    assert(pairs_in(one) =~= seq![(text::trim_of(x), text::trim_of(y))]);
    assert(seq![v].drop_last() =~= Seq::<TomlModel>::empty());
    if b.len() == 0 {
        assert(a + b =~= a);
        assert(pairs_in(a) + pairs_in(b) =~= pairs_in(a));
    } else {
        law_pairs_of_a_list(a, b.drop_last(), v, x, y);
        assert((a + b).drop_last() =~= a + b.drop_last());
        assert((a + b).last() == b.last());
        assert(pairs_in(a + b) =~= pairs_in(a) + pairs_in(b));
    }
}

/// A site without a name has no organization. Another has one with its name and its logo
/// and no address, under its identifier, or under that of its name where it has none.
pub proof fn law_organization_says_what_the_site_says(site: SiteModel)
    ensures
        organization_of(site) is None <==> site.org_name.len() == 0,
        organization_of(site) matches Some(o) ==> {
            &&& o.name == site.org_name
            &&& o.logo == site.org_logo
            &&& o.url.len() == 0
            &&& o.same_as.len() == 0
            &&& site.org_id.len() > 0 ==> o.id == site.org_id
            &&& site.org_id.len() == 0 ==> o.id == seq!['o', 'r', 'g', ':'] + slug_of(site.org_name)
        },
{
    reveal_strlit("org:");
    assert("org:"@ =~= seq!['o', 'r', 'g', ':']);
}

/// A graph that has organizations keeps them as they are. One that has none gets that of
/// the site, where the site has one.
pub proof fn law_seeding(organizations: Seq<OrganizationModel>, site: SiteModel)
    ensures
        organizations.len() > 0 ==> seeded(organizations, site) == organizations,
        organizations.len() == 0 && site.org_name.len() > 0 ==> seeded(organizations, site).len()
            == 1 && organization_of(site) == Some(seeded(organizations, site)[0]),
        organizations.len() == 0 && site.org_name.len() == 0 ==> seeded(organizations, site).len()
            == 0,
{
}

/// A configuration that is missing or cannot be read leaves a site without any identity,
/// and one that can be read gives the identity in it.
pub proof fn law_loaded_site(config: Option<&str>, s: GraphSiteConfig)
    requires
        call_ensures(GraphSiteConfig::load_optional, (config,), s),
    ensures
        match config {
            Some(text) => match toml_value::toml_parse(text@) {
                Ok(cfg) => s@ == site_of(cfg),
                Err(_) => s@.title.len() == 0 && s@.org_name.len() == 0 && s@.org_id.len() == 0
                    && s@.pillars.len() == 0 && s@.overview_instruction is None
                    && s@.description.len() == 0 && s@.org_logo.len() == 0 && s@.no_related.len()
                    == 0 && s@.required_redirects.len() == 0,
            },
            None => s@.title.len() == 0 && s@.org_name.len() == 0 && s@.org_id.len() == 0
                && s@.pillars.len() == 0 && s@.overview_instruction is None && s@.description.len()
                == 0 && s@.org_logo.len() == 0 && s@.no_related.len() == 0
                && s@.required_redirects.len() == 0,
        },
{
}

} // verus!
