//! A run over the pages of a site that brings its graph up to date.
//!
//! Every file is visited: its node is filled, and where the body of a page in the
//! default language changed, its topics are detached and noted down to be found
//! anew. Then pages that are gone are pruned, and the topics are found, up to a
//! cap. A dry run changes nothing that is kept.
use vstd::prelude::*;

use crate::facts;
use crate::facts::{NamesModel, PageNames, PageSource, SourceModel};
use crate::failure::{CommandError, Failure};
use crate::graph;
use crate::locale;
use crate::page;
use crate::schema;
use crate::schema::{GraphStore, MetaModel, Page, PageModel, StoreModel};
use crate::site;
use crate::site::{GraphSiteConfig, SiteModel};
use crate::text;
use crate::toml_value::{TomlModel, TomlValue};

verus! {

/// What the topics of a page are found in.
#[derive(Clone, Debug, PartialEq, Eq)]
pub struct TopicInput {
    pub title: String,
    pub description: String,
    pub body: String,
}

/// A page whose topics are to be found, and what they are found in.
pub struct Stale {
    pub id: Seq<char>,
    pub title: Seq<char>,
    pub description: Seq<char>,
    pub body: Seq<char>,
}

/// What is to be found of each of some pages.
pub open spec fn stale_views(todo: Seq<(String, TopicInput)>) -> Seq<Stale> {
    todo.map_values(
        |t: (String, TopicInput)|
            Stale { id: t.0@, title: t.1.title@, description: t.1.description@, body: t.1.body@ },
    )
}

/// A run that refreshes the graph of a site.
#[derive(Debug, PartialEq, Eq)]
pub struct RefreshRun {
    /// The graph.
    pub store: GraphStore,
    /// The identity of the site.
    pub site: GraphSiteConfig,
    /// The default language of the site.
    pub default_lang: String,
    /// The other languages of the site.
    pub langs: Vec<String>,
    /// How many pages may get new topics.
    pub cap: usize,
    /// Whether nothing is asked for and nothing is kept.
    pub dry_run: bool,
    /// How many pages could not be read, and how many topics could not be found.
    pub failures: usize,
    /// The identifiers of the pages that were visited.
    pub seen: Vec<String>,
    /// The pages whose topics are to be found.
    pub todo: Vec<(String, TopicInput)>,
}

/// What a run says.
#[verifier::ext_equal]
pub struct RunModel {
    pub store: StoreModel,
    pub site: SiteModel,
    pub default_lang: Seq<char>,
    pub langs: Seq<Seq<char>>,
    pub cap: usize,
    pub dry_run: bool,
    pub failures: usize,
    pub seen: Seq<Seq<char>>,
    pub todo: Seq<Stale>,
}

impl View for RefreshRun {
    type V = RunModel;

    open spec fn view(&self) -> RunModel {
        RunModel {
            store: self.store@,
            site: self.site@,
            default_lang: self.default_lang@,
            langs: text::views(self.langs@),
            cap: self.cap,
            dry_run: self.dry_run,
            failures: self.failures,
            seen: text::views(self.seen@),
            todo: stale_views(self.todo@),
        }
    }
}

// ---- visiting a page ----

/// Whether a node of the graph is that of a page.
pub open spec fn node_of(p: PageModel, names: NamesModel) -> bool {
    p.id == names.id || p.path == names.rel || p.path == names.id
}

/// The place of the first node of a page, or the number of nodes.
pub open spec fn place_in(pages: Seq<PageModel>, names: NamesModel) -> int
    decreases pages.len(),
{
    if pages.len() == 0 || node_of(pages.first(), names) {
        0
    } else {
        1 + place_in(pages.drop_first(), names)
    }
}

/// The nodes, with a new one for a page that has none.
pub open spec fn with_node(pages: Seq<PageModel>, names: NamesModel) -> Seq<PageModel> {
    if place_in(pages, names) < pages.len() {
        pages
    } else {
        pages.push(PageModel { id: names.id, path: names.id, ..schema::blank_page() })
    }
}

/// Whether the graph holds another body of a page than its file does, or none.
pub open spec fn hash_stale(pages: Seq<PageModel>, names: NamesModel, src: SourceModel) -> bool {
    let i = place_in(pages, names);
    !(i < pages.len() && pages[i].content_hash == src.hash)
}

/// Whether a file holds a page in the default language.
pub open spec fn default_page(m: RunModel, names: NamesModel) -> bool {
    names.lang == m.default_lang && locale::default_page_name(names.file_name, m.langs)
}

/// Whether the topics of a page are to be found anew.
pub open spec fn needs_topics(m: RunModel, names: NamesModel, src: SourceModel) -> bool {
    &&& hash_stale(m.store.pages, names, src)
    &&& default_page(m, names)
    &&& !facts::stub_page(names, src)
    &&& text::trim_of(src.body).len() > 0
}

/// Whether an overview is missing.
pub open spec fn no_overview(p: PageModel) -> bool {
    match p.overview {
        Some(s) => s.len() == 0,
        None => true,
    }
}

/// Whether an overview of a page is to be asked for: the page is a pillar and no
/// stub, and its overview is missing or its body changed.
pub open spec fn needs_overview(m: RunModel, names: NamesModel, src: SourceModel) -> bool {
    &&& m.site.pillars.contains(names.id)
    &&& !m.dry_run
    &&& !facts::stub_page(names, src)
    &&& no_overview(with_node(m.store.pages, names)[place_in(m.store.pages, names)])
        || hash_stale(m.store.pages, names, src)
}

/// The graph with the node of a page filled from its file.
pub open spec fn with_filled(m: RunModel, names: NamesModel, src: SourceModel) -> StoreModel {
    let i = place_in(m.store.pages, names);
    let pages = with_node(m.store.pages, names);
    StoreModel {
        pages: pages.update(i, facts::filled(pages[i], names, src, m.default_lang)),
        ..m.store
    }
}

/// The graph with a page detached from its topics.
pub open spec fn without_topics(s: StoreModel, i: int, id: Seq<char>) -> StoreModel {
    let d = graph::detached(s, id);
    StoreModel {
        pages: d.pages.update(i, PageModel { topic_ids: Seq::empty(), ..d.pages[i] }),
        ..d
    }
}

/// What is noted down of a page whose topics are to be found.
pub open spec fn stale_of(names: NamesModel, src: SourceModel) -> Stale {
    Stale {
        id: names.id,
        title: page::str_of(src.fm, "title"@),
        description: page::str_of(src.fm, "description"@),
        body: text::trim_of(src.body),
    }
}

/// The texts, with one more unless it is there.
pub open spec fn with_text(list: Seq<Seq<char>>, s: Seq<char>) -> Seq<Seq<char>> {
    if list.contains(s) {
        list
    } else {
        list.push(s)
    }
}

/// The run after a file was visited.
pub open spec fn visited(m: RunModel, names: NamesModel, src: SourceModel) -> RunModel {
    let i = place_in(m.store.pages, names);
    let filled = with_filled(m, names, src);
    if needs_topics(m, names, src) {
        RunModel {
            store: without_topics(filled, i, names.id),
            seen: with_text(m.seen, names.id),
            todo: m.todo.push(stale_of(names, src)),
            ..m
        }
    } else {
        RunModel { store: filled, seen: with_text(m.seen, names.id), ..m }
    }
}

/// What is to be done for a page that was visited.
#[derive(Clone, Copy, Debug, PartialEq, Eq)]
pub struct Visit {
    /// The place of its node.
    pub index: usize,
    /// Whether an overview is to be asked for.
    pub wants_overview: bool,
}

proof fn lemma_place_at(pages: Seq<PageModel>, names: NamesModel, i: int)
    requires
        0 <= i <= pages.len(),
        forall|j: int| 0 <= j < i ==> !node_of(#[trigger] pages[j], names),
        i == pages.len() || node_of(pages[i], names),
    ensures
        place_in(pages, names) == i,
    decreases i,
{
    if i > 0 {
        assert(!node_of(pages[0], names));
        assert(forall|j: int| 0 <= j < i - 1 ==> pages.drop_first()[j] == pages[j + 1]);
        lemma_place_at(pages.drop_first(), names, i - 1);
    }
}

proof fn lemma_place(pages: Seq<PageModel>, names: NamesModel)
    ensures
        0 <= place_in(pages, names) <= pages.len(),
        place_in(pages, names) < pages.len() ==> node_of(pages[place_in(pages, names)], names),
        forall|j: int| 0 <= j < place_in(pages, names) ==> !node_of(#[trigger] pages[j], names),
    decreases pages.len(),
{
    if pages.len() > 0 && !node_of(pages.first(), names) {
        let rest = pages.drop_first();
        lemma_place(rest, names);
        assert forall|j: int| 0 <= j < place_in(pages, names) implies !node_of(
            #[trigger] pages[j],
            names,
        ) by {
            if j > 0 {
                assert(rest[j - 1] == pages[j]);
            }
        }
    }
}

fn find_page(pages: &Vec<Page>, names: &PageNames) -> (i: usize)
    ensures
        i == place_in(schema::page_models(pages@), names@),
        i <= pages@.len(),
{
    let ghost all = schema::page_models(pages@);
    let mut i: usize = 0;
    while i < pages.len()
        invariant
            all == schema::page_models(pages@),
            i <= pages@.len(),
            forall|j: int| 0 <= j < i ==> !node_of(#[trigger] all[j], names@),
        decreases pages@.len() - i,
    {
        let p: &Page = &pages[i];
        assert(all[i as int] == p@);
        if text::same(p.id.as_str(), names.id.as_str()) || text::same(
            p.path.as_str(),
            names.rel.as_str(),
        ) || text::same(p.path.as_str(), names.id.as_str()) {
            proof {
                lemma_place_at(all, names@, i as int);
            }
            return i;
        }
        i = i + 1;
    }
    proof {
        lemma_place_at(all, names@, i as int);
    }
    i
}

/// What is to be done next for the topics of the pages that were noted down.
#[derive(Clone, Copy, Debug, PartialEq, Eq)]
pub enum EnrichStep {
    /// Find the topics of the page.
    Enrich,
    /// Only report that its topics are to be found.
    Report,
    /// Stop: the cap is reached, or there are no more pages.
    Stop,
}

/// The graph after all files were visited: translations in name only are hidden,
/// pages that are gone are pruned, and the organization is seeded.
pub open spec fn walked(m: RunModel) -> StoreModel {
    let marked = StoreModel {
        pages: graph::marked(m.store.pages, m.default_lang),
        ..m.store
    };
    let pruned = graph::pruned(marked, m.seen);
    StoreModel { organizations: site::seeded(pruned.organizations, m.site), ..pruned }
}

impl RefreshRun {
    /// Starts a run on a graph that was migrated before.
    pub fn start(
        store: GraphStore,
        site: GraphSiteConfig,
        default_lang: String,
        langs: Vec<String>,
        max: Option<usize>,
        dry_run: bool,
    ) -> (r: Result<RefreshRun, CommandError>)
        ensures
            match r {
                Ok(run) => {
                    &&& store@.meta.source_origin.len() > 0
                    &&& run@ == (RunModel {
                        store: store@,
                        site: site@,
                        default_lang: default_lang@,
                        langs: text::views(langs@),
                        cap: match max {
                            Some(n) => n,
                            None => usize::MAX,
                        },
                        dry_run,
                        failures: 0,
                        seen: Seq::empty(),
                        todo: Seq::empty(),
                    })
                },
                Err(e) => {
                    &&& store@.meta.source_origin.len() == 0
                    &&& e@ == Failure::<Seq<char>>::NoPriorMigrate
                },
            },
    {
        if store.meta.source_origin.as_str().is_empty() {
            return Err(Failure::NoPriorMigrate);
        }
        let cap: usize = match max {
            Some(n) => n,
            None => usize::MAX,
        };
        let run: RefreshRun = RefreshRun {
            store,
            site,
            default_lang,
            langs,
            cap,
            dry_run,
            failures: 0,
            seen: Vec::new(),
            todo: Vec::new(),
        };
        assert(run@.seen =~= Seq::<Seq<char>>::empty());
        assert(run@.todo =~= Seq::<Stale>::empty());
        Ok(run)
    }

    /// Counts a page that could not be read, or whose topics could not be found.
    pub fn count_failure(&mut self)
        requires
            old(self)@.failures < usize::MAX,
        ensures
            final(self)@ == (RunModel {
                failures: (old(self)@.failures + 1) as usize,
                ..old(self)@
            }),
    {
        self.failures = self.failures + 1;
    }

    /// Opens the file of a page, given what was read of it. A page that cannot be read
    /// is counted, and skipped.
    pub fn open_file(&mut self, path: &str, read: Result<String, CommandError>) -> (r: Result<
        (TomlValue, String),
        CommandError,
    >)
        requires
            old(self)@.failures < usize::MAX,
        ensures
            match r {
                Ok((fm, body)) => page::file_of(path@, page::read_view(read)) == Ok::<
                    (TomlModel, Seq<char>),
                    Failure<Seq<char>>,
                >((fm@, body@)),
                Err(e) => page::file_of(path@, page::read_view(read)) == Err::<
                    (TomlModel, Seq<char>),
                    Failure<Seq<char>>,
                >(e@),
            },
            final(self)@ == (RunModel {
                failures: if r is Err {
                    (old(self)@.failures + 1) as usize
                } else {
                    old(self)@.failures
                },
                ..old(self)@
            }),
    {
        let r = page::parse_file(path, read);
        if r.is_err() {
            self.count_failure();
        }
        r
    }

    /// Visits a file: fills the node of its page, and notes the page down where
    /// its topics are to be found anew.
    pub fn visit(&mut self, names: &PageNames, src: &PageSource) -> (v: Visit)
        requires
            facts::total_words(src@.body) <= u32::MAX,
        ensures
            final(self)@ == visited(old(self)@, names@, src@),
            v.index == place_in(old(self)@.store.pages, names@),
            v.index < final(self)@.store.pages.len(),
            v.wants_overview == needs_overview(old(self)@, names@, src@),
    {
        let ghost m = self@;
        if !text::among(&self.seen, names.id.as_str()) {
            let ghost was = self.seen@;
            self.seen.push(names.id.clone());
            assert(text::views(self.seen@) =~= text::views(was).push(names@.id));
        }
        let index: usize = find_page(&self.store.pages, names);
        let hash_stale: bool = if index < self.store.pages.len() {
            !text::same(self.store.pages[index].content_hash.as_str(), src.hash.as_str())
        } else {
            true
        };
        if index == self.store.pages.len() {
            let mut blank: Page = Page::default();
            blank.id = names.id.clone();
            blank.path = names.id.clone();
            self.store.pages.push(blank);
            assert(self.store@.pages =~= with_node(m.store.pages, names@));
        }
        let ghost nodes = self.store.pages@;
        assert(schema::page_models(nodes) == with_node(m.store.pages, names@));
        {
            let node: &mut Page = &mut self.store.pages[index];
            facts::fill_page_fields(node, names, src, self.default_lang.as_str());
        }
        assert(self.store@.pages =~= with_filled(m, names@, src@).pages);
        assert(self.store@ =~= with_filled(m, names@, src@));
        let stub: bool = self.store.pages[index].stub;
        let missing: bool = match &self.store.pages[index].overview {
            Some(s) => s.as_str().is_empty(),
            None => true,
        };
        let body_trim: String = text::trim(src.body.as_str());
        let default_page: bool = text::same(names.lang.as_str(), self.default_lang.as_str())
            && locale::is_default_page(names.file_name.as_str(), &self.langs);
        if hash_stale && default_page && !stub && !body_trim.as_str().is_empty() {
            graph::detach_page_topics(&mut self.store, names.id.as_str());
            let ghost d = self.store@;
            let ghost all = self.store.pages@;
            {
                let node: &mut Page = &mut self.store.pages[index];
                node.topic_ids = Vec::new();
            }
            proof {
                assert(schema::page_models(all) == d.pages);
                assert(self.store.pages@[index as int]@.topic_ids =~= Seq::<Seq<char>>::empty());
                assert(self.store@.pages =~= without_topics(
                    with_filled(m, names@, src@),
                    index as int,
                    names@.id,
                ).pages);
                assert(self.store@ =~= without_topics(
                    with_filled(m, names@, src@),
                    index as int,
                    names@.id,
                ));
            }
            let title: String = self.store.pages[index].title.clone();
            let input: TopicInput = TopicInput {
                title,
                description: page::get_str(&src.fm, "description"),
                body: body_trim,
            };
            let ghost was = self.todo@;
            self.todo.push((names.id.clone(), input));
            assert(self@.todo =~= stale_views(was).push(stale_of(names@, src@)));
        }
        let wants_overview: bool = self.site.is_pillar(names.id.as_str()) && !self.dry_run && !stub
            && (missing || hash_stale);
        assert(self@ =~= visited(m, names@, src@));
        Visit { index, wants_overview }
    }

    /// Takes the overview of a page that was asked for; one that failed leaves the
    /// page as it is.
    pub fn take_overview(&mut self, index: usize, overview: Result<String, CommandError>)
        requires
            index < old(self)@.store.pages.len(),
        ensures
            final(self)@ == match overview {
                Ok(s) => RunModel {
                    store: StoreModel {
                        pages: old(self)@.store.pages.update(
                            index as int,
                            PageModel {
                                overview: Some(s@),
                                ..old(self)@.store.pages[index as int]
                            },
                        ),
                        ..old(self)@.store
                    },
                    ..old(self)@
                },
                Err(_) => old(self)@,
            },
    {
        match overview {
            Ok(s) => {
                let ghost text = s@;
                let ghost m = self@;
                {
                    let node: &mut Page = &mut self.store.pages[index];
                    node.overview = Some(s);
                }
                assert(self.store@.pages =~= m.store.pages.update(
                    index as int,
                    PageModel { overview: Some(text), ..m.store.pages[index as int] },
                ));
            },
            Err(_) => {},
        }
    }

    /// Ends the visits.
    pub fn end_walk(&mut self)
        ensures
            final(self)@ == (RunModel { store: walked(old(self)@), ..old(self)@ }),
    {
        graph::mark_untranslated_siblings(&mut self.store, self.default_lang.as_str());
        graph::prune_store(&mut self.store, &self.seen);
        site::seed_organization(&mut self.store, &self.site);
    }

    /// What is to be done for the page noted down at place `i`. The pages past the
    /// cap are left without topics, and with the hash of their body recorded: later
    /// runs do not resume them until their body changes again.
    pub fn enrich_step(&self, i: usize) -> (step: EnrichStep)
        ensures
            step == if i >= self@.todo.len() || i >= self@.cap {
                EnrichStep::Stop
            } else if self@.dry_run {
                EnrichStep::Report
            } else {
                EnrichStep::Enrich
            },
    {
        if i >= self.todo.len() || i >= self.cap {
            EnrichStep::Stop
        } else if self.dry_run {
            EnrichStep::Report
        } else {
            EnrichStep::Enrich
        }
    }

    /// Stamps the graph with the time of this refresh. Tells whether the graph is
    /// to be saved: a dry run neither stamps nor saves.
    pub fn stamp(&mut self, now: &str) -> (save: bool)
        ensures
            save == !old(self)@.dry_run,
            final(self)@ == if save {
                RunModel {
                    store: StoreModel {
                        meta: MetaModel { last_refresh: now@, ..old(self)@.store.meta },
                        ..old(self)@.store
                    },
                    ..old(self)@
                }
            } else {
                old(self)@
            },
    {
        if self.dry_run {
            return false;
        }
        self.store.meta.last_refresh = now.to_string();
        true
    }

    /// Ends the run: it fails where anything failed.
    pub fn finish(&self) -> (r: Result<(), CommandError>)
        ensures
            match r {
                Ok(_) => self@.failures == 0,
                Err(e) => self@.failures > 0 && e@ == Failure::<Seq<char>>::RefreshFailures(
                    self@.failures,
                ),
            },
    {
        if self.failures > 0 {
            return Err(Failure::RefreshFailures(self.failures));
        }
        Ok(())
    }
}

// ---- what holds of a run ----

/// A page that was visited has its node, with its identifier and the hash of its
/// body, and counts as seen. The nodes of other pages stay as they are.
pub proof fn law_visit_records_the_page(m: RunModel, names: NamesModel, src: SourceModel)
    ensures
        ({
            let i = place_in(m.store.pages, names);
            let after = visited(m, names, src).store.pages;
            &&& 0 <= i < after.len()
            &&& after[i].id == names.id
            &&& after[i].content_hash == src.hash
            &&& visited(m, names, src).seen.contains(names.id)
            &&& forall|j: int|
                0 <= j < m.store.pages.len() && j != i ==> #[trigger] after[j] == m.store.pages[j]
        }),
{
    lemma_place(m.store.pages, names);
    let seen = visited(m, names, src).seen;
    if !m.seen.contains(names.id) {
        assert(seen[m.seen.len() as int] == names.id);
    }
}

/// A page whose body did not change keeps its topics and is not noted down.
pub proof fn law_fresh_page_keeps_its_topics(m: RunModel, names: NamesModel, src: SourceModel)
    requires
        !hash_stale(m.store.pages, names, src),
    ensures
        ({
            let i = place_in(m.store.pages, names);
            let after = visited(m, names, src);
            &&& after.todo == m.todo
            &&& after.store.topics == m.store.topics
            &&& after.store.relations == m.store.relations
            &&& after.store.pages[i].topic_ids == m.store.pages[i].topic_ids
        }),
{
    lemma_place(m.store.pages, names);
}

/// A page in the default language whose body changed is detached from its topics
/// and noted down; so is a new one.
pub proof fn law_stale_page_is_detached(m: RunModel, names: NamesModel, src: SourceModel)
    requires
        needs_topics(m, names, src),
    ensures
        ({
            let i = place_in(m.store.pages, names);
            let after = visited(m, names, src);
            &&& after.todo == m.todo.push(stale_of(names, src))
            &&& after.store.pages[i].topic_ids.len() == 0
            &&& forall|j: int|
                0 <= j < after.store.relations.len() ==> !graph::topic_edge(
                    #[trigger] after.store.relations[j],
                    names.id,
                )
            &&& forall|j: int|
                0 <= j < after.store.topics.len() ==> !(
                #[trigger] after.store.topics[j]).page_ids.contains(names.id)
        }),
{
    lemma_place(m.store.pages, names);
    graph::law_detached_page_has_no_topics(with_filled(m, names, src), names.id);
}

/// Visiting a file twice is visiting it once: a page is noted down at most once
/// for each body.
pub proof fn law_visit_is_idempotent(m: RunModel, names: NamesModel, src: SourceModel)
    ensures
        visited(visited(m, names, src), names, src) == visited(m, names, src),
{
    let once = visited(m, names, src);
    let twice = visited(once, names, src);
    let i = place_in(m.store.pages, names);
    lemma_place(m.store.pages, names);
    law_visit_records_the_page(m, names, src);
    assert forall|j: int| 0 <= j < i implies !node_of(#[trigger] once.store.pages[j], names) by {
        assert(once.store.pages[j] == m.store.pages[j]);
    }
    lemma_place_at(once.store.pages, names, i);
    assert(twice.store.pages =~= once.store.pages);
    assert(twice =~= once);
}

/// Whether each page has one node, whose path is its identifier.
pub open spec fn one_node_each(pages: Seq<PageModel>) -> bool {
    &&& forall|i: int| 0 <= i < pages.len() ==> (#[trigger] pages[i]).path == pages[i].id
    &&& forall|i: int, j: int|
        0 <= i < j < pages.len() ==> (#[trigger] pages[i]).id != (#[trigger] pages[j]).id
}

/// A visit gives no page a second node, where a page is called by its path.
pub proof fn law_visit_keeps_one_node(m: RunModel, names: NamesModel, src: SourceModel)
    requires
        one_node_each(m.store.pages),
        names.rel == names.id,
    ensures
        one_node_each(visited(m, names, src).store.pages),
{
    let pages = m.store.pages;
    let i = place_in(pages, names);
    let after = visited(m, names, src).store.pages;
    lemma_place(pages, names);
    law_visit_records_the_page(m, names, src);
    assert forall|j: int| 0 <= j < pages.len() && j != i implies (#[trigger] pages[j]).id
        != names.id by {
        if i < j {
            assert(pages[i].id == names.id);
        } else {
            assert(!node_of(pages[j], names));
        }
    }
    assert forall|a: int, b: int| 0 <= a < b < after.len() implies (#[trigger] after[a]).id != (
    #[trigger] after[b]).id by {
        if a != i {
            assert(after[a] == pages[a]);
        }
        if b != i {
            assert(after[b] == pages[b]);
        }
    }
    assert forall|a: int| 0 <= a < after.len() implies (#[trigger] after[a]).path
        == after[a].id by {
        if a != i {
            assert(after[a] == pages[a]);
        }
    }
}

proof fn lemma_filter_keeps_one_node(pages: Seq<PageModel>, keep: spec_fn(PageModel) -> bool)
    requires
        one_node_each(pages),
    ensures
        one_node_each(pages.filter(keep)),
    decreases pages.len(),
{
    reveal(Seq::filter);
    if pages.len() > 0 {
        let rest = pages.drop_last();
        let last = pages.last();
        assert(one_node_each(rest)) by {
            assert(forall|i: int| 0 <= i < rest.len() ==> rest[i] == pages[i]);
        }
        lemma_filter_keeps_one_node(rest, keep);
        graph::lemma_filter_members(rest, keep);
        let g = rest.filter(keep);
        assert forall|i: int| 0 <= i < g.len() implies (#[trigger] g[i]).id != last.id by {
            assert(g.contains(g[i]));
            let j = choose|j: int| 0 <= j < rest.len() && rest[j] == g[i];
            assert(pages[j] == g[i]);
            assert(pages[pages.len() - 1] == last);
        }
        assert(pages[pages.len() - 1].path == last.id);
    }
}

/// Ending the visits gives no page a second node.
pub proof fn law_walk_keeps_one_node(m: RunModel)
    requires
        one_node_each(m.store.pages),
    ensures
        one_node_each(walked(m).pages),
{
    let marked = graph::marked(m.store.pages, m.default_lang);
    assert(forall|i: int|
        0 <= i < marked.len() ==> (#[trigger] marked[i]).id == m.store.pages[i].id
            && marked[i].path == m.store.pages[i].path);
    lemma_filter_keeps_one_node(marked, graph::page_listed(m.seen));
}

/// A page that was visited in one run is fresh in the next for as long as its body
/// stays, whether or not its topics were found: it is not noted down again, also where
/// the cap was reached before it. `next` is a run on the graph after the visits, in
/// which nodes keep their identifier, their path and their hash.
pub proof fn law_visited_page_is_fresh_in_the_next_run(
    m: RunModel,
    next: RunModel,
    names: NamesModel,
    src: SourceModel,
    i: int,
)
    requires
        one_node_each(m.store.pages),
        names.rel == names.id,
        0 <= i < m.store.pages.len(),
        m.store.pages[i].id == names.id,
        m.store.pages[i].content_hash == src.hash,
        m.seen.contains(names.id),
        next.store.pages.len() == walked(m).pages.len(),
        forall|j: int|
            0 <= j < walked(m).pages.len() ==> (#[trigger] next.store.pages[j]).id == walked(
                m,
            ).pages[j].id && next.store.pages[j].path == walked(m).pages[j].path
                && next.store.pages[j].content_hash == walked(m).pages[j].content_hash,
    ensures
        !hash_stale(next.store.pages, names, src),
        visited(next, names, src).todo == next.todo,
{
    law_walk_keeps_one_node(m);
    let marked = graph::marked(m.store.pages, m.default_lang);
    let keep = graph::page_listed(m.seen);
    graph::lemma_filter_members(marked, keep);
    let p = marked[i];
    assert(marked.contains(p) && keep(p));
    let pages = walked(m).pages;
    assert(pages.contains(p));
    let k = choose|k: int| 0 <= k < pages.len() && pages[k] == p;
    assert(next.store.pages[k].id == names.id);
    assert forall|j: int| 0 <= j < k implies !node_of(#[trigger] next.store.pages[j], names) by {
        assert(pages[j].id != pages[k].id);
        assert(pages[j].path == pages[j].id);
    }
    lemma_place_at(next.store.pages, names, k);
}

/// After the visits, every page of the graph was seen, and no topic names a page
/// that was not.
pub proof fn law_walk_drops_what_was_not_seen(m: RunModel)
    ensures
        forall|i: int|
            0 <= i < walked(m).pages.len() ==> m.seen.contains(
                (#[trigger] walked(m).pages[i]).id,
            ),
        forall|i: int, id: Seq<char>|
            0 <= i < walked(m).topics.len() && #[trigger] walked(m).topics[i].page_ids.contains(id)
                ==> m.seen.contains(id),
        walked(m).meta == m.store.meta,
        walked(m).claims == m.store.claims,
{
    let marked = StoreModel { pages: graph::marked(m.store.pages, m.default_lang), ..m.store };
    graph::law_pruned_pages_were_seen(marked, m.seen);
    assert forall|i: int| 0 <= i < walked(m).pages.len() implies m.seen.contains(
        (#[trigger] walked(m).pages[i]).id,
    ) by {
        assert(graph::pruned(marked, m.seen).pages.contains(walked(m).pages[i]));
    }
}

/// A dry run asks for no overview.
pub proof fn law_dry_run_asks_for_no_overview(m: RunModel, names: NamesModel, src: SourceModel)
    requires
        m.dry_run,
    ensures
        !needs_overview(m, names, src),
        visited(m, names, src).dry_run,
{
}

/// Whether a node stands for a page: it has the identifier of the page, or its path is
/// that of the file or that identifier.
pub open spec fn stands_for(p: PageModel, names: NamesModel) -> bool {
    ||| p.id == names.id
    ||| p.path == names.rel
    ||| p.path == names.id
}

/// Whether the first node that stands for a page is at a place.
pub open spec fn stands_at(pages: Seq<PageModel>, names: NamesModel, i: int) -> bool {
    &&& 0 <= i < pages.len()
    &&& stands_for(pages[i], names)
    &&& forall|j: int| 0 <= j < i ==> !stands_for(#[trigger] pages[j], names)
}

/// Whether no node stands for a page.
pub open spec fn stands_nowhere(pages: Seq<PageModel>, names: NamesModel) -> bool {
    forall|j: int| 0 <= j < pages.len() ==> !stands_for(#[trigger] pages[j], names)
}

/// The node of a page is the first that has its identifier, or whose path is that of its
/// file or that identifier; and one of its own past all nodes where there is none.
pub proof fn law_node_of_a_page(pages: Seq<PageModel>, names: NamesModel)
    ensures
        stands_at(pages, names, place_in(pages, names)) || stands_nowhere(pages, names),
        stands_nowhere(pages, names) ==> place_in(pages, names) == pages.len(),
        forall|i: int| #[trigger] stands_at(pages, names, i) ==> place_in(pages, names) == i,
{
    lemma_place(pages, names);
    let k = place_in(pages, names);
    assert forall|j: int| 0 <= j < k implies !stands_for(#[trigger] pages[j], names) by {
        assert(!node_of(pages[j], names));
    }
    if k < pages.len() {
        assert(node_of(pages[k], names));
        assert(stands_at(pages, names, k));
    }
    assert forall|i: int| #[trigger] stands_at(pages, names, i) implies k == i by {
        if k < i {
            assert(!stands_for(pages[k], names));
        }
        if i < k {
            assert(!stands_for(pages[i], names));
        }
    }
}

/// Of a pillar page that is no stub, in a run that is not dry, an overview is asked for
/// wherever the recorded hash differs from that of the file, also where the node has an
/// overview; where the hash agrees, it is asked for exactly where the node has none.
pub proof fn law_overview_is_asked_for(m: RunModel, names: NamesModel, src: SourceModel, i: int)
    requires
        stands_at(m.store.pages, names, i),
        m.site.pillars.contains(names.id),
        !m.dry_run,
        !visited(m, names, src).store.pages[i].stub,
    ensures
        m.store.pages[i].content_hash != src.hash ==> needs_overview(m, names, src),
        m.store.pages[i].content_hash == src.hash ==> (needs_overview(m, names, src)
            <==> m.store.pages[i].overview is None || m.store.pages[i].overview == Some(
            Seq::<char>::empty(),
        )),
{
    law_node_of_a_page(m.store.pages, names);
    if let Some(s) = m.store.pages[i].overview {
        if s.len() == 0 {
            assert(s =~= Seq::<char>::empty());
        }
    }
}

/// Of a pillar page that is new and no stub an overview is asked for in a run that is
/// not dry. It is asked for of no page that is no pillar, of no stub, and in no dry run.
pub proof fn law_overview_of_a_new_page_is_asked_for(
    m: RunModel,
    names: NamesModel,
    src: SourceModel,
)
    ensures
        stands_nowhere(m.store.pages, names) ==> (needs_overview(m, names, src)
            <==> m.site.pillars.contains(names.id) && !m.dry_run && !visited(
            m,
            names,
            src,
        ).store.pages[m.store.pages.len() as int].stub),
        needs_overview(m, names, src) ==> m.site.pillars.contains(names.id),
        needs_overview(m, names, src) ==> !m.dry_run,
        needs_overview(m, names, src) ==> !visited(m, names, src).store.pages[place_in(
            m.store.pages,
            names,
        )].stub,
{
    law_node_of_a_page(m.store.pages, names);
    lemma_place(m.store.pages, names);
}

/// A page whose topics are to be found again stands at the end of the list, with its
/// identifier, its title and its description as the front matter has them, and its body
/// without the white space around it. Other pages leave the list as it is.
pub proof fn law_what_is_noted_down(m: RunModel, names: NamesModel, src: SourceModel)
    ensures
        ({
            let after = visited(m, names, src);
            let node = after.store.pages[place_in(m.store.pages, names)];
            let changed = forall|i: int| #[trigger]
                stands_at(m.store.pages, names, i) ==> m.store.pages[i].content_hash != src.hash;
            if changed && names.lang == m.default_lang && locale::default_page_name(
                names.file_name,
                m.langs,
            ) && !node.stub && !text::blank(src.body) {
                &&& after.todo.len() == m.todo.len() + 1
                &&& after.todo.drop_last() == m.todo
                &&& after.todo.last().id == names.id
                &&& after.todo.last().title == node.title
                &&& after.todo.last().description == page::str_of(src.fm, "description"@)
                &&& after.todo.last().body == text::trim_of(src.body)
                &&& node.topic_ids.len() == 0
            } else {
                &&& after.todo == m.todo
                &&& after.store.topics == m.store.topics
                &&& after.store.relations == m.store.relations
                &&& forall|i: int| #[trigger]
                    stands_at(m.store.pages, names, i) ==> node.topic_ids
                        == m.store.pages[i].topic_ids
            }
        }),
{
    law_node_of_a_page(m.store.pages, names);
    lemma_place(m.store.pages, names);
    page::law_inked(src.body);
    let after = visited(m, names, src);
    let k = place_in(m.store.pages, names);
    if k < m.store.pages.len() {
        assert(stands_at(m.store.pages, names, k));
        assert(hash_stale(m.store.pages, names, src) == (m.store.pages[k].content_hash
            != src.hash));
    }
    if needs_topics(m, names, src) {
        assert(after.todo.drop_last() =~= m.todo);
    }
}

/// A visit changes the graph, the list of the pages that were seen and the list of those
/// whose topics are to be found, and nothing else of the run; of the graph it changes no
/// organization, no claim and not where it came from. A page that was seen before is not
/// listed again, and another is listed last. A page without a node gets one past all
/// nodes, and no node goes; its overview stays.
pub proof fn law_what_a_visit_leaves(m: RunModel, names: NamesModel, src: SourceModel)
    ensures
        ({
            let after = visited(m, names, src);
            &&& after.site == m.site
            &&& after.default_lang == m.default_lang
            &&& after.langs == m.langs
            &&& after.cap == m.cap
            &&& after.dry_run == m.dry_run
            &&& after.failures == m.failures
            &&& after.store.organizations == m.store.organizations
            &&& after.store.claims == m.store.claims
            &&& after.store.meta == m.store.meta
            &&& m.seen.contains(names.id) ==> after.seen == m.seen
            &&& !m.seen.contains(names.id) ==> after.seen == m.seen.push(names.id)
            &&& stands_nowhere(m.store.pages, names) ==> {
                &&& after.store.pages.len() == m.store.pages.len() + 1
                &&& after.store.pages.last().overview is None
                &&& after.store.pages.last().topic_ids.len() == 0
            }
            &&& forall|i: int| #[trigger]
                stands_at(m.store.pages, names, i) ==> {
                    &&& after.store.pages.len() == m.store.pages.len()
                    &&& after.store.pages[i].overview == m.store.pages[i].overview
                }
        }),
{
    law_node_of_a_page(m.store.pages, names);
    lemma_place(m.store.pages, names);
}

/// The node of a page that was visited is recorded from its file; only its topics may be
/// gone.
pub proof fn law_visited_node_is_recorded(m: RunModel, names: NamesModel, src: SourceModel)
    ensures
        ({
            let i = place_in(m.store.pages, names);
            let node = visited(m, names, src).store.pages[i];
            let was = if i < m.store.pages.len() {
                m.store.pages[i]
            } else {
                schema::blank_page()
            };
            let f = facts::filled(was, names, src, m.default_lang);
            node == (PageModel { topic_ids: node.topic_ids, ..f })
        }),
{
    lemma_place(m.store.pages, names);
}

/// After the visits the graph has the pages that were seen, in their order, and each is
/// as it was but for being hidden where it is a translation in name only. Of the edges
/// and the topics only what touches pages that were not seen is gone; claims and where
/// the graph came from stay.
pub proof fn law_walk_keeps_the_rest(m: RunModel)
    ensures
        walked(m).pages == graph::marked(m.store.pages, m.default_lang).filter(
            |p: PageModel| m.seen.contains(p.id),
        ),
        walked(m).topics == graph::pruned(m.store, m.seen).topics,
        walked(m).organizations == site::seeded(m.store.organizations, m.site),
        walked(m).claims == m.store.claims,
        walked(m).meta == m.store.meta,
        forall|r: schema::RelationModel|
            m.store.relations.contains(r) && (m.seen.contains(r.from) || !"content/"@.is_prefix_of(
                r.from,
            )) && (m.seen.contains(r.to) || !"content/"@.is_prefix_of(r.to))
                ==> #[trigger] walked(m).relations.contains(r),
        forall|r: schema::RelationModel| #[trigger]
            walked(m).relations.contains(r) && r.kind != "translation"@ ==> {
                &&& m.store.relations.contains(r)
                &&& m.seen.contains(r.from) || !"content/"@.is_prefix_of(r.from)
                &&& m.seen.contains(r.to) || !"content/"@.is_prefix_of(r.to)
            },
{
    let marked = StoreModel { pages: graph::marked(m.store.pages, m.default_lang), ..m.store };
    graph::law_pruned_edges(marked, m.seen);
    assert(graph::page_listed(m.seen) =~= |p: PageModel| m.seen.contains(p.id));
    assert(walked(m).relations == graph::pruned(marked, m.seen).relations);
}

/// A run starts exactly on a graph that came from somewhere, with nothing seen, noted
/// down or failed, and the graph as it is. Without a cap every page gets its topics.
pub proof fn law_start(
    store: GraphStore,
    site: GraphSiteConfig,
    default_lang: String,
    langs: Vec<String>,
    max: Option<usize>,
    dry_run: bool,
    r: Result<RefreshRun, CommandError>,
)
    requires
        call_ensures(RefreshRun::start, (store, site, default_lang, langs, max, dry_run), r),
    ensures
        store@.meta.source_origin.len() == 0 <==> r is Err,
        r matches Err(e) ==> e@ is NoPriorMigrate,
        r matches Ok(run) ==> {
            &&& run@.store == store@
            &&& run@.site == site@
            &&& run@.default_lang == default_lang@
            &&& run@.langs == text::views(langs@)
            &&& run@.dry_run == dry_run
            &&& run@.failures == 0
            &&& run@.seen.len() == 0
            &&& run@.todo.len() == 0
            &&& max matches Some(n) ==> run@.cap == n
            &&& max is None ==> run@.cap == usize::MAX
        },
{
}

/// The topics of the first pages are found, as many as the cap allows; a dry run only
/// reports those pages. There is nothing to do past the last page.
pub proof fn law_steps_end_at_the_cap(run: &RefreshRun, i: usize, step: EnrichStep)
    requires
        call_ensures(RefreshRun::enrich_step, (run, i), step),
    ensures
        step is Stop <==> i >= run@.cap || i >= run@.todo.len(),
        step is Enrich <==> i < run@.cap && i < run@.todo.len() && !run@.dry_run,
        step is Report <==> i < run@.cap && i < run@.todo.len() && run@.dry_run,
{
}

/// A run succeeds exactly where nothing failed, and tells otherwise how often something
/// did.
pub proof fn law_end_of_a_run(run: &RefreshRun, r: Result<(), CommandError>)
    requires
        call_ensures(RefreshRun::finish, (run,), r),
    ensures
        r is Ok <==> run@.failures == 0,
        r matches Err(e) ==> (e@ matches Failure::RefreshFailures(n) && n == run@.failures),
{
}

/// A visit asks for an overview of a pillar page that is no stub, in a run that is not dry,
/// wherever the recorded hash differs from that of the file, and otherwise exactly where the
/// node has no overview. It asks for none of other pages. The node is the one that it tells.
pub proof fn law_visit_asks_for_overviews()
    ensures
        forall|run: &mut RefreshRun, names: &PageNames, src: &PageSource, v: Visit| #[trigger]
            call_ensures(RefreshRun::visit, (run, names, src), v) ==> {
                let node = (*final(run))@.store.pages[v.index as int];
                let wanted = (*run)@.site.pillars.contains(names@.id) && !(*run)@.dry_run
                    && !node.stub;
                &&& node.id == names@.id
                &&& node.content_hash == src@.hash
                &&& !wanted ==> !v.wants_overview
                &&& stands_nowhere((*run)@.store.pages, names@) ==> v.wants_overview == wanted
                &&& stands_at((*run)@.store.pages, names@, v.index as int) && wanted ==> {
                    let was = (*run)@.store.pages[v.index as int];
                    &&& was.content_hash != src@.hash ==> v.wants_overview
                    &&& was.content_hash == src@.hash ==> (v.wants_overview <==> (
                    was.overview matches Some(s) ==> s.len() == 0))
                }
            },
{
    assert forall|run: &mut RefreshRun, names: &PageNames, src: &PageSource, v: Visit| #[trigger]
        call_ensures(RefreshRun::visit, (run, names, src), v) implies ({
        let node = (*final(run))@.store.pages[v.index as int];
        let wanted = (*run)@.site.pillars.contains(names@.id) && !(*run)@.dry_run && !node.stub;
        &&& node.id == names@.id
        &&& node.content_hash == src@.hash
        &&& !wanted ==> !v.wants_overview
        &&& stands_nowhere((*run)@.store.pages, names@) ==> v.wants_overview == wanted
        &&& stands_at((*run)@.store.pages, names@, v.index as int) && wanted ==> {
            let was = (*run)@.store.pages[v.index as int];
            &&& was.content_hash != src@.hash ==> v.wants_overview
            &&& was.content_hash == src@.hash ==> (v.wants_overview <==> (
            was.overview matches Some(s) ==> s.len() == 0))
        }
    }) by {
        let m = (*run)@;
        law_visit_records_the_page(m, names@, src@);
        law_node_of_a_page(m.store.pages, names@);
        law_overview_of_a_new_page_is_asked_for(m, names@, src@);
        let i = v.index as int;
        if stands_at(m.store.pages, names@, i) && m.site.pillars.contains(names@.id) && !m.dry_run
            && !visited(m, names@, src@).store.pages[i].stub {
            law_overview_is_asked_for(m, names@, src@, i);
        }
    }
}

/// An overview that was fetched is recorded on its node, and nothing else changes; one that
/// failed changes nothing.
pub proof fn law_taken_overview()
    ensures
        forall|run: &mut RefreshRun, index: usize, overview: Result<String, CommandError>, u: ()|
            #[trigger]
            call_ensures(RefreshRun::take_overview, (run, index, overview), u) && index
                < (*run)@.store.pages.len() ==> {
                let before = (*run)@;
                let after = (*final(run))@;
                &&& overview is Err ==> after == before
                &&& overview matches Ok(s) ==> after.store.pages[index as int].overview == Some(s@)
                &&& after.store.pages.len() == before.store.pages.len()
                &&& after == (RunModel {
                    store: StoreModel { pages: after.store.pages, ..before.store },
                    ..before
                })
                &&& after.store.pages[index as int] == (PageModel {
                    overview: after.store.pages[index as int].overview,
                    ..before.store.pages[index as int]
                })
                &&& forall|j: int|
                    0 <= j < before.store.pages.len() && j != index
                        ==> #[trigger] after.store.pages[j] == before.store.pages[j]
            },
{
}

/// A run that is not dry stamps the graph with the time and is to be saved; a dry run is
/// not, and leaves the graph as it is. Nothing else changes.
pub proof fn law_stamp()
    ensures
        forall|run: &mut RefreshRun, now: &str, save: bool| #[trigger]
            call_ensures(RefreshRun::stamp, (run, now), save) ==> {
                let before = (*run)@;
                let after = (*final(run))@;
                &&& save <==> !before.dry_run
                &&& before.dry_run ==> after == before
                &&& !before.dry_run ==> after.store.meta.last_refresh == now@
                &&& after.store.meta.source_origin == before.store.meta.source_origin
                &&& after == (RunModel {
                    store: StoreModel { meta: after.store.meta, ..before.store },
                    ..before
                })
            },
{
}

/// A page that cannot be read, or whose front matter cannot, is counted as a failure, once,
/// and one that can is not; the graph stays as it is.
pub proof fn law_opened_file()
    ensures
        forall|
            run: &mut RefreshRun,
            path: &str,
            read: Result<String, CommandError>,
            r: Result<(TomlValue, String), CommandError>,
        | #[trigger]
            call_ensures(RefreshRun::open_file, (run, path, read), r) && (*run)@.failures
                < usize::MAX ==> {
                &&& (*final(run))@.failures == (*run)@.failures + if r is Err {
                    1int
                } else {
                    0int
                }
                &&& (*final(run))@ == (RunModel {
                    failures: (*final(run))@.failures,
                    ..(*run)@
                })
                &&& r is Ok <==> page::file_of(path@, page::read_view(read)) is Ok
                &&& read is Err ==> r is Err
                &&& r matches Ok((fm, body)) ==> page::file_of(path@, page::read_view(read))
                    == Ok::<(TomlModel, Seq<char>), Failure<Seq<char>>>((fm@, body@))
            },
{
}

} // verus!
