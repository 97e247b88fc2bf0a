//! Keeping the graph of a site in step with its pages.
use vstd::prelude::*;

use crate::schema;
use crate::schema::{GraphStore, Page, PageModel, Relation, RelationModel, StoreModel, Topic, TopicModel};
use crate::text;

verus! {

// ---- untranslated pages ----

/// The page in the default language that a page belongs to.
pub open spec fn group_of(p: PageModel) -> Seq<char> {
    match p.translation_of {
        Some(base) => base,
        None => p.id,
    }
}

/// Whether another page of the same group has the same, not empty, hash.
pub open spec fn has_twin(pages: Seq<PageModel>, i: int) -> bool {
    pages[i].content_hash.len() > 0 && exists|j: int|
        {
            &&& 0 <= j < pages.len()
            &&& j != i
            &&& group_of(#[trigger] pages[j]) == group_of(pages[i])
            &&& pages[j].content_hash == pages[i].content_hash
        }
}

/// Whether a page is a translation in name only: it is not in the default
/// language, and its body is that of another page of its group.
pub open spec fn untranslated(pages: Seq<PageModel>, i: int, default_lang: Seq<char>) -> bool {
    pages[i].lang != default_lang && has_twin(pages, i)
}

/// A page that is kept out of the sitemap.
pub open spec fn hidden(p: PageModel) -> PageModel {
    PageModel { noindex: true, sitemap: false, ..p }
}

/// The pages, with those hidden that are translations in name only.
pub open spec fn marked(pages: Seq<PageModel>, default_lang: Seq<char>) -> Seq<PageModel> {
    Seq::new(
        pages.len(),
        |i: int|
            if untranslated(pages, i, default_lang) {
                hidden(pages[i])
            } else {
                pages[i]
            },
    )
}

fn group_key(p: &Page) -> (s: String)
    ensures
        s@ == group_of(p@),
{
    match &p.translation_of {
        Some(base) => base.clone(),
        None => p.id.clone(),
    }
}

fn twin_exists(pages: &Vec<Page>, i: usize) -> (b: bool)
    requires
        i < pages@.len(),
    ensures
        b == has_twin(schema::page_models(pages@), i as int),
{
    let ghost all = schema::page_models(pages@);
    if pages[i].content_hash.as_str().is_empty() {
        return false;
    }
    let key: String = group_key(&pages[i]);
    for j in 0..pages.len()
        invariant
            all == schema::page_models(pages@),
            i < pages@.len(),
            key@ == group_of(all[i as int]),
            all[i as int].content_hash.len() > 0,
            forall|k: int|
                0 <= k < j && k != i ==> !(group_of(#[trigger] all[k]) == key@
                    && all[k].content_hash == all[i as int].content_hash),
    {
        assert(all[j as int] == pages@[j as int]@);
        assert(all[i as int] == pages@[i as int]@);
        if j != i && text::same(group_key(&pages[j]).as_str(), key.as_str()) && text::same(
            pages[j].content_hash.as_str(),
            pages[i].content_hash.as_str(),
        ) {
            return true;
        }
    }
    false
}

/// Keeps translations out of the sitemap that still share their body with the
/// page in the default language, or with another translation of it. Pages in the
/// default language are never hidden here.
pub fn mark_untranslated_siblings(store: &mut GraphStore, default_lang: &str)
    ensures
        final(store)@ == (StoreModel {
            pages: marked(old(store)@.pages, default_lang@),
            ..old(store)@
        }),
{
    let ghost all = store@.pages;
    let mut flags: Vec<bool> = Vec::new();
    for i in 0..store.pages.len()
        invariant
            all == schema::page_models(store.pages@),
            flags@.len() == i,
            forall|k: int|
                0 <= k < i ==> #[trigger] flags@[k] == untranslated(all, k, default_lang@),
    {
        assert(all[i as int] == store.pages@[i as int]@);
        flags.push(
            !text::same(store.pages[i].lang.as_str(), default_lang) && twin_exists(
                &store.pages,
                i,
            ),
        );
    }
    let n: usize = store.pages.len();
    for i in 0..n
        invariant
            n == all.len(),
            flags@.len() == n,
            store.pages@.len() == n,
            forall|k: int|
                0 <= k < n ==> #[trigger] flags@[k] == untranslated(all, k, default_lang@),
            forall|k: int|
                0 <= k < i ==> (#[trigger] store.pages@[k])@ == marked(all, default_lang@)[k],
            forall|k: int| i <= k < n ==> (#[trigger] store.pages@[k])@ == all[k],
            store.topics == old(store).topics,
            store.relations == old(store).relations,
            store.organizations == old(store).organizations,
            store.claims == old(store).claims,
            store.meta == old(store).meta,
    {
        if flags[i] {
            let page: &mut Page = &mut store.pages[i];
            page.noindex = true;
            page.sitemap = false;
        }
    }
    assert(store@.pages =~= marked(all, default_lang@));
}

/// Pages in the default language stay as they are, and of other pages only their
/// place in the index and in the sitemap can change, and only for the worse.
pub proof fn law_marking_only_hides(pages: Seq<PageModel>, default_lang: Seq<char>, i: int)
    requires
        0 <= i < pages.len(),
    ensures
        pages[i].lang == default_lang ==> marked(pages, default_lang)[i] == pages[i],
        marked(pages, default_lang)[i] == pages[i] || marked(pages, default_lang)[i] == hidden(
            pages[i],
        ),
{
}

/// Marking twice is marking once.
pub proof fn law_marking_is_idempotent(pages: Seq<PageModel>, default_lang: Seq<char>)
    ensures
        marked(marked(pages, default_lang), default_lang) == marked(pages, default_lang),
{
    let m = marked(pages, default_lang);
    assert forall|i: int| 0 <= i < pages.len() implies untranslated(m, i, default_lang)
        == untranslated(pages, i, default_lang) by {
        if has_twin(m, i) {
            let j = choose|j: int|
                {
                    &&& 0 <= j < m.len()
                    &&& j != i
                    &&& group_of(#[trigger] m[j]) == group_of(m[i])
                    &&& m[j].content_hash == m[i].content_hash
                };
            assert(group_of(pages[j]) == group_of(pages[i]));
        }
        if has_twin(pages, i) {
            let j = choose|j: int|
                {
                    &&& 0 <= j < pages.len()
                    &&& j != i
                    &&& group_of(#[trigger] pages[j]) == group_of(pages[i])
                    &&& pages[j].content_hash == pages[i].content_hash
                };
            assert(group_of(m[j]) == group_of(m[i]));
        }
    }
    assert(marked(m, default_lang) =~= m);
}

// ---- edges ----

/// The edges, with one more unless it is there.
pub open spec fn upserted(rels: Seq<RelationModel>, rel: RelationModel) -> Seq<RelationModel> {
    if rels.contains(rel) {
        rels
    } else {
        rels.push(rel)
    }
}

/// Adds an edge unless it is there.
pub fn upsert_relation(rels: &mut Vec<Relation>, rel: &Relation)
    ensures
        schema::relation_models(final(rels)@) == upserted(
            schema::relation_models(old(rels)@),
            rel@,
        ),
{
    let ghost all = schema::relation_models(rels@);
    for i in 0..rels.len()
        invariant
            all == schema::relation_models(rels@),
            rels@ == old(rels)@,
            forall|k: int| 0 <= k < i ==> #[trigger] all[k] != rel@,
    {
        let r: &Relation = &rels[i];
        assert(all[i as int] == r@);
        if text::same(r.from.as_str(), rel.from.as_str()) && text::same(
            r.to.as_str(),
            rel.to.as_str(),
        ) && text::same(r.kind.as_str(), rel.kind.as_str()) {
            return ;
        }
    }
    assert(!all.contains(rel@));
    rels.push(rel.clone());
    assert(schema::relation_models(rels@) =~= all.push(rel@));
}

/// An edge is there once it was added, the others stay, and no edge that was not
/// there twice is there twice.
pub proof fn law_upsert(rels: Seq<RelationModel>, rel: RelationModel)
    ensures
        upserted(rels, rel).contains(rel),
        rels.is_prefix_of(upserted(rels, rel)),
        upserted(upserted(rels, rel), rel) == upserted(rels, rel),
        rels.no_duplicates() ==> upserted(rels, rel).no_duplicates(),
{
    let new = upserted(rels, rel);
    if !rels.contains(rel) {
        assert(new[rels.len() as int] == rel);
        if rels.no_duplicates() {
            assert forall|i: int, j: int| 0 <= i < new.len() && 0 <= j < new.len() && i
                != j implies new[i] != new[j] by {
                if i < rels.len() {
                    assert(rels.contains(new[i]));
                }
                if j < rels.len() {
                    assert(rels.contains(new[j]));
                }
            }
        }
    }
}

// ---- detaching the topics of a page ----

/// The topics, each with the page identifiers that are kept.
pub open spec fn kept_page_ids(
    topics: Seq<TopicModel>,
    keep: spec_fn(Seq<char>) -> bool,
) -> Seq<TopicModel> {
    topics.map_values(
        |t: TopicModel| TopicModel { page_ids: t.page_ids.filter(keep), ..t },
    )
}

/// Whether an edge leads from a page to one of its topics.
pub open spec fn topic_edge(r: RelationModel, url: Seq<char>) -> bool {
    r.from == url && r.kind == "page_topic"@
}

/// What is true of every identifier but one.
pub open spec fn other_than(url: Seq<char>) -> spec_fn(Seq<char>) -> bool {
    |id: Seq<char>| id != url
}

/// What is true of an edge that does not lead from a page to one of its topics.
pub open spec fn other_edge(url: Seq<char>) -> spec_fn(RelationModel) -> bool {
    |r: RelationModel| !topic_edge(r, url)
}

/// What is true of the identifiers that are, or are not, in a list.
pub open spec fn is_listed(ids: Seq<Seq<char>>, listed: bool) -> spec_fn(Seq<char>) -> bool {
    |id: Seq<char>| ids.contains(id) == listed
}

/// The graph without the edges from a page to its topics, and without the page in
/// any topic. Topics without pages stay.
pub open spec fn detached(store: StoreModel, url: Seq<char>) -> StoreModel {
    StoreModel {
        relations: store.relations.filter(other_edge(url)),
        topics: kept_page_ids(store.topics, other_than(url)),
        ..store
    }
}

/// Keeps of the page identifiers of each topic those that are, or those that are
/// not, among `ids`.
fn retain_page_ids(topics: &mut Vec<Topic>, ids: &Vec<String>, listed: bool)
    ensures
        schema::topic_models(final(topics)@) == kept_page_ids(
            schema::topic_models(old(topics)@),
            is_listed(text::views(ids@), listed),
        ),
{
    let ghost keep = is_listed(text::views(ids@), listed);
    let ghost was = topics@;
    let n: usize = topics.len();
    for i in 0..n
        invariant
            keep == is_listed(text::views(ids@), listed),
            n == was.len(),
            topics@.len() == n,
            forall|k: int|
                0 <= k < i ==> (#[trigger] topics@[k])@ == (TopicModel {
                    page_ids: was[k]@.page_ids.filter(keep),
                    ..was[k]@
                }),
            forall|k: int| i <= k < n ==> #[trigger] topics@[k] == was[k],
    {
        let kept: Vec<String> = retained_ids(&topics[i].page_ids, ids, listed);
        let topic: &mut Topic = &mut topics[i];
        topic.page_ids = kept;
    }
    assert(schema::topic_models(topics@) =~= kept_page_ids(schema::topic_models(was), keep));
}

fn retained_ids(all: &Vec<String>, ids: &Vec<String>, listed: bool) -> (out: Vec<String>)
    ensures
        text::views(out@) == text::views(all@).filter(
            is_listed(text::views(ids@), listed),
        ),
{
    let ghost keep = is_listed(text::views(ids@), listed);
    let ghost l = text::views(all@);
    let mut out: Vec<String> = Vec::new();
    assert(text::views(out@) =~= l.take(0).filter(keep)) by {
        reveal(Seq::filter);
    }
    for i in 0..all.len()
        invariant
            keep == is_listed(text::views(ids@), listed),
            l == text::views(all@),
            text::views(out@) == l.take(i as int).filter(keep),
    {
        proof {
            text::lemma_filter_step(l, i as int, keep);
            assert(l[i as int] == all@[i as int]@);
        }
        let ghost was = out@;
        if text::among(ids, all[i].as_str()) == listed {
            let id: String = all[i].clone();
            out.push(id);
            assert(text::views(out@) =~= text::views(was).push(id@));
        }
    }
    assert(l.take(l.len() as int) =~= l);
    out
}

/// Removes all edges from a page to its topics, and the page from every topic, so
/// that the topics of a page that changed can be found anew.
pub fn detach_page_topics(store: &mut GraphStore, url: &str)
    ensures
        final(store)@ == detached(old(store)@, url@),
{
    let ghost keep = other_edge(url@);
    let ghost l = store@.relations;
    let mut rels: Vec<Relation> = Vec::new();
    assert(schema::relation_models(rels@) =~= l.take(0).filter(keep)) by {
        reveal(Seq::filter);
    }
    for i in 0..store.relations.len()
        invariant
            keep == other_edge(url@),
            l == schema::relation_models(store.relations@),
            schema::relation_models(rels@) == l.take(i as int).filter(keep),
    {
        proof {
            text::lemma_filter_step(l, i as int, keep);
            assert(l[i as int] == store.relations@[i as int]@);
        }
        let r: &Relation = &store.relations[i];
        let ghost was = rels@;
        if !(text::same(r.from.as_str(), url) && text::same(r.kind.as_str(), "page_topic")) {
            let kept: Relation = r.clone();
            rels.push(kept);
            assert(schema::relation_models(rels@) =~= schema::relation_models(was).push(kept@));
        }
    }
    assert(l.take(l.len() as int) =~= l);
    store.relations = rels;
    let mut gone: Vec<String> = Vec::new();
    gone.push(url.to_string());
    retain_page_ids(&mut store.topics, &gone, false);
    proof {
        let a = is_listed(text::views(gone@), false);
        let b = other_than(url@);
        assert forall|id: Seq<char>| #[trigger] a(id) == b(id) by {
            assert(text::views(gone@)[0] == url@);
            if text::views(gone@).contains(id) {
                let k = choose|k: int|
                    0 <= k < text::views(gone@).len() && text::views(gone@)[k] == id;
                assert(k == 0);
            }
        }
        assert(a =~= b);
    }
    assert(store@ =~= detached(old(store)@, url@));
}

/// A page that was detached has no topics left in the graph, and nothing else
/// changed: every other edge and every other page of a topic is still there.
pub proof fn law_detached_page_has_no_topics(store: StoreModel, url: Seq<char>)
    ensures
        forall|i: int|
            0 <= i < detached(store, url).relations.len() ==> !topic_edge(
                #[trigger] detached(store, url).relations[i],
                url,
            ),
        forall|i: int|
            0 <= i < store.topics.len() ==> !(#[trigger] detached(
                store,
                url,
            ).topics[i]).page_ids.contains(url),
        forall|r: RelationModel|
            !topic_edge(r, url) ==> (#[trigger] detached(store, url).relations.contains(r)
                <==> store.relations.contains(r)),
        forall|i: int, id: Seq<char>|
            0 <= i < store.topics.len() && id != url ==> (#[trigger] detached(
                store,
                url,
            ).topics[i].page_ids.contains(id) <==> store.topics[i].page_ids.contains(id)),
        detached(detached(store, url), url) == detached(store, url),
{
    let keep = other_edge(url);
    let other = other_than(url);
    let d = detached(store, url);
    lemma_filter_members(store.relations, keep);
    assert forall|i: int| 0 <= i < d.relations.len() implies !topic_edge(
        #[trigger] d.relations[i],
        url,
    ) by {
        assert(d.relations.contains(d.relations[i]));
    }
    assert forall|i: int| 0 <= i < store.topics.len() implies !(#[trigger] d.topics[i]).page_ids.contains(
        url,
    ) by {
        lemma_filter_members(store.topics[i].page_ids, other);
    }
    assert forall|i: int, id: Seq<char>| 0 <= i < store.topics.len() && id != url implies (
    #[trigger] d.topics[i].page_ids.contains(id) <==> store.topics[i].page_ids.contains(id)) by {
        lemma_filter_members(store.topics[i].page_ids, other);
    }
    let e = detached(d, url);
    lemma_filter_twice(store.relations, keep);
    assert forall|i: int| 0 <= i < store.topics.len() implies e.topics[i] == d.topics[i] by {
        lemma_filter_twice(store.topics[i].page_ids, other);
    }
    assert(e.topics =~= d.topics);
}

// ---- pruning ----

/// What is true of the pages in a list.
pub open spec fn page_listed(ids: Seq<Seq<char>>) -> spec_fn(PageModel) -> bool {
    |p: PageModel| ids.contains(p.id)
}

/// Whether an end of an edge is no page, or a page in a list.
pub open spec fn known_end(ids: Seq<Seq<char>>, end: Seq<char>) -> bool {
    "content/"@.is_prefix_of(end) ==> ids.contains(end)
}

/// Whether no end of an edge is a page that is not in a list.
pub open spec fn known_edge(ids: Seq<Seq<char>>, r: RelationModel) -> bool {
    known_end(ids, r.from) && known_end(ids, r.to)
}

/// What is true of the edges without an end that is a page that is not in a list.
pub open spec fn edge_listed(ids: Seq<Seq<char>>) -> spec_fn(RelationModel) -> bool {
    |r: RelationModel| known_edge(ids, r)
}

/// The edge from a page to a translation of it, or back.
pub open spec fn translation_edge(from: Seq<char>, to: Seq<char>) -> RelationModel {
    RelationModel { from, to, kind: "translation"@ }
}

/// The edges, with those between the translations among some pages and what they
/// translate, in both directions.
pub open spec fn with_translations(rels: Seq<RelationModel>, pages: Seq<PageModel>) -> Seq<
    RelationModel,
>
    decreases pages.len(),
{
    if pages.len() == 0 {
        rels
    } else {
        let done = with_translations(rels, pages.drop_last());
        let p = pages.last();
        match p.translation_of {
            Some(base) => upserted(
                upserted(done, translation_edge(p.id, base)),
                translation_edge(base, p.id),
            ),
            None => done,
        }
    }
}

/// The graph without the pages that were not seen, without edges to or from such
/// a page and without such a page in any topic, and with edges between
/// translations and what they translate.
pub open spec fn pruned(store: StoreModel, seen: Seq<Seq<char>>) -> StoreModel {
    let pages = store.pages.filter(page_listed(seen));
    StoreModel {
        pages,
        topics: kept_page_ids(store.topics, is_listed(seen, true)),
        relations: with_translations(store.relations.filter(edge_listed(seen)), pages),
        ..store
    }
}

fn retained_pages(pages: Vec<Page>, seen: &Vec<String>) -> (out: Vec<Page>)
    ensures
        schema::page_models(out@) == schema::page_models(pages@).filter(
            page_listed(text::views(seen@)),
        ),
{
    let ghost keep = page_listed(text::views(seen@));
    let ghost l = schema::page_models(pages@);
    let ghost all = pages@;
    let mut out: Vec<Page> = Vec::new();
    assert(schema::page_models(out@) =~= l.take(0).filter(keep)) by {
        reveal(Seq::filter);
    }
    for p in it: pages.into_iter()
        invariant
            keep == page_listed(text::views(seen@)),
            it.seq() == all,
            l == schema::page_models(all),
            schema::page_models(out@) == l.take(it.index()).filter(keep),
    {
        proof {
            text::lemma_filter_step(l, it.index(), keep);
            assert(l[it.index()] == p@);
        }
        let ghost was = out@;
        if text::among(seen, p.id.as_str()) {
            out.push(p);
            assert(schema::page_models(out@) =~= schema::page_models(was).push(p@));
        }
    }
    assert(l.take(l.len() as int) =~= l);
    out
}

fn is_known(seen: &Vec<String>, end: &str) -> (b: bool)
    ensures
        b == known_end(text::views(seen@), end@),
{
    !text::starts_with(end, "content/") || text::among(seen, end)
}

fn retained_relations(rels: Vec<Relation>, seen: &Vec<String>) -> (out: Vec<Relation>)
    ensures
        schema::relation_models(out@) == schema::relation_models(rels@).filter(
            edge_listed(text::views(seen@)),
        ),
{
    let ghost keep = edge_listed(text::views(seen@));
    let ghost l = schema::relation_models(rels@);
    let ghost all = rels@;
    let mut out: Vec<Relation> = Vec::new();
    assert(schema::relation_models(out@) =~= l.take(0).filter(keep)) by {
        reveal(Seq::filter);
    }
    for r in it: rels.into_iter()
        invariant
            keep == edge_listed(text::views(seen@)),
            it.seq() == all,
            l == schema::relation_models(all),
            schema::relation_models(out@) == l.take(it.index()).filter(keep),
    {
        proof {
            text::lemma_filter_step(l, it.index(), keep);
            assert(l[it.index()] == r@);
        }
        let ghost was = out@;
        if is_known(seen, r.from.as_str()) && is_known(seen, r.to.as_str()) {
            out.push(r);
            assert(schema::relation_models(out@) =~= schema::relation_models(was).push(r@));
        }
    }
    assert(l.take(l.len() as int) =~= l);
    out
}

/// Adds the edges between the translations among some pages and what they
/// translate.
fn add_translations(rels: &mut Vec<Relation>, pages: &Vec<Page>)
    ensures
        schema::relation_models(final(rels)@) == with_translations(
            schema::relation_models(old(rels)@),
            schema::page_models(pages@),
        ),
{
    let ghost was = schema::relation_models(rels@);
    let ghost l = schema::page_models(pages@);
    assert(l.take(0) =~= Seq::<PageModel>::empty());
    for i in 0..pages.len()
        invariant
            l == schema::page_models(pages@),
            schema::relation_models(rels@) == with_translations(was, l.take(i as int)),
    {
        proof {
            assert(l.take(i + 1).drop_last() =~= l.take(i as int));
            assert(l.take(i + 1).last() == pages@[i as int]@);
        }
        match &pages[i].translation_of {
            Some(base) => {
                let there: Relation = Relation {
                    from: pages[i].id.clone(),
                    to: base.clone(),
                    kind: "translation".to_string(),
                };
                let back: Relation = Relation {
                    from: base.clone(),
                    to: pages[i].id.clone(),
                    kind: "translation".to_string(),
                };
                upsert_relation(rels, &there);
                upsert_relation(rels, &back);
            },
            None => {},
        }
    }
    assert(l.take(l.len() as int) =~= l);
}

/// Drops the pages that were not seen, with their edges and their places in
/// topics, and adds edges between translations and what they translate.
pub fn prune_store(store: &mut GraphStore, seen: &Vec<String>)
    ensures
        final(store)@ == pruned(old(store)@, text::views(seen@)),
{
    let mut pages: Vec<Page> = Vec::new();
    std::mem::swap(&mut pages, &mut store.pages);
    store.pages = retained_pages(pages, seen);
    let mut rels: Vec<Relation> = Vec::new();
    std::mem::swap(&mut rels, &mut store.relations);
    store.relations = retained_relations(rels, seen);
    retain_page_ids(&mut store.topics, seen, true);
    add_translations(&mut store.relations, &store.pages);
    assert(store@ =~= pruned(old(store)@, text::views(seen@)));
}

/// Whether an edge leads between a translation among some pages and what it
/// translates.
pub open spec fn between_translations(pages: Seq<PageModel>, r: RelationModel) -> bool {
    exists|i: int|
        {
            &&& 0 <= i < pages.len()
            &&& (#[trigger] pages[i]).translation_of matches Some(base)
            &&& r == translation_edge(pages[i].id, base) || r == translation_edge(
                base,
                pages[i].id,
            )
        }
}

proof fn lemma_upserted_members(rels: Seq<RelationModel>, rel: RelationModel)
    ensures
        forall|r: RelationModel| #[trigger]
            upserted(rels, rel).contains(r) <==> rels.contains(r) || r == rel,
{
    let new = upserted(rels, rel);
    assert forall|r: RelationModel| #[trigger] new.contains(r) <==> rels.contains(r) || r
        == rel by {
        if !rels.contains(rel) {
            if new.contains(r) {
                let i = choose|i: int| 0 <= i < new.len() && new[i] == r;
                if i < rels.len() {
                    assert(rels[i] == r);
                }
            }
            if rels.contains(r) {
                let i = choose|i: int| 0 <= i < rels.len() && rels[i] == r;
                assert(new[i] == r);
            }
            assert(new[rels.len() as int] == rel);
        }
    }
}

proof fn lemma_translations_members(rels: Seq<RelationModel>, pages: Seq<PageModel>)
    ensures
        forall|r: RelationModel| #[trigger]
            with_translations(rels, pages).contains(r) <==> rels.contains(r)
                || between_translations(pages, r),
        rels.no_duplicates() ==> with_translations(rels, pages).no_duplicates(),
    decreases pages.len(),
{
    if pages.len() > 0 {
        let rest = pages.drop_last();
        lemma_translations_members(rels, rest);
        let done = with_translations(rels, rest);
        let p = pages.last();
        assert forall|r: RelationModel| between_translations(rest, r) implies
            between_translations(pages, r) by {
            let i = choose|i: int|
                {
                    &&& 0 <= i < rest.len()
                    &&& (#[trigger] rest[i]).translation_of matches Some(base)
                    &&& r == translation_edge(rest[i].id, base) || r == translation_edge(
                        base,
                        rest[i].id,
                    )
                };
            assert(pages[i] == rest[i]);
        }
        match p.translation_of {
            Some(base) => {
                let a = translation_edge(p.id, base);
                let b = translation_edge(base, p.id);
                lemma_upserted_members(done, a);
                lemma_upserted_members(upserted(done, a), b);
                law_upsert(done, a);
                law_upsert(upserted(done, a), b);
                assert(pages[pages.len() - 1] == p);
                assert(between_translations(pages, a));
                assert(between_translations(pages, b));
            },
            None => {},
        }
        assert forall|r: RelationModel| between_translations(pages, r) implies
            between_translations(rest, r) || (p.translation_of matches Some(base) && (r
            == translation_edge(p.id, base) || r == translation_edge(base, p.id))) by {
            let i = choose|i: int|
                {
                    &&& 0 <= i < pages.len()
                    &&& (#[trigger] pages[i]).translation_of matches Some(base)
                    &&& r == translation_edge(pages[i].id, base) || r == translation_edge(
                        base,
                        pages[i].id,
                    )
                };
            if i < rest.len() {
                assert(rest[i] == pages[i]);
            }
        }
    } else {
        assert forall|r: RelationModel| !between_translations(pages, r) by {}
    }
}

/// Whether each translation among the seen pages of a graph leads to a page that
/// was seen too, or to no page.
pub open spec fn bases_seen(store: StoreModel, seen: Seq<Seq<char>>) -> bool {
    forall|i: int|
        0 <= i < store.pages.len() && seen.contains((#[trigger] store.pages[i]).id) ==> (
        store.pages[i].translation_of matches Some(base) ==> known_end(seen, base))
}

/// A pruned graph holds the pages that were seen, and names no other in a topic.
pub proof fn law_pruned_pages_were_seen(store: StoreModel, seen: Seq<Seq<char>>)
    ensures
        forall|p: PageModel| #[trigger]
            pruned(store, seen).pages.contains(p) <==> store.pages.contains(p) && seen.contains(
                p.id,
            ),
        forall|i: int, id: Seq<char>|
            0 <= i < store.topics.len() ==> (#[trigger] pruned(
                store,
                seen,
            ).topics[i].page_ids.contains(id) <==> store.topics[i].page_ids.contains(id)
                && seen.contains(id)),
{
    lemma_filter_members(store.pages, page_listed(seen));
    assert forall|i: int, id: Seq<char>| 0 <= i < store.topics.len() implies (#[trigger] pruned(
        store,
        seen,
    ).topics[i].page_ids.contains(id) <==> store.topics[i].page_ids.contains(id) && seen.contains(
        id,
    )) by {
        lemma_filter_members(store.topics[i].page_ids, is_listed(seen, true));
    }
}

/// The edges of a pruned graph are those that were there and do not touch a page
/// that was not seen, and those between translations and what they translate, in
/// both directions. Edges are not doubled.
pub proof fn law_pruned_edges(store: StoreModel, seen: Seq<Seq<char>>)
    ensures
        forall|r: RelationModel| #[trigger]
            pruned(store, seen).relations.contains(r) <==> store.relations.contains(r)
                && known_edge(seen, r) || between_translations(pruned(store, seen).pages, r),
        forall|i: int|
            0 <= i < pruned(store, seen).pages.len() ==> ((#[trigger] pruned(
                store,
                seen,
            ).pages[i]).translation_of matches Some(base) ==> {
                let id = pruned(store, seen).pages[i].id;
                &&& pruned(store, seen).relations.contains(translation_edge(id, base))
                &&& pruned(store, seen).relations.contains(translation_edge(base, id))
            }),
        store.relations.no_duplicates() ==> pruned(store, seen).relations.no_duplicates(),
{
    let pages = pruned(store, seen).pages;
    let kept = store.relations.filter(edge_listed(seen));
    lemma_filter_members(store.relations, edge_listed(seen));
    if store.relations.no_duplicates() {
        lemma_filter_distinct(store.relations, edge_listed(seen));
    }
    lemma_translations_members(kept, pages);
    assert forall|i: int| 0 <= i < pages.len() implies ((
    #[trigger] pages[i]).translation_of matches Some(base) ==> {
        let id = pages[i].id;
        &&& pruned(store, seen).relations.contains(translation_edge(id, base))
        &&& pruned(store, seen).relations.contains(translation_edge(base, id))
    }) by {
        if pages[i].translation_of is Some {
            let base = pages[i].translation_of->0;
            assert(between_translations(pages, translation_edge(pages[i].id, base)));
            assert(between_translations(pages, translation_edge(base, pages[i].id)));
        }
    }
}

/// No edge of a pruned graph touches a page that was not seen, where each
/// translation that was seen leads to a page that was seen too.
pub proof fn law_pruned_graph_has_no_ghosts(store: StoreModel, seen: Seq<Seq<char>>)
    requires
        bases_seen(store, seen),
    ensures
        forall|r: RelationModel| #[trigger]
            pruned(store, seen).relations.contains(r) ==> known_edge(seen, r),
        pruned(pruned(store, seen), seen) == pruned(store, seen),
{
    let d = pruned(store, seen);
    law_pruned_edges(store, seen);
    law_pruned_pages_were_seen(store, seen);
    assert forall|r: RelationModel| #[trigger] d.relations.contains(r) implies known_edge(
        seen,
        r,
    ) by {
        if between_translations(d.pages, r) {
            let i = choose|i: int|
                {
                    &&& 0 <= i < d.pages.len()
                    &&& (#[trigger] d.pages[i]).translation_of matches Some(base)
                    &&& r == translation_edge(d.pages[i].id, base) || r == translation_edge(
                        base,
                        d.pages[i].id,
                    )
                };
            let p = d.pages[i];
            assert(d.pages.contains(p));
            let j = choose|j: int| 0 <= j < store.pages.len() && store.pages[j] == p;
            assert(seen.contains(store.pages[j].id));
        }
    }
    lemma_filter_twice(store.pages, page_listed(seen));
    assert forall|i: int| 0 <= i < d.relations.len() implies edge_listed(seen)(
        #[trigger] d.relations[i],
    ) by {
        assert(d.relations.contains(d.relations[i]));
    }
    lemma_filter_all(d.relations, edge_listed(seen));
    lemma_translations_there(d.relations, d.pages, d.pages.len() as int);
    assert(d.pages.take(d.pages.len() as int) =~= d.pages);
    let e = pruned(d, seen);
    assert forall|i: int| 0 <= i < store.topics.len() implies e.topics[i] == d.topics[i] by {
        lemma_filter_twice(store.topics[i].page_ids, is_listed(seen, true));
    }
    assert(e.topics =~= d.topics);
}

/// Edges that are there are not added.
proof fn lemma_translations_there(rels: Seq<RelationModel>, pages: Seq<PageModel>, n: int)
    requires
        0 <= n <= pages.len(),
        forall|i: int|
            0 <= i < pages.len() ==> ((#[trigger] pages[i]).translation_of matches Some(base) ==> {
                &&& rels.contains(translation_edge(pages[i].id, base))
                &&& rels.contains(translation_edge(base, pages[i].id))
            }),
    ensures
        with_translations(rels, pages.take(n)) == rels,
    decreases n,
{
    if n > 0 {
        assert(pages.take(n).drop_last() =~= pages.take(n - 1));
        assert(pages.take(n).last() == pages[n - 1]);
        lemma_translations_there(rels, pages, n - 1);
    }
}

proof fn lemma_filter_distinct<A>(s: Seq<A>, keep: spec_fn(A) -> bool)
    requires
        s.no_duplicates(),
    ensures
        s.filter(keep).no_duplicates(),
    decreases s.len(),
{
    reveal(Seq::filter);
    if s.len() > 0 {
        let rest = s.drop_last();
        assert(rest.no_duplicates());
        lemma_filter_distinct(rest, keep);
        lemma_filter_members(rest, keep);
        let f = s.filter(keep);
        let g = rest.filter(keep);
        assert forall|i: int, j: int| 0 <= i < f.len() && 0 <= j < f.len() && i != j implies f[i]
            != f[j] by {
            if i < g.len() {
                assert(g.contains(g[i]));
            }
            if j < g.len() {
                assert(g.contains(g[j]));
            }
        }
    }
}

/// What is kept is what was there and is to be kept.
pub proof fn lemma_filter_members<A>(s: Seq<A>, keep: spec_fn(A) -> bool)
    ensures
        forall|x: A| #[trigger] s.filter(keep).contains(x) <==> s.contains(x) && keep(x),
    decreases s.len(),
{
    reveal(Seq::filter);
    if s.len() > 0 {
        let rest = s.drop_last();
        lemma_filter_members(rest, keep);
        let f = s.filter(keep);
        let g = rest.filter(keep);
        assert forall|x: A| #[trigger] f.contains(x) <==> s.contains(x) && keep(x) by {
            if f.contains(x) {
                let i = choose|i: int| 0 <= i < f.len() && f[i] == x;
                if i < g.len() {
                    assert(g[i] == x);
                    assert(g.contains(x));
                    let j = choose|j: int| 0 <= j < rest.len() && rest[j] == x;
                    assert(s[j] == x);
                } else {
                    assert(x == s.last());
                    assert(s[s.len() - 1] == x);
                }
            }
            if s.contains(x) && keep(x) {
                let j = choose|j: int| 0 <= j < s.len() && s[j] == x;
                if j < rest.len() {
                    assert(rest[j] == x);
                    assert(g.contains(x));
                    let i = choose|i: int| 0 <= i < g.len() && g[i] == x;
                    assert(f[i] == x);
                } else {
                    assert(f.last() == x);
                    assert(f[f.len() - 1] == x);
                }
            }
        }
    }
}

proof fn lemma_filter_all<A>(s: Seq<A>, keep: spec_fn(A) -> bool)
    requires
        forall|i: int| 0 <= i < s.len() ==> keep(#[trigger] s[i]),
    ensures
        s.filter(keep) == s,
    decreases s.len(),
{
    reveal(Seq::filter);
    if s.len() > 0 {
        assert(keep(s[s.len() - 1]));
        assert(forall|i: int| 0 <= i < s.len() - 1 ==> s.drop_last()[i] == s[i]);
        lemma_filter_all(s.drop_last(), keep);
        assert(s.drop_last().push(s.last()) =~= s);
    }
}

proof fn lemma_filter_twice<A>(s: Seq<A>, keep: spec_fn(A) -> bool)
    ensures
        s.filter(keep).filter(keep) == s.filter(keep),
{
    let f = s.filter(keep);
    lemma_filter_members(s, keep);
    assert forall|i: int| 0 <= i < f.len() implies keep(#[trigger] f[i]) by {
        assert(f.contains(f[i]));
    }
    lemma_filter_all(f, keep);
}

/// Exactly the pages are hidden that are in another language than the default one and
/// have the hash, not empty, of another page of their group; the group of a page is the
/// page that it translates, or the page itself. A page that is hidden asks not to be
/// indexed and is not in the sitemap, and stays as it is otherwise; the order of the
/// pages stays.
pub proof fn law_what_is_hidden(pages: Seq<PageModel>, default_lang: Seq<char>, i: int)
    requires
        0 <= i < pages.len(),
    ensures
        marked(pages, default_lang).len() == pages.len(),
        ({
            let p = pages[i];
            let after = marked(pages, default_lang)[i];
            let in_name_only = p.lang != default_lang && p.content_hash.len() > 0 && exists|j: int|
                {
                    &&& 0 <= j < pages.len()
                    &&& j != i
                    &&& (#[trigger] pages[j]).content_hash == p.content_hash
                    &&& pages[j].translation_of.unwrap_or(pages[j].id) == p.translation_of.unwrap_or(
                        p.id,
                    )
                };
            &&& in_name_only ==> after == (PageModel { noindex: true, sitemap: false, ..p })
            &&& !in_name_only ==> after == p
        }),
{
    let p = pages[i];
    if has_twin(pages, i) {
        let j = choose|j: int|
            {
                &&& 0 <= j < pages.len()
                &&& j != i
                &&& group_of(#[trigger] pages[j]) == group_of(pages[i])
                &&& pages[j].content_hash == pages[i].content_hash
            };
        assert(pages[j].content_hash == p.content_hash && pages[j].translation_of.unwrap_or(
            pages[j].id,
        ) == p.translation_of.unwrap_or(p.id));
    }
    if p.content_hash.len() > 0 && exists|j: int|
        {
            &&& 0 <= j < pages.len()
            &&& j != i
            &&& (#[trigger] pages[j]).content_hash == p.content_hash
            &&& pages[j].translation_of.unwrap_or(pages[j].id) == p.translation_of.unwrap_or(p.id)
        } {
        let j = choose|j: int|
            {
                &&& 0 <= j < pages.len()
                &&& j != i
                &&& (#[trigger] pages[j]).content_hash == p.content_hash
                &&& pages[j].translation_of.unwrap_or(pages[j].id) == p.translation_of.unwrap_or(
                    p.id,
                )
            };
        assert(group_of(pages[j]) == group_of(pages[i]));
    }
}

/// An edge that is added stands last, where it was not there; an edge that differs in
/// its start, its end or its kind is another one.
pub proof fn law_edge_is_added_last(rels: Seq<RelationModel>, rel: RelationModel)
    ensures
        (exists|i: int|
            0 <= i < rels.len() && (#[trigger] rels[i]).from == rel.from && rels[i].to == rel.to
                && rels[i].kind == rel.kind) ==> upserted(rels, rel) == rels,
        (forall|i: int|
            0 <= i < rels.len() ==> (#[trigger] rels[i]).from != rel.from || rels[i].to != rel.to
                || rels[i].kind != rel.kind) ==> upserted(rels, rel) == rels + seq![rel],
{
    if exists|i: int|
        0 <= i < rels.len() && (#[trigger] rels[i]).from == rel.from && rels[i].to == rel.to
            && rels[i].kind == rel.kind {
        let i = choose|i: int|
            0 <= i < rels.len() && (#[trigger] rels[i]).from == rel.from && rels[i].to == rel.to
                && rels[i].kind == rel.kind;
        assert(rels[i] == rel);
        assert(rels.contains(rel));
    } else {
        assert(upserted(rels, rel) =~= rels + seq![rel]);
    }
}

proof fn lemma_filter_push<A>(s: Seq<A>, x: A, keep: spec_fn(A) -> bool)
    ensures
        s.push(x).filter(keep) == if keep(x) {
            s.filter(keep).push(x)
        } else {
            s.filter(keep)
        },
        Seq::<A>::empty().filter(keep) == Seq::<A>::empty(),
{
    reveal(Seq::filter);
    assert(s.push(x).drop_last() =~= s);
}

/// Detaching goes edge by edge, and keeps their order: exactly the edges of the kind
/// `page_topic` that start at the page go. Pages, organizations, claims and where the
/// graph came from stay, and so do the topics, each without the page and with its other
/// pages in their order.
pub proof fn law_detaching_edges(store: StoreModel, url: Seq<char>, r: RelationModel)
    ensures
        detached(StoreModel { relations: store.relations.push(r), ..store }, url).relations
            == if r.from == url && r.kind == "page_topic"@ {
            detached(store, url).relations
        } else {
            detached(store, url).relations.push(r)
        },
        detached(store, url).pages == store.pages,
        detached(store, url).organizations == store.organizations,
        detached(store, url).claims == store.claims,
        detached(store, url).meta == store.meta,
        detached(store, url).topics.len() == store.topics.len(),
        forall|i: int|
            0 <= i < store.topics.len() ==> {
                let t = store.topics[i];
                let d = #[trigger] detached(store, url).topics[i];
                d.id == t.id && d.label == t.label && d.aliases == t.aliases && d.page_ids
                    == t.page_ids.filter(|id: Seq<char>| id != url)
            },
{
    lemma_filter_push(store.relations, r, other_edge(url));
    assert(other_than(url) =~= |id: Seq<char>| id != url);
}

/// Pruning goes page by page, and keeps their order: exactly the pages stay that were
/// seen. The topics stay, each with those of its pages that were seen, in their order;
/// organizations, claims and where the graph came from stay as they are.
pub proof fn law_pruning_pages(store: StoreModel, seen: Seq<Seq<char>>, p: PageModel)
    ensures
        pruned(StoreModel { pages: store.pages.push(p), ..store }, seen).pages == if seen.contains(
            p.id,
        ) {
            pruned(store, seen).pages.push(p)
        } else {
            pruned(store, seen).pages
        },
        store.pages.len() == 0 ==> pruned(store, seen).pages.len() == 0,
        pruned(store, seen).organizations == store.organizations,
        pruned(store, seen).claims == store.claims,
        pruned(store, seen).meta == store.meta,
        pruned(store, seen).topics.len() == store.topics.len(),
        forall|i: int|
            0 <= i < store.topics.len() ==> {
                let t = store.topics[i];
                let d = #[trigger] pruned(store, seen).topics[i];
                d.id == t.id && d.label == t.label && d.aliases == t.aliases && d.page_ids
                    == t.page_ids.filter(|id: Seq<char>| seen.contains(id))
            },
{
    lemma_filter_push(store.pages, p, page_listed(seen));
    if store.pages.len() == 0 {
        assert(store.pages =~= Seq::<PageModel>::empty());
    }
    assert(is_listed(seen, true) =~= |id: Seq<char>| seen.contains(id));
}

/// Pruning goes edge by edge where nothing is a translation, and keeps their order:
/// exactly the edges go of which an end begins with `content/` and was not seen.
pub proof fn law_pruning_edges(store: StoreModel, seen: Seq<Seq<char>>, r: RelationModel)
    requires
        forall|i: int| 0 <= i < store.pages.len() ==> (#[trigger] store.pages[i]).translation_of is None,
    ensures
        pruned(StoreModel { relations: store.relations.push(r), ..store }, seen).relations == if (
        "content/"@.is_prefix_of(r.from) && !seen.contains(r.from)) || ("content/"@.is_prefix_of(
            r.to,
        ) && !seen.contains(r.to)) {
            pruned(store, seen).relations
        } else {
            pruned(store, seen).relations.push(r)
        },
        store.relations.len() == 0 ==> pruned(store, seen).relations.len() == 0,
{
    lemma_filter_push(store.relations, r, edge_listed(seen));
    let pages = store.pages.filter(page_listed(seen));
    lemma_filter_members(store.pages, page_listed(seen));
    assert forall|i: int| 0 <= i < pages.len() implies (#[trigger] pages[i]).translation_of is None by {
        assert(pages.contains(pages[i]));
        let j = choose|j: int| 0 <= j < store.pages.len() && store.pages[j] == pages[i];
        assert(store.pages[j].translation_of is None);
    }
    let all = store.relations.push(r).filter(edge_listed(seen));
    let rels = store.relations.filter(edge_listed(seen));
    lemma_translations_there(rels, pages, pages.len() as int);
    lemma_translations_there(all, pages, pages.len() as int);
    assert(pages.take(pages.len() as int) =~= pages);
    if store.relations.len() == 0 {
        assert(store.relations =~= Seq::<RelationModel>::empty());
    }
}

/// A translation that was seen is joined to what it translates by two edges of the kind
/// `translation`, there and back; and an edge that a pruned graph has and did not have
/// before is one of those.
pub proof fn law_translations_are_joined(store: StoreModel, seen: Seq<Seq<char>>, i: int)
    ensures
        0 <= i < store.pages.len() && seen.contains(store.pages[i].id) ==> {
            store.pages[i].translation_of matches Some(base) ==> {
                &&& pruned(store, seen).relations.contains(
                    RelationModel { from: store.pages[i].id, to: base, kind: "translation"@ },
                )
                &&& pruned(store, seen).relations.contains(
                    RelationModel { from: base, to: store.pages[i].id, kind: "translation"@ },
                )
            }
        },
        forall|r: RelationModel| #[trigger]
            pruned(store, seen).relations.contains(r) && !store.relations.contains(r) ==> {
                &&& r.kind == "translation"@
                &&& exists|j: int|
                    {
                        &&& 0 <= j < store.pages.len()
                        &&& seen.contains((#[trigger] store.pages[j]).id)
                        &&& (store.pages[j].id == r.from && store.pages[j].translation_of == Some(
                            r.to,
                        )) || (store.pages[j].id == r.to && store.pages[j].translation_of == Some(
                            r.from,
                        ))
                    }
            },
{
    let d = pruned(store, seen);
    law_pruned_edges(store, seen);
    law_pruned_pages_were_seen(store, seen);
    if 0 <= i < store.pages.len() && seen.contains(store.pages[i].id) {
        assert(store.pages.contains(store.pages[i]));
        assert(d.pages.contains(store.pages[i]));
        let k = choose|k: int| 0 <= k < d.pages.len() && d.pages[k] == store.pages[i];
        assert(d.pages[k].id == store.pages[i].id);
    }
    assert forall|r: RelationModel| #[trigger]
        d.relations.contains(r) && !store.relations.contains(r) implies r.kind == "translation"@
        && exists|j: int|
        {
            &&& 0 <= j < store.pages.len()
            &&& seen.contains((#[trigger] store.pages[j]).id)
            &&& (store.pages[j].id == r.from && store.pages[j].translation_of == Some(r.to)) || (
            store.pages[j].id == r.to && store.pages[j].translation_of == Some(r.from))
        } by {
        assert(between_translations(d.pages, r));
        let k = choose|k: int|
            {
                &&& 0 <= k < d.pages.len()
                &&& (#[trigger] d.pages[k]).translation_of matches Some(base)
                &&& r == translation_edge(d.pages[k].id, base) || r == translation_edge(
                    base,
                    d.pages[k].id,
                )
            };
        let p = d.pages[k];
        assert(d.pages.contains(p));
        let j = choose|j: int| 0 <= j < store.pages.len() && store.pages[j] == p;
        assert(seen.contains(store.pages[j].id));
    }
}

} // verus!
