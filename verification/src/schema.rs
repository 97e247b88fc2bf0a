//! The nodes and edges of the graph of a site.
use vstd::prelude::*;

use crate::text;

verus! {

/// A page of the site.
#[derive(Clone, Debug, PartialEq, Eq)]
pub struct Page {
    pub id: String,
    pub canonical_path: String,
    pub path: String,
    pub title: String,
    pub h1: String,
    pub word_count: u32,
    pub stub: bool,
    pub thin: bool,
    pub noindex: bool,
    pub sitemap: bool,
    pub lang: String,
    pub translation_of: Option<String>,
    pub author: Option<String>,
    pub date_published: Option<String>,
    pub date_modified: Option<String>,
    pub og_image: Option<String>,
    pub schema_types: Vec<String>,
    pub summary: String,
    pub content_hash: String,
    pub topic_ids: Vec<String>,
    pub overview: Option<String>,
}

/// What a page says.
pub struct PageModel {
    pub id: Seq<char>,
    pub canonical_path: Seq<char>,
    pub path: Seq<char>,
    pub title: Seq<char>,
    pub h1: Seq<char>,
    pub word_count: u32,
    pub stub: bool,
    pub thin: bool,
    pub noindex: bool,
    pub sitemap: bool,
    pub lang: Seq<char>,
    pub translation_of: Option<Seq<char>>,
    pub author: Option<Seq<char>>,
    pub date_published: Option<Seq<char>>,
    pub date_modified: Option<Seq<char>>,
    pub og_image: Option<Seq<char>>,
    pub schema_types: Seq<Seq<char>>,
    pub summary: Seq<char>,
    pub content_hash: Seq<char>,
    pub topic_ids: Seq<Seq<char>>,
    pub overview: Option<Seq<char>>,
}

impl View for Page {
    type V = PageModel;

    open spec fn view(&self) -> PageModel {
        PageModel {
            id: self.id@,
            canonical_path: self.canonical_path@,
            path: self.path@,
            title: self.title@,
            h1: self.h1@,
            word_count: self.word_count,
            stub: self.stub,
            thin: self.thin,
            noindex: self.noindex,
            sitemap: self.sitemap,
            lang: self.lang@,
            translation_of: text::opt_view(self.translation_of),
            author: text::opt_view(self.author),
            date_published: text::opt_view(self.date_published),
            date_modified: text::opt_view(self.date_modified),
            og_image: text::opt_view(self.og_image),
            schema_types: text::views(self.schema_types@),
            summary: self.summary@,
            content_hash: self.content_hash@,
            topic_ids: text::views(self.topic_ids@),
            overview: text::opt_view(self.overview),
        }
    }
}

/// A page that says nothing.
pub open spec fn blank_page() -> PageModel {
    PageModel {
        id: Seq::empty(),
        canonical_path: Seq::empty(),
        path: Seq::empty(),
        title: Seq::empty(),
        h1: Seq::empty(),
        word_count: 0,
        stub: false,
        thin: false,
        noindex: false,
        sitemap: false,
        lang: Seq::empty(),
        translation_of: None,
        author: None,
        date_published: None,
        date_modified: None,
        og_image: None,
        schema_types: Seq::empty(),
        summary: Seq::empty(),
        content_hash: Seq::empty(),
        topic_ids: Seq::empty(),
        overview: None,
    }
}

impl Default for Page {
    fn default() -> (p: Self)
        ensures
            p@ == blank_page(),
    {
        let p: Page = Page {
            id: String::new(),
            canonical_path: String::new(),
            path: String::new(),
            title: String::new(),
            h1: String::new(),
            word_count: 0,
            stub: false,
            thin: false,
            noindex: false,
            sitemap: false,
            lang: String::new(),
            translation_of: None,
            author: None,
            date_published: None,
            date_modified: None,
            og_image: None,
            schema_types: Vec::new(),
            summary: String::new(),
            content_hash: String::new(),
            topic_ids: Vec::new(),
            overview: None,
        };
        assert(p@.schema_types =~= blank_page().schema_types);
        assert(p@.topic_ids =~= blank_page().topic_ids);
        p
    }
}

/// A topic, and the pages that treat it.
#[derive(Clone, Debug, PartialEq, Eq)]
pub struct Topic {
    pub id: String,
    pub label: String,
    pub aliases: Vec<String>,
    pub page_ids: Vec<String>,
}

/// What a topic says.
pub struct TopicModel {
    pub id: Seq<char>,
    pub label: Seq<char>,
    pub aliases: Seq<Seq<char>>,
    pub page_ids: Seq<Seq<char>>,
}

impl View for Topic {
    type V = TopicModel;

    open spec fn view(&self) -> TopicModel {
        TopicModel {
            id: self.id@,
            label: self.label@,
            aliases: text::views(self.aliases@),
            page_ids: text::views(self.page_ids@),
        }
    }
}

/// An edge of the graph.
#[derive(Debug, PartialEq, Eq)]
pub struct Relation {
    pub from: String,
    pub to: String,
    pub kind: String,
}

/// What an edge says.
pub struct RelationModel {
    pub from: Seq<char>,
    pub to: Seq<char>,
    pub kind: Seq<char>,
}

impl View for Relation {
    type V = RelationModel;

    open spec fn view(&self) -> RelationModel {
        RelationModel { from: self.from@, to: self.to@, kind: self.kind@ }
    }
}

impl Clone for Relation {
    fn clone(&self) -> (r: Self)
        ensures
            r@ == self@,
    {
        Relation { from: self.from.clone(), to: self.to.clone(), kind: self.kind.clone() }
    }
}

/// An organization behind the site.
#[derive(Clone, Debug, PartialEq, Eq)]
pub struct Organization {
    pub id: String,
    pub name: String,
    pub url: String,
    pub logo: String,
    pub same_as: Vec<String>,
}

/// What is said of an organization.
pub struct OrganizationModel {
    pub id: Seq<char>,
    pub name: Seq<char>,
    pub url: Seq<char>,
    pub logo: Seq<char>,
    pub same_as: Seq<Seq<char>>,
}

impl View for Organization {
    type V = OrganizationModel;

    open spec fn view(&self) -> OrganizationModel {
        OrganizationModel {
            id: self.id@,
            name: self.name@,
            url: self.url@,
            logo: self.logo@,
            same_as: text::views(self.same_as@),
        }
    }
}

/// Where the graph came from, and when it was last refreshed.
#[derive(Clone, Debug, PartialEq, Eq)]
pub struct Meta {
    pub source_origin: String,
    pub last_refresh: String,
}

/// What is said of a graph.
pub struct MetaModel {
    pub source_origin: Seq<char>,
    pub last_refresh: Seq<char>,
}

impl View for Meta {
    type V = MetaModel;

    open spec fn view(&self) -> MetaModel {
        MetaModel { source_origin: self.source_origin@, last_refresh: self.last_refresh@ }
    }
}

/// The graph of a site.
#[derive(Clone, Debug, PartialEq, Eq)]
pub struct GraphStore {
    pub pages: Vec<Page>,
    pub topics: Vec<Topic>,
    pub relations: Vec<Relation>,
    pub organizations: Vec<Organization>,
    /// Claims of the site, each as the text that it is stored as. Nothing here
    /// reads or changes them.
    pub claims: Vec<String>,
    pub meta: Meta,
}

/// What a graph says.
#[verifier::ext_equal]
pub struct StoreModel {
    pub pages: Seq<PageModel>,
    pub topics: Seq<TopicModel>,
    pub relations: Seq<RelationModel>,
    pub organizations: Seq<OrganizationModel>,
    pub claims: Seq<Seq<char>>,
    pub meta: MetaModel,
}

/// What each of some pages says.
pub open spec fn page_models(v: Seq<Page>) -> Seq<PageModel> {
    v.map_values(|p: Page| p@)
}

/// What each of some topics says.
pub open spec fn topic_models(v: Seq<Topic>) -> Seq<TopicModel> {
    v.map_values(|t: Topic| t@)
}

/// What each of some edges says.
pub open spec fn relation_models(v: Seq<Relation>) -> Seq<RelationModel> {
    v.map_values(|r: Relation| r@)
}

/// What is said of each of some organizations.
pub open spec fn organization_models(v: Seq<Organization>) -> Seq<OrganizationModel> {
    v.map_values(|o: Organization| o@)
}

impl View for GraphStore {
    type V = StoreModel;

    open spec fn view(&self) -> StoreModel {
        StoreModel {
            pages: page_models(self.pages@),
            topics: topic_models(self.topics@),
            relations: relation_models(self.relations@),
            organizations: organization_models(self.organizations@),
            claims: text::views(self.claims@),
            meta: self.meta@,
        }
    }
}

impl Default for GraphStore {
    fn default() -> (s: Self)
        ensures
            s@ == (StoreModel {
                pages: Seq::empty(),
                topics: Seq::empty(),
                relations: Seq::empty(),
                organizations: Seq::empty(),
                claims: Seq::empty(),
                meta: MetaModel { source_origin: Seq::empty(), last_refresh: Seq::empty() },
            }),
    {
        let s: GraphStore = GraphStore {
            pages: Vec::new(),
            topics: Vec::new(),
            relations: Vec::new(),
            organizations: Vec::new(),
            claims: Vec::new(),
            meta: Meta { source_origin: String::new(), last_refresh: String::new() },
        };
        assert(s@.pages =~= Seq::<PageModel>::empty());
        assert(s@.topics =~= Seq::<TopicModel>::empty());
        assert(s@.relations =~= Seq::<RelationModel>::empty());
        assert(s@.organizations =~= Seq::<OrganizationModel>::empty());
        assert(s@.claims =~= Seq::<Seq<char>>::empty());
        s
    }
}

} // verus!
