use zola_graph::schema::{GraphStore, Organization};
use zola_graph::site::{seed_organization, slug, GraphSiteConfig};
use zola_graph::toml_value::parse_toml;

#[test]
fn extra_graph_wins() {
    let cfg = parse_toml(
        r#"
title = "Ignored Title"
[extra.graph]
org_id = "org:acme"
org_name = "Acme"
org_logo = "/logo.webp"
pillars = ["content/_index.md"]
no_related = [["content/_index.md", "content/other/index.md"]]
required_redirects = [["/a/", "/b/"]]
"#,
    )
    .unwrap();
    let s = GraphSiteConfig::from_toml(&cfg);
    let org = s.organization().unwrap();
    assert_eq!(org.id, "org:acme");
    assert_eq!(org.name, "Acme");
    assert_eq!(org.logo, "/logo.webp");
    assert!(s.is_pillar("content/_index.md"));
    assert_eq!(s.no_related[0].1, "content/other/index.md");
    assert_eq!(s.required_redirects[0], ("/a/".into(), "/b/".into()));
}

#[test]
fn title_fallback_slugs_org_id() {
    let cfg = parse_toml("title = \"Acme Labs\"\n").unwrap();
    let s = GraphSiteConfig::from_toml(&cfg);
    let org = s.organization().unwrap();
    assert_eq!(org.id, "org:acme-labs");
    assert_eq!(org.name, "Acme Labs");
    assert!(s.pillars.is_empty());
    assert!(s.no_related.is_empty());
}

#[test]
fn empty_config_seeds_nothing() {
    let s = GraphSiteConfig::from_toml(&parse_toml("base_url = \"https://x/\"\n").unwrap());
    assert!(s.organization().is_none());
    let mut store = GraphStore::default();
    seed_organization(&mut store, &s);
    assert!(store.organizations.is_empty());
}

#[test]
fn seeding_fills_only_an_empty_list() {
    let s = GraphSiteConfig::load("title = \" Acme \"\n").unwrap();
    let mut store = GraphStore::default();
    seed_organization(&mut store, &s);
    assert_eq!(store.organizations.len(), 1);
    assert_eq!(
        store.organizations[0],
        Organization {
            id: "org:acme".into(),
            name: "Acme".into(),
            url: String::new(),
            logo: String::new(),
            same_as: vec![],
        }
    );
    let other = GraphSiteConfig::load("title = \"Other\"\n").unwrap();
    seed_organization(&mut store, &other);
    assert_eq!(store.organizations.len(), 1);
    assert_eq!(store.organizations[0].name, "Acme");
}

#[test]
fn lists_are_trimmed_and_malformed_entries_dropped() {
    let s = GraphSiteConfig::load(
        "description = \" d \"\n[extra.graph]\npillars = [\" a \", \"\", 3, \"b\"]\nno_related = [[\" x \", \"y \"], [\"z\"], \"w\", [\"p\", 1], [\"\", \"q\"]]\nrequired_redirects = \"none\"\noverview_instruction = \"  \"\norg_name = \" Acme, Inc. \"\n",
    )
    .unwrap();
    assert_eq!(s.description, "d");
    assert_eq!(s.pillars, vec!["a", "b"]);
    assert_eq!(
        s.no_related,
        vec![("x".to_string(), "y".to_string()), (String::new(), "q".to_string())]
    );
    assert!(s.required_redirects.is_empty());
    assert_eq!(s.overview_instruction, None);
    assert_eq!(s.org_name, "Acme, Inc.");
    assert_eq!(s.org_id, "org:acme-inc");
    assert!(!s.is_pillar(" a "));
}

#[test]
fn slugs_are_tidy() {
    assert_eq!(slug("  Hello,  World! "), "hello-world");
    assert_eq!(slug("--A--b--"), "a-b");
    assert_eq!(slug("Ünïcode 9"), "n-code-9");
    assert_eq!(slug("!!!"), "");
}

#[test]
fn broken_configuration_is_an_error_or_the_default() {
    let err = GraphSiteConfig::load("title = ").unwrap_err();
    assert!(err.message().starts_with("parse config: TOML parse error"));
    assert_eq!(GraphSiteConfig::load_optional(Some("title = ")), GraphSiteConfig::default());
    assert_eq!(GraphSiteConfig::load_optional(None), GraphSiteConfig::default());
    assert_eq!(GraphSiteConfig::load_optional(Some("title = \"A\"")).title, "A");
}

#[test]
fn a_site_with_a_name_has_an_organization_under_its_id() {
    let s = GraphSiteConfig::load("[extra.graph]\norg_name = \"!!!\"\n").unwrap();
    let org = s.organization().unwrap();
    assert_eq!(org.id, s.org_id);
    assert_eq!(org.id, "org:");
    let bare = GraphSiteConfig { org_name: "A B".to_string(), ..GraphSiteConfig::default() };
    assert_eq!(bare.organization().unwrap().id, "org:a-b");
}
