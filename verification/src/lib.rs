//! Knowledge-graph refresh and page translation for a Zola site.
pub mod chunk;
pub mod digest;
pub mod endpoint;
pub mod entries;
pub mod facts;
pub mod failure;
pub mod graph;
pub mod heading;
pub mod json_value;
pub mod locale;
pub mod number;
pub mod openrouter;
pub mod order;
pub mod overview;
pub mod page;
pub mod refresh_run;
pub mod schema;
pub mod settings;
pub mod site;
pub mod text;
pub mod toml_value;
pub mod translate;
pub mod translate_run;
