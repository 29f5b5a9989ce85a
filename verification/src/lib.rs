//! A verified catalog-search engine: text-similarity primitives, a
//! per-entry relevance scorer, and a stable ranker, together with the
//! query and record types they operate on.
pub mod bigram;
pub mod config;
pub mod edit;
pub mod lake;
pub mod rank;
pub mod score;
pub mod search;
pub mod similarity;
pub mod template;
pub mod text;
pub mod tokens;
pub mod util;
pub mod yaml_template;
