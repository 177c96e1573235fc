//! Verified core of a personal blog's tool set: markdown indexing plans,
//! search result assembly, front matter handling, post checks and helpers.

pub mod text;
pub mod indexing;
pub mod excerpt;
pub mod search;
pub mod front_matter;
pub mod tokenizer;
pub mod post_check;
pub mod post_meta;
pub mod paths;
pub mod metadata;
pub mod maintenance;
