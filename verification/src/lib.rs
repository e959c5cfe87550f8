//! The logic of a web research service: what it searches for, how it ranks
//! and reads what it finds, what it asks the language model and how it reads
//! the answers, where it caches, and what it answers; each function with a
//! contract proved by Verus.
pub mod text;
pub mod hash;
pub mod query_expansion;
pub mod url_validator;
pub mod models;
pub mod ranking;
pub mod extractors;
pub mod code_repo;
pub mod pipeline;
pub mod mcp;
pub mod cache;
pub mod video;
pub mod crawler;
pub mod html;
pub mod search;
pub mod llm;
pub mod tree;
pub mod media;
pub mod config;
