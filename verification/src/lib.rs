//! Verified core of a code search engine.
pub mod chars;
pub mod chunks;
pub mod cli;
pub mod commands;
pub mod delegate;
pub mod filetable;
pub mod fusion;
pub mod glob;
pub mod imports;
pub mod indexing;
pub mod json;
pub mod literal;
pub mod lmdb_registry;
pub mod logger;
pub mod manager;
pub mod metadata;
pub mod numbers;
pub mod output;
pub mod paths;
pub mod pattern;
pub mod pipeline;
pub mod placement;
pub mod proxy;
pub mod query;
pub mod regexes;
pub mod routing;
pub mod score;
pub mod search;
pub mod semantic;
pub mod server;
pub mod sorting;
pub mod status;
pub mod symbols;
pub mod text;
pub mod tools;
pub mod types;
