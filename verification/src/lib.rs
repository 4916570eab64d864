//! Verified core of a writing assistant.
pub mod binding;
pub mod candidate;
pub mod changeset;
pub mod cli;
pub mod compile;
pub mod context;
pub mod copycheck;
pub mod copyindex;
pub mod copytext;
pub mod cost;
pub mod domain;
pub mod eval;
pub mod findings;
pub mod grants;
pub mod hash;
pub mod journal;
pub mod json;
pub mod laws;
pub mod model;
pub mod number;
pub mod openrouter;
pub mod order;
pub mod paths;
pub mod plot;
pub mod project;
pub mod receipt;
pub mod records;
pub mod repl;
pub mod sandbox;
pub mod schema;
pub mod session;
pub mod skills;
pub mod sources;
pub mod table;
pub mod text;
pub mod tools;
pub mod transaction;
pub mod unicode;
pub mod validation;
pub mod value;
pub mod web;
pub mod workflow;
