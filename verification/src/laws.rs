//! What the operations of the library are for, stated over their inputs and results.
pub mod answers;
pub mod approval;
pub mod changes;
pub mod commands;
pub mod contexts;
pub mod copies;
pub mod corrections;
pub mod drafts;
pub mod evaluations;
pub mod journals;
pub mod money;
pub mod outcomes;
pub mod pipeline;
pub mod plots;
pub mod projects;
pub mod provider;
pub mod reports;
pub mod runs;
pub mod schemas;
pub mod skills;
pub mod sources;
pub mod texts;
pub mod tools;
pub mod web;
pub mod words;
