//! A cautious disk cleaner: the rules, the planning, the provider analyses
//! and the bookkeeping, kept free of input and output.

pub mod action;
pub mod cli;
pub mod compiler;
pub mod config;
pub mod discovery;
pub mod engine;
pub mod execution;
pub mod gitignore;
pub mod globs;
pub mod hashing;
pub mod json;
pub mod matcher;
pub mod paths;
pub mod providers;
pub mod report;
pub mod rules;
pub mod scanner;
pub mod selection;
pub mod seqs;
pub mod sizes;
pub mod sorting;
pub mod taxonomy;
pub mod text;
pub mod walk;
