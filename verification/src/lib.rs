//! Probing of domain lists for exposed paths: the rule model, the DNS cache,
//! the scan engine and the worker protocol, as verified logic.

pub mod config;
pub mod db;
pub mod distributed;
pub mod keyed;
pub mod resolver;
pub mod rules;
pub mod scanner;
pub mod text;
pub mod utils;

pub use config::ScanConfig;
pub use rules::{Rule, RuleSet, Severity};
