//! Blast: a config-driven API load tester and traffic generator.
//!
//! This crate holds the logic of Blast: configuration checking, request
//! templating with placeholders, value extraction from JSON responses, the
//! scheduling decisions of the load, seed and stress commands, and the
//! statistics that they report.

pub mod commands;
pub mod config;
pub mod error;
pub mod extractor;
pub mod json;
pub mod laws;
pub mod napi_bindings;
pub mod runner;
pub mod stats;
pub mod strmap;
pub mod template;
pub mod text;
