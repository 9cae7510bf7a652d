//! Educe: a meta search engine core.
pub mod text;
pub mod models;
pub mod dns;
pub mod engines;
pub mod cache;
pub mod config;
pub mod custom;
pub mod prefs;
pub mod runtime;
pub mod search;
pub mod http;
pub mod jsrender;
pub mod cli;
pub mod tls;
