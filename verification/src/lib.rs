//! Verified core of a web-scraping job service: job and user domain types,
//! selector parsing, document querying, extraction, job scheduling decisions
//! and the rules of the HTTP API.

pub mod text;
pub mod domain;
pub mod selector;
pub mod dom;
pub mod json;
pub mod extract;
pub mod scrape;
pub mod time;
pub mod entities;
pub mod db;
pub mod services;
pub mod ids;
pub mod api;
