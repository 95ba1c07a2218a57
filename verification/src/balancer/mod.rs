//! Requests of clients: checking them, caching what they give, and answering them.

pub mod accept_http;
pub mod cache_rules;
pub mod format;
pub mod processing;
pub mod response_errors;
