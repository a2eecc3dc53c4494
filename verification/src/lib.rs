//! A mock DNS server's core: the record store, record-data parsing,
//! the fallback response cache and the query resolution steps.

pub mod text;
pub mod parse;
pub mod names;
pub mod svcb;
pub mod rdata;
pub mod dns;
pub mod wire;
pub mod config;
pub mod http;
pub mod client;
pub mod models;
pub mod store;
pub mod cache;
pub mod laws;
