//! The dashboard's settings, as loaded at startup.
use vstd::prelude::*;

verus! {

/// Name and description of the deployment, log level, seconds between
/// scrapes, and the addresses of the nodes to scrape.
pub struct Parameters {
    pub name: String,
    pub description: String,
    pub log_level: String,
    pub scrape_duration: u64,
    pub servers: Vec<String>,
}

} // verus!
