//! Checks that the links of a document can be reached.
//!
//! The library holds every decision of a run and does no I/O. A run begins
//! with the candidate URLs of a document ([`extract`]) and the verdicts of the
//! runs before it ([`results`]). The [`orchestrator`] makes one fetcher
//! ([`fetch`]) for each URL that needs a check; the fetchers share a pool of
//! permits ([`handles`]) and a client set up once ([`client`]). Whoever
//! drives the run sends the requests and sleeps as the fetchers ask, reports
//! what came back, and writes the store out after each check that ends.

pub mod client;
pub mod extract;
pub mod fetch;
pub mod handles;
pub mod orchestrator;
pub mod ordered;
pub mod outcome;
pub mod results;
pub mod rewrite;
pub mod text;
