//! Decision logic of a breadth-first web crawler with a global request budget.
//!
//! The crate holds everything the crawler decides: which links a page carries,
//! what absolute URL each link names, which URLs are new, and how many fetches
//! may still be started. Moving bytes over the network is left to the caller.

pub mod config;
pub mod crawl;
pub mod frontier;
pub mod html;
pub mod listing;
pub mod orchestrator;
pub mod order;
pub mod outcome;
pub mod urls;
