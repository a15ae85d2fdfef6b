//! A single-domain web crawler core: URL modelling, a visit store that
//! deduplicates URLs per domain, robots.txt gating, link resolution, and the
//! orchestrator's visit decision, all with verified contracts.

pub mod crawl;
pub mod db;
pub mod page;
pub mod registry;
pub mod robots;
pub mod urls;
