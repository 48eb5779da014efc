//! A verified core for a personal content-synchronization pipeline: catalog
//! pagination, metadata scraping, download-link resolution, archive
//! classification and extraction planning, directory templating, and
//! idempotent per-item orchestration.

pub mod archive;
pub mod catalog;
pub mod config;
pub mod fetch;
pub mod model;
pub mod resolve;
pub mod scrape;
pub mod sidecar;
pub mod sync;
pub mod template;
pub mod text;
