//! Incremental crawler for a news-index site: link discovery, per-page
//! article extraction with strict field validation, change-aware persistence
//! planning, and run-to-run bookkeeping of downloaded and failed pages.
//!
//! The HTML selector engine and the wall clock are outside capabilities,
//! reached through a small set of trusted wrappers; everything that decides,
//! validates, formats or reconciles is verified.

pub mod text;
pub mod article;
pub mod clock;
pub mod dates;
pub mod errors;
pub mod extract;
pub mod orchestrate;
pub mod page;
pub mod persist;
pub mod scrape;
pub mod urls;
