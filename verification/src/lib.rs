//! Incremental harvesting of articles from a paginated blog: link discovery,
//! per-page extraction with bounded retry, result aggregation, consistency
//! diagnostics and the ordering applied before the archive is persisted.

pub mod arrange;
pub mod calendar;
pub mod consistency;
pub mod discovery;
pub mod extract;
pub mod links;
pub mod log;
pub mod markup;
pub mod number;
pub mod pattern;
pub mod post;
pub mod retry;
pub mod run;
pub mod scheduler;
pub mod sorting;
pub mod text;
pub mod text_set;
