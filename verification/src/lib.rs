//! Verified core of a textbook-digitising service: OCR text is parsed
//! into numbered problems, reconciled across page boundaries, and
//! persisted as cancellable, progress-reporting background jobs.

pub mod api;
pub mod batch;
pub mod cache;
pub mod export;
pub mod files;
pub mod jobs;
pub mod models;
pub mod parse;
pub mod reconcile;
pub mod retry;
pub mod solver;
pub mod page_content;
pub mod store;
pub mod text;
pub mod textbook;
pub mod toc;
pub mod validation;
