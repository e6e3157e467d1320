//! Crawl-extract-normalize-deduplicate pipeline for JVM release metadata.
//!
//! The library parses vendor release catalogs (filenames, markup text and
//! JSON-shaped listings) into canonical release records, deduplicates the
//! records gathered from many independent sources, and filters and projects
//! them for export.  Transport, persistence and the command-line surface
//! live outside the library and hand it plain values.

pub mod cli;
pub mod jvm;
pub mod text;
