//! Ingestion and normalization pipeline for daily retail price snapshots.
//!
//! Raw scraped records are normalized into structured per-store, per-day
//! snapshots: locale-specific comparison-price text is parsed with a small
//! grammar, promotional overrides are resolved to the cheapest effective
//! comparison price, and the snapshots are transposed into per-product
//! price histories.

pub mod ingest;
pub mod parse;
pub mod transpose;
pub mod types;
