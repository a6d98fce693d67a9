//! File-integrity baseline engine: per-path records, the kind-dependent
//! comparison key, and the classification of a scan against a baseline.

pub mod record;
pub mod baseline;
pub mod diff;
pub mod hashing;
pub mod capture;
pub mod report;
pub mod laws;
