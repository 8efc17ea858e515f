//! Filtering of gene-expression count matrices in one streaming pass.
//!
//! A matrix is a tab-separated table: a header that names the samples, then
//! one row per feature with a count per sample. Rows whose identifier opens
//! with a double underscore are metafeatures (summary counters), kept apart
//! for a report. [`pass::CountFilter`] reads the data lines one at a time,
//! keeps per-sample aggregates, and says where each line goes;
//! [`laws`] states what holds of every pass.
use vstd::prelude::*;

pub mod accumulator;
pub mod filter;
pub mod laws;
pub mod pass;
pub mod record;
pub mod report;

verus! {

} // verus!
