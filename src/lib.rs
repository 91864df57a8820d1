//! Resolution of a mod profile against the catalog platforms, and
//! reconciliation of the output directory with its result.
//!
//! `identifier` holds the item references and when two name the same item;
//! `resolver` the run that dispatches requests, deduplicates them and folds
//! fetch outcomes back in; `reconcile` the plan that compares the output
//! directory with the resolved files; `laws` what holds across their calls.

pub mod identifier;
pub mod resolver;
pub mod reconcile;
pub mod laws;
