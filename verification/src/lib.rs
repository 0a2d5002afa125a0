//! Telegram lines of a smart meter's data port, decoded and republished as
//! metrics.
//!
//! A line names a measurement by its OBIS code and carries its reading in
//! parentheses. The [`catalog`] says which codes are monitored and how each is
//! exported; the [`decoder`] finds the reading in a line; the [`registry`]
//! keeps one metric for each exported name; the [`applier`] turns a reading
//! into the metric's next value.
use vstd::prelude::*;

pub mod applier;
pub mod catalog;
pub mod decimal;
pub mod decoder;
pub mod metrics;
pub mod registry;
pub mod text;

pub use applier::{process_p1_line, ApplyError};
pub use catalog::{catalog, check_catalog, CatalogEntry, CatalogError, CatalogIssue, MetricKind};
pub use decoder::{parse_p1_line, ParsedLine};
pub use registry::{Registry, RegistryError, FRACTION_UNITS};

verus! {

} // verus!
