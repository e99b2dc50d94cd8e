//! Core logic of a benchmark-results dashboard: a rounding utility that picks
//! a "nice" axis ceiling, an axis/bar layout engine, label decomposition for
//! the chart's categorical axes, and the sorted per-test views of a fetched
//! report that both the table and the chart consume.

pub mod chart;
pub mod labels;
pub mod layout;
pub mod report;
pub mod rounding;
