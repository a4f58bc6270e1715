//! Verified core of a daily wellbeing-log report generator.
//!
//! The library merges two date-keyed record series, expands a year's sparse
//! records onto a dense calendar, aggregates counts per wellbeing level, and
//! lays out a multi-sheet spreadsheet report (tables, data-bar ranges and
//! monthly trend charts) as a plain document value. Reading the input files
//! and rendering the document belong to the surrounding application.

pub mod aggregate;
pub mod calendar;
pub mod chart;
pub mod date;
pub mod ingest;
pub mod layout;
pub mod merge;
pub mod parse;
pub mod series;
pub mod sheet;
pub mod text;
