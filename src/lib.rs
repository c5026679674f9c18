//! Prints the first part of each of its sources, counted in lines or in
//! bytes, or all but a last part, with a banner before each source where
//! there are several.
//!
//! `select` holds the selection rules, `config` the validated options, and
//! `report` what a run over several sources prints.
pub mod config;
pub mod report;
pub mod select;
