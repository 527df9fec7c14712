//! A verified core for a static-analysis diagnostic pipeline: a bitset-backed
//! error-code registry, suppression-directive parsing with offset remapping,
//! and the per-file check orchestration that filters and orders diagnostics.

pub mod text_range;
pub mod registry;
pub mod rule_set;
pub mod code_table;
pub mod rule_table;
pub mod flags;
pub mod source_kind;
pub mod locator;
pub mod type_ignore;
pub mod directives;
pub mod suppression;
pub mod settings;
pub mod message;
pub mod checker;
pub mod code_selector;
pub mod laws;
pub mod config;
pub mod pyproject_lint;
