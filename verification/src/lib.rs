//! Verified core of a terminal dashboard for OpenCode token usage.

pub mod accounting;
pub mod agents;
pub mod agents_view;
pub mod binary64;
pub mod binary64_order;
pub mod cache_errors;
pub mod cache_update;
pub mod db_errors;
pub mod decimal;
pub mod formatting;
pub mod headers;
pub mod label;
pub mod layout;
pub mod money;
pub mod outside_types;
pub mod overlay;
pub mod ranking;
pub mod reordering;
pub mod search;
pub mod usage;
