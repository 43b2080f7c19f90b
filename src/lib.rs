//! A rule-driven automation engine: a parser for a small line-oriented rule
//! language, an evaluator for its conditions over sensor snapshots, and the
//! per-rule trigger, latch, windup and toggle state machine.
pub mod text;
pub mod types;
pub mod pre;
pub mod post;
pub mod action;
pub mod parse;
pub mod action_set;
pub mod mouse;
pub mod screen;
pub mod ptr_map;
pub mod log;
pub mod round_trip;
