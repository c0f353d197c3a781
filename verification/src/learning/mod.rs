//! The learning loop: counter-triggered background self-review.
//!
//! See [`counters`] for the deterministic triggers and [`config`] for their
//! settings, [`prompts`] for the review instructions, [`review`] for the fork
//! and [`post_turn`] for what is decided after each turn.

pub mod config;
pub mod counters;
pub mod counters_laws;
pub mod post_turn;
pub mod prompts;
pub mod review;
pub mod review_laws;
pub mod review_text_laws;
