//! An agent's recall, learning and task board.
//!
//! - [`search`]: the index over session transcripts.
//! - [`learning`]: when a background self-review is due, and what it may do.
//! - [`tasks`]: the task board.
//!
//! The remaining modules hold what these share: [`text`], [`json`] values,
//! [`integers`], stable [`ordering`] and the [`clock`].

pub mod clock;
pub mod integers;
pub mod json;
pub mod learning;
pub mod ordering;
pub mod search;
pub mod tasks;
pub mod text;
pub mod text_laws;
