//! Selector engine for a small keyboard-driven launcher panel.
//!
//! The crate holds the logic of the launcher: resolving an effective
//! configuration from built-in defaults, configuration-file text and
//! command-line overrides; planning the on-screen rectangle of the panel;
//! and the selection state machine that narrows a candidate list as the
//! user types and commits a choice.  All I/O (files, standard input, the
//! native window) stays outside the crate; every function here is a pure
//! computation with a verified contract.

pub mod text;
pub mod numbers;
pub mod color;
pub mod config;
pub mod ini;
pub mod args;
pub mod geometry;
pub mod selector;
