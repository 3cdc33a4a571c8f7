//! A sound-triggering engine for a game's text log.
//!
//! The engine tails a growing log file, matches each new line against the
//! rules of a soundpack under an ignore-list filter, and drives one playback
//! state machine per mixer channel. Everything here is pure: reading files,
//! playing audio and drawing the window belong to the program around it,
//! which hands this library plain values and carries out what it returns.
//!
//! - [`text`]: byte strings, substring search and line splitting.
//! - [`tailer`]: the gamelog cursor.
//! - [`ignore`]: the ignore filter.
//! - [`pattern`]: literal and regular-expression patterns.
//! - [`soundpack`]: channels, rules and clip pools, loaded from a manifest.
//! - [`matcher`]: which rules a line sets off, and what each decides.
//! - [`mixer`]: the playback state machine of a channel.
//! - [`engine`]: the owner of all of these, driven by commands and polls.
//! - [`config`], [`message`], [`ui`]: the startup paths, the window's
//!   messages and its list of sliders.
//! - [`error`]: the kinds of failure and the warnings.

pub mod config;
pub mod engine;
pub mod error;
pub mod ignore;
pub mod matcher;
pub mod message;
pub mod mixer;
pub mod pattern;
pub mod soundpack;
pub mod tailer;
pub mod text;
pub mod ui;
