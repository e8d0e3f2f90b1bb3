//! A day-cycle engine for timed wallpapers.
//!
//! A schedule is a text that binds clock times, or named solar events with a
//! fallback clock time, to lists of image paths. The engine parses such a
//! text, resolves the solar events against a table of solar times, lays the
//! images out on a 24-hour ring, and answers which image is active at a
//! given time of day.

pub mod args;
pub mod config;
pub mod cycle;
pub mod data;
pub mod error;
pub mod layout;
pub mod order;
pub mod schedule;
pub mod solar;
pub mod text;
pub mod time;
