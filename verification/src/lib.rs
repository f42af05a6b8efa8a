//! Accounting of editing time per programming language.
//!
//! A tracker takes in samples of which file is in focus and credits the time
//! between them to languages; a sender takes the sums away at intervals. The
//! functions here decide and compute; looking at windows, waiting and sending
//! are left to the program that uses them.

pub mod accounting;
pub mod focus;
pub mod language;
pub mod schedule;
pub mod text;
pub mod times;
pub mod tracker;

pub use focus::is_zed_active;
pub use language::{detect_language, get_display_name};
pub use times::LanguageTimes;
pub use tracker::ActivityTracker;
