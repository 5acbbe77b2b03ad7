//! Core of a desktop countdown widget: the persisted configuration and its
//! JSON text, the countdown display text, the fire-once milestone
//! notifications, and the tick scheduler driving them.
pub mod clock;
pub mod config;
pub mod countdown;
pub mod digits;
pub mod json;
pub mod milestone;
pub mod scheduler;
pub mod text;
