//! Drives an HD44780-compatible character LCD over individually toggled
//! digital output lines and time-multiplexes text jobs onto its rows.
//!
//! The protocol driver translates logical operations (clear, set cursor,
//! write a byte, define a glyph) into the exact sequence of line transitions
//! and timing delays the panel requires; the scheduler keeps an ordered list
//! of row jobs and always picks the most urgent one.

pub mod icons;
pub mod lcd;
pub mod scheduler;

pub use icons::Icon;
pub use lcd::LcdDriver;
pub use scheduler::Job;
