//! Layout engine for music-box programming tapes.
//!
//! A timed note sequence is turned into a multi-page, multi-strip cutting
//! layout: every strip's outline polygon, label text and hole positions, at
//! exact coordinates with kerf compensation.
//!
//! All geometry is computed in exact integer arithmetic. Configuration
//! lengths are given in micrometres; the engine works in a finer subunit
//! chosen per run (see [`model`]) so that every division the layout needs
//! (ticks to width, row spacing, zig-zag teeth, halving) is exact. A
//! renderer divides by `units_per_mm` to recover millimetre coordinates.

pub mod decimal;
pub mod geometry;
pub mod layout;
pub mod model;
pub mod notes;
pub mod options;
pub mod strip;

pub use model::{Error, JoinStyle, OutputFormat, Page, Point, Strip, Text};
pub use notes::{normalize, EventKind, Note, Score, TimedEvent, Track};
pub use options::Options;
