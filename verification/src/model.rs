//! Output data model of the layout engine, and the engine's error taxonomy.
//!
//! Coordinates are integers in "layout units". One run of the engine fixes
//! the unit as `1 / (2000 * division * rows * zig_zags)` of a millimetre,
//! where `rows` is the number of configured pitch rows minus one and
//! `zig_zags` the configured tooth count. Every quantity the layout needs is
//! an exact multiple of that unit, so the geometry is bit-identical across
//! runs and machines. A renderer converts to physical lengths by dividing by
//! the run's `units_per_mm` value.

use vstd::prelude::*;

verus! {

/// Output format selector, kept for the surrounding command-line tooling.
#[derive(Debug, Eq, Copy, Clone, PartialEq, Structural)]
pub enum OutputFormat {
    SVG,
    PDF,
    JSON,
}

/// Shape of the connecting edge between two adjacent strips.
#[derive(Debug, Eq, Copy, Clone, PartialEq, Structural)]
pub enum JoinStyle {
    ZigZag,
    Diagonal,
    Straight,
}

/// A point in layout units, page space: origin at the top-left corner,
/// y growing downward.
pub type Point = (i128, i128);

/// A label to engrave: anchor position, content, and font size
/// (in layout units, like every coordinate).
#[derive(Debug)]
pub struct Text {
    pub position: Point,
    pub text: String,
    pub font_size: i128,
}

/// One page-width segment of the tape: its label texts, its closed outline
/// polygon (implicitly closed: last point connects back to the first), and
/// its hole centres ordered by ascending musical time.
#[derive(Debug)]
pub struct Strip {
    pub texts: Vec<Text>,
    pub outline: Vec<Point>,
    pub holes: Vec<Point>,
}

/// One physical page, holding consecutive strips top to bottom.
#[derive(Debug)]
pub struct Page {
    pub strips: Vec<Strip>,
}

/// Why a layout attempt failed. No partial layout is ever returned.
#[derive(Debug, Eq, PartialEq, Copy, Clone, Structural)]
pub enum Error {
    /// Timecode-based division: the tick-to-width conversion needs a
    /// positive ticks-per-beat value.
    UnsupportedDiv,
    /// The requested track index does not exist.
    TrackNotFound,
    /// The selected track holds no note-on events.
    EmptyTrack,
    /// A note's row-space pitch value is absent from the configured pitch
    /// list; the offending value is carried along.
    InvalidNote(u8),
}

/// A sequence of exec points agrees with a mathematical point sequence.
pub open spec fn points_match(v: Seq<Point>, m: Seq<(int, int)>) -> bool {
    &&& v.len() == m.len()
    &&& forall|j: int| 0 <= j < m.len() ==> v[j].0 == #[trigger] m[j].0 && v[j].1 == m[j].1
}

} // verus!
