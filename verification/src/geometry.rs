//! Connecting-edge geometry: the interlocking shapes joining two adjacent
//! strips, traced top to bottom at a given anchor point.

use vstd::prelude::*;

use crate::model::{JoinStyle, Point};
use crate::model::points_match;
use crate::options::{lemma_mul_range, Options};

verus! {

impl Options {
    /// Tape height in layout units.
    pub open spec fn tape_units(&self, div: int) -> int {
        self.tape_height * self.units_per_um(div)
    }

    /// Connecting-edge width in layout units (the configured width; a
    /// straight edge simply never moves sideways).
    pub open spec fn join_units(&self, div: int) -> int {
        self.join_width * self.units_per_um(div)
    }

    /// Half of one zig-zag tooth band, in layout units: the tape height
    /// divided by twice the tooth count, exact by choice of unit.
    pub open spec fn zig_half_step(&self, div: int) -> int {
        self.tape_height * (div * self.rows())
    }

    /// The points of a zig-zag edge anchored at `(x, y)`: each tooth
    /// alternates between the strip edge and `join_width` to the right, one
    /// point every half band, closing with a final point at the tape's
    /// bottom edge.
    pub open spec fn zig_zag_points(&self, div: int, x: int, y: int) -> Seq<(int, int)> {
        Seq::new(
            (2 * self.zigzags() + 1) as nat,
            |j: int|
                if j == 2 * self.zigzags() {
                    (x, y + self.tape_units(div))
                } else if j % 2 == 0 {
                    (x, y + j * self.zig_half_step(div))
                } else {
                    (x + self.join_units(div), y + j * self.zig_half_step(div))
                },
        )
    }

    /// The points of the connecting edge at `(x, y)`, top to bottom.
    pub open spec fn join_points(&self, div: int, x: int, y: int) -> Seq<(int, int)> {
        match self.join_style {
            JoinStyle::ZigZag => self.zig_zag_points(div, x, y),
            JoinStyle::Diagonal => seq![
                (x, y),
                (x + self.join_units(div), y + self.tape_units(div)),
            ],
            JoinStyle::Straight => seq![(x, y), (x, y + self.tape_units(div))],
        }
    }

    /// Join width in layout units.
    pub fn join_units_i(&self, div: i16) -> (w: i128)
        requires
            self.wf(),
            div >= 1,
        ensures
            w == self.join_units(div as int),
            0 <= w <= 0x1_0000_0000_0000_0000_0000,
    {
        let upm = self.units_per_um_i(div);
        proof {
            lemma_mul_range(self.join_width as int, upm as int, 0, 0x100000000, 2, 0x1000000000000);
        }
        (self.join_width as i128) * upm
    }

    /// Tape height in layout units.
    pub fn tape_units_i(&self, div: i16) -> (h: i128)
        requires
            self.wf(),
            div >= 1,
        ensures
            h == self.tape_units(div as int),
            2 <= h <= 0x1_0000_0000_0000_0000_0000,
    {
        let upm = self.units_per_um_i(div);
        proof {
            lemma_mul_range(self.tape_height as int, upm as int, 1, 0x100000000, 2, 0x1000000000000);
        }
        (self.tape_height as i128) * upm
    }

    /// The connecting edge at `(x, y)` as executable points, top to bottom.
    pub fn join_edge(&self, div: i16, x: i128, y: i128) -> (pts: Vec<Point>)
        requires
            self.wf(),
            div >= 1,
            -0x1000000000000000000000000000000 <= x <= 0x1000000000000000000000000000000,
            -0x1000000000000000000000000000000 <= y <= 0x1000000000000000000000000000000,
        ensures
            points_match(pts@, self.join_points(div as int, x as int, y as int)),
            pts@.len() >= 2,
    {
        match self.join_style {
            JoinStyle::ZigZag => {
                let zz = self.num_zig_zags;
                let hs = self.zig_half_step_i(div);
                let ju = self.join_units_i(div);
                let th = self.tape_units_i(div);
                let mut pts: Vec<Point> = Vec::new();
                let mut i: u16 = 0;
                while i < zz
                    invariant
                        self.wf(),
                        div >= 1,
                        0 <= i <= zz,
                        zz == self.num_zig_zags,
                        hs == self.zig_half_step(div as int),
                        0 <= hs <= 0x1_0000_0000_0000_0000,
                        ju == self.join_units(div as int),
                        0 <= ju <= 0x1_0000_0000_0000_0000_0000,
                        -0x1000000000000000000000000000000 <= x
                            <= 0x1000000000000000000000000000000,
                        -0x1000000000000000000000000000000 <= y
                            <= 0x1000000000000000000000000000000,
                        pts@.len() == 2 * i,
                        forall|j: int|
                            0 <= j < 2 * i ==> #[trigger] pts@[j].0 == self.zig_zag_points(
                                div as int,
                                x as int,
                                y as int,
                            )[j].0 && pts@[j].1 == self.zig_zag_points(
                                div as int,
                                x as int,
                                y as int,
                            )[j].1,
                    decreases zz - i,
                {
                    proof {
                        lemma_mul_range(2 * (i as int), hs as int, 0, 0x20000, 0, 0x10000000000000000);
                        lemma_mul_range(
                            2 * (i as int) + 1,
                            hs as int,
                            0,
                            0x20000,
                            0,
                            0x10000000000000000,
                        );
                    }
                    let top = y + 2 * (i as i128) * hs;
                    let mid = y + (2 * (i as i128) + 1) * hs;
                    pts.push((x, top));
                    pts.push((x + ju, mid));
                    i += 1;
                }
                let ghost teeth = pts@;
                pts.push((x, y + th));
                proof {
                    let m = self.zig_zag_points(div as int, x as int, y as int);
                    assert forall|j: int| 0 <= j < m.len() implies pts@[j].0 == #[trigger] m[j].0
                        && pts@[j].1 == m[j].1 by {
                        if j < 2 * self.zigzags() {
                            assert(teeth[j].0 == m[j].0);
                            assert(teeth[j].1 == m[j].1);
                            assert(pts@[j] == teeth[j]);
                        }
                    }
                }
                pts
            },
            JoinStyle::Diagonal => {
                let ju = self.join_units_i(div);
                let th = self.tape_units_i(div);
                let mut pts: Vec<Point> = Vec::new();
                pts.push((x, y));
                pts.push((x + ju, y + th));
                pts
            },
            JoinStyle::Straight => {
                let th = self.tape_units_i(div);
                let mut pts: Vec<Point> = Vec::new();
                pts.push((x, y));
                pts.push((x, y + th));
                pts
            },
        }
    }

    /// Half a zig-zag tooth band in layout units.
    pub fn zig_half_step_i(&self, div: i16) -> (h: i128)
        requires
            self.wf(),
            div >= 1,
        ensures
            h == self.zig_half_step(div as int),
            0 <= h <= 0x1_0000_0000_0000_0000,
    {
        let rows = (self.notes.len() as i128) - 1;
        proof {
            lemma_mul_range(div as int, rows as int, 1, 0x8000, 1, 0x10000);
            lemma_mul_range(
                self.tape_height as int,
                (div as int) * (rows as int),
                1,
                0x100000000,
                1,
                0x80000000,
            );
        }
        (self.tape_height as i128) * ((div as i128) * rows)
    }
}

} // verus!
