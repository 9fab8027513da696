//! Engine configuration and the strip/page packer: how many strips a piece
//! needs, how strips group into pages, and each strip's horizontal offset.
//!
//! Lengths in the configuration are micrometres (`u32`). One run of the
//! engine computes in "layout units" of `1 / units_per_mm(division)`
//! millimetres, with `units_per_um = 2 * division * rows * zig_zags`:
//! every division the layout performs (ticks to width, row spacing, zig-zag
//! teeth, halvings) is exact in these units, so the whole geometry is exact
//! integer arithmetic.

use vstd::arithmetic::div_mod::lemma_fundamental_div_mod;
use vstd::arithmetic::mul::lemma_mul_inequality;
use vstd::prelude::*;

use crate::model::JoinStyle;
use crate::notes::MAX_TRACK_TIME;

verus! {

/// Most rows a pitch list may define; keeps every scaled coordinate inside
/// 128-bit arithmetic.
pub const MAX_PITCHES: usize = 65536;

/// Configuration of one layout run. All lengths are micrometres.
pub struct Options {
    /// Index of the track to lay out.
    pub track_num: usize,
    /// Row-space pitch values, top row first: a note with recorded value
    /// `128 - raw_pitch` is placed on the row of that value's first
    /// occurrence in this list (linear first-match scan; the list need not
    /// be sorted).
    pub notes: Vec<u8>,
    /// Height of the programming tape.
    pub tape_height: u32,
    /// Space between the tape's top edge and the first row.
    pub interior_margin_top: u32,
    /// Space between the last row and the tape's bottom edge.
    pub interior_margin_bottom: u32,
    /// Space between the end of the lead-in and the first note.
    pub interior_margin_left: u32,
    /// Space between the last note and the end of the tape.
    pub interior_margin_right: u32,
    /// Page size.
    pub page_width: u32,
    /// Page size.
    pub page_height: u32,
    /// Page margins.
    pub margin_left: u32,
    /// Page margins.
    pub margin_top: u32,
    /// Page margins.
    pub margin_right: u32,
    /// Page margins.
    pub margin_bottom: u32,
    /// Vertical space between two strips cut from the same page.
    pub gap: u32,
    /// Diameter of each hole (before kerf compensation).
    pub hole_diameter: u32,
    /// Width of cut lines; should equal the kerf.
    pub cut_stroke_width: u32,
    /// Horizontal stretch: micrometres per beat.
    pub stretch: u32,
    /// Width of the diagonal lead-in edge at the start of the first strip.
    pub lead_in_width: u32,
    /// Height of the diagonal lead-in edge.
    pub lead_in_height: u32,
    /// Tooth count of zig-zag connecting edges.
    pub num_zig_zags: u16,
    /// Horizontal extent of a connecting edge.
    pub join_width: u32,
    /// Shape of connecting edges.
    pub join_style: JoinStyle,
    /// Song title; empty means no labels.
    pub title: String,
}

impl Options {
    /// Number of row gaps on the tape: one less than the pitch count.
    pub open spec fn rows(&self) -> int {
        self.notes@.len() - 1
    }

    /// Zig-zag tooth count as a number.
    pub open spec fn zigzags(&self) -> int {
        self.num_zig_zags as int
    }

    /// The join width that the packer budgets for: straight edges of
    /// abutting strips need no overlap material.
    pub open spec fn eff_join_um(&self) -> int {
        if self.join_style is Straight {
            0
        } else {
            self.join_width as int
        }
    }

    /// A configuration the engine accepts: at least two pitch rows (row
    /// spacing divides by `rows`), at least one zig-zag tooth (tooth height
    /// divides by the count), a non-degenerate tape, and a page wide enough
    /// that a middle strip has positive width. The list cap keeps scaled
    /// coordinates inside 128 bits.
    pub open spec fn wf(&self) -> bool {
        &&& 2 <= self.notes@.len() <= MAX_PITCHES
        &&& self.num_zig_zags >= 1
        &&& self.tape_height >= 1
        &&& self.page_width > self.margin_left + self.margin_right + self.eff_join_um()
    }

    /// Layout units per micrometre: `2 * division * rows * zig_zags`.
    pub open spec fn units_per_um(&self, div: int) -> int {
        2 * div * self.rows() * self.zigzags()
    }

    /// Half a unit-per-micrometre factor, for exact halvings
    /// (hole radius, kerf, label font).
    pub open spec fn half_units_per_um(&self, div: int) -> int {
        div * self.rows() * self.zigzags()
    }

    /// Layout units per millimetre; a renderer divides coordinates by this.
    pub open spec fn units_per_mm_spec(&self, div: int) -> int {
        1000 * self.units_per_um(div)
    }

    /// Hole radius (half the configured diameter) in layout units.
    pub open spec fn hole_radius_units(&self, div: int) -> int {
        self.hole_diameter * self.half_units_per_um(div)
    }

    /// Width a tick span occupies, in layout units: `ticks * stretch /
    /// division` millimetres. The division cancels against the unit scale,
    /// so the result is exact.
    pub open spec fn time_width(&self, time: int) -> int {
        time * self.stretch * 2 * self.rows() * self.zigzags()
    }

    /// Usable width of the first strip: the page minus margins, lead-in,
    /// left interior clearance, hole radius and join material.
    pub open spec fn first_strip_width(&self, div: int) -> int {
        (self.page_width - self.margin_left - self.margin_right - self.lead_in_width
            - self.interior_margin_left - self.eff_join_um()) * self.units_per_um(div)
            - self.hole_radius_units(div)
    }

    /// Usable width of a middle strip: the page minus margins and join
    /// material.
    pub open spec fn middle_strip_width(&self, div: int) -> int {
        (self.page_width - self.margin_left - self.margin_right - self.eff_join_um())
            * self.units_per_um(div)
    }

    /// Usable width of the last strip: the page minus margins, right
    /// interior clearance and hole radius.
    pub open spec fn last_strip_width(&self, div: int) -> int {
        (self.page_width - self.margin_left - self.margin_right - self.interior_margin_right)
            * self.units_per_um(div) - self.hole_radius_units(div)
    }

    /// Usable width when a single strip carries the whole piece: first-strip
    /// and last-strip reductions both apply, no join is needed.
    pub open spec fn only_strip_width(&self, div: int) -> int {
        (self.page_width - self.margin_left - self.margin_right - self.lead_in_width
            - self.interior_margin_left - self.interior_margin_right) * self.units_per_um(div) - 2
            * self.hole_radius_units(div)
    }

    /// How many strips the piece needs: one if it fits the only-strip
    /// budget, else a first and a last strip plus enough middle strips to
    /// cover the remainder, rounded up.
    pub open spec fn strip_count_spec(&self, div: int, max_time: int) -> int {
        if self.time_width(max_time) <= self.only_strip_width(div) {
            1
        } else {
            2 + ceil_div(
                self.time_width(max_time) - self.first_strip_width(div) - self.last_strip_width(
                    div,
                ),
                self.middle_strip_width(div),
            )
        }
    }

    /// How many tape rows fit vertically on one page.
    pub open spec fn strips_per_page_spec(&self) -> int {
        1 + if self.page_height >= self.margin_top + self.margin_bottom + self.tape_height {
            (self.page_height - self.margin_top - self.margin_bottom - self.tape_height) / (
            self.gap + self.tape_height)
        } else {
            0
        }
    }

    /// Pages needed for all strips.
    pub open spec fn page_count_spec(&self, div: int, max_time: int) -> int {
        ceil_div(self.strip_count_spec(div, max_time), self.strips_per_page_spec())
    }

    /// The horizontal shift applied to a note's absolute width before it is
    /// placed on strip `k`: the first strip shifts right past lead-in,
    /// clearance and hole radius; later strips shift left by all width
    /// already consumed, so one continuous timeline maps across strips.
    pub open spec fn x_offset_spec(&self, div: int, k: int) -> int {
        if k == 0 {
            (self.lead_in_width + self.interior_margin_left) * self.units_per_um(div)
                + self.hole_radius_units(div)
        } else {
            -(self.first_strip_width(div) + (k - 1) * self.middle_strip_width(div))
        }
    }
}

/// Rounded-up division for a positive divisor.
pub open spec fn ceil_div(a: int, b: int) -> int {
    (a + b - 1) / b
}

/// Product range for non-negative factors, with literal bounds.
pub proof fn lemma_mul_range(a: int, b: int, al: int, au: int, bl: int, bu: int)
    by (nonlinear_arith)
    requires
        al <= a <= au,
        bl <= b <= bu,
        0 <= al,
        0 <= bl,
    ensures
        al * bl <= a * b <= au * bu,
{
}

/// Magnitude bound of a product from magnitude bounds of its factors.
pub proof fn lemma_mul_bound(a: int, b: int, aa: int, bb: int)
    by (nonlinear_arith)
    requires
        -aa <= a <= aa,
        -bb <= b <= bb,
    ensures
        -(aa * bb) <= a * b <= aa * bb,
{
}

impl Options {
    /// Number of row gaps, as a machine integer.
    fn rows_i(&self) -> (r: i128)
        requires
            self.wf(),
        ensures
            r == self.rows(),
            1 <= r <= 0xffff,
    {
        (self.notes.len() as i128) - 1
    }

    /// Layout units per micrometre.
    pub fn units_per_um_i(&self, div: i16) -> (u: i128)
        requires
            self.wf(),
            div >= 1,
        ensures
            u == self.units_per_um(div as int),
            2 <= u <= 0x1_0000_0000_0000,
    {
        let rows = self.rows_i();
        let zz = self.num_zig_zags as i128;
        let a = 2 * (div as i128);
        proof {
            lemma_mul_range(a as int, rows as int, 2, 0x10000, 1, 0x10000);
            lemma_mul_range(a * rows, zz as int, 2, 0x100000000, 1, 0x10000);
        }
        a * rows * zz
    }

    /// Half a unit-per-micrometre factor.
    pub fn half_units_per_um_i(&self, div: i16) -> (u: i128)
        requires
            self.wf(),
            div >= 1,
        ensures
            u == self.half_units_per_um(div as int),
            1 <= u <= 0x8000_0000_0000,
    {
        let rows = self.rows_i();
        let zz = self.num_zig_zags as i128;
        proof {
            lemma_mul_range(div as int, rows as int, 1, 0x8000, 1, 0x10000);
            lemma_mul_range((div as i128) * rows, zz as int, 1, 0x80000000, 1, 0x10000);
        }
        (div as i128) * rows * zz
    }

    /// Layout units per millimetre: what a renderer divides by to recover
    /// millimetres.
    pub fn units_per_mm(&self, div: i16) -> (u: i128)
        requires
            self.wf(),
            div >= 1,
        ensures
            u == self.units_per_mm_spec(div as int),
            u >= 2000,
    {
        1000 * self.units_per_um_i(div)
    }

    /// Hole radius in layout units.
    pub fn hole_radius_i(&self, div: i16) -> (r: i128)
        requires
            self.wf(),
            div >= 1,
        ensures
            r == self.hole_radius_units(div as int),
            0 <= r <= 0x8000_0000_0000_0000_0000,
    {
        let h = self.half_units_per_um_i(div);
        proof {
            lemma_mul_range(self.hole_diameter as int, h as int, 0, 0x100000000, 0, 0x800000000000);
        }
        (self.hole_diameter as i128) * h
    }

    /// Width that `time` ticks occupy, in layout units.
    pub fn time_to_width(&self, time: u64) -> (w: i128)
        requires
            self.wf(),
            time <= MAX_TRACK_TIME,
        ensures
            w == self.time_width(time as int),
            0 <= w < 0x4_0000_0000_0000_0000_0000_0000,
    {
        let rows = self.rows_i();
        let zz = self.num_zig_zags as i128;
        proof {
            lemma_mul_range(time as int, self.stretch as int, 0, 0x100000000, 0, 0x100000000);
        }
        let a = (time as i128) * (self.stretch as i128);
        proof {
            lemma_mul_range((a as int) * 2, rows as int, 0, 0x20000000000000000, 0, 0x10000);
            lemma_mul_range(
                (a as int) * 2 * (rows as int),
                zz as int,
                0,
                0x200000000000000000000,
                0,
                0x10000,
            );
        }
        a * 2 * rows * zz
    }
}


impl Options {
    /// Effective join width in micrometres, as the packer budgets it.
    pub(crate) fn eff_join_i(&self) -> (j: i128)
        ensures
            j == self.eff_join_um(),
            0 <= j <= 0xffff_ffff,
    {
        if self.join_style == JoinStyle::Straight {
            0
        } else {
            self.join_width as i128
        }
    }

    /// Usable width of a middle strip, in layout units.
    pub fn middle_width(&self, div: i16) -> (w: i128)
        requires
            self.wf(),
            div >= 1,
        ensures
            w == self.middle_strip_width(div as int),
            2 <= w <= 0x1_0000_0000_0000_0000_0000,
    {
        let upm = self.units_per_um_i(div);
        let um = (self.page_width as i128) - (self.margin_left as i128) - (
        self.margin_right as i128) - self.eff_join_i();
        proof {
            lemma_mul_range(um as int, upm as int, 1, 0x100000000, 2, 0x1000000000000);
        }
        um * upm
    }

    /// Usable width of the first strip, in layout units.
    pub fn first_width(&self, div: i16) -> (w: i128)
        requires
            self.wf(),
            div >= 1,
        ensures
            w == self.first_strip_width(div as int),
            -0x10_0000_0000_0000_0000_0000 <= w <= 0x10_0000_0000_0000_0000_0000,
    {
        let upm = self.units_per_um_i(div);
        let hr = self.hole_radius_i(div);
        let um = (self.page_width as i128) - (self.margin_left as i128) - (
        self.margin_right as i128) - (self.lead_in_width as i128) - (
        self.interior_margin_left as i128) - self.eff_join_i();
        proof {
            lemma_mul_bound(um as int, upm as int, 0x500000000, 0x1000000000000);
        }
        um * upm - hr
    }

    /// Usable width of the last strip, in layout units.
    pub fn last_width(&self, div: i16) -> (w: i128)
        requires
            self.wf(),
            div >= 1,
        ensures
            w == self.last_strip_width(div as int),
            -0x10_0000_0000_0000_0000_0000 <= w <= 0x10_0000_0000_0000_0000_0000,
    {
        let upm = self.units_per_um_i(div);
        let hr = self.hole_radius_i(div);
        let um = (self.page_width as i128) - (self.margin_left as i128) - (
        self.margin_right as i128) - (self.interior_margin_right as i128);
        proof {
            lemma_mul_bound(um as int, upm as int, 0x500000000, 0x1000000000000);
        }
        um * upm - hr
    }

    /// Usable width of a lone strip, in layout units.
    pub fn only_width(&self, div: i16) -> (w: i128)
        requires
            self.wf(),
            div >= 1,
        ensures
            w == self.only_strip_width(div as int),
            -0x10_0000_0000_0000_0000_0000 <= w <= 0x10_0000_0000_0000_0000_0000,
    {
        let upm = self.units_per_um_i(div);
        let hr = self.hole_radius_i(div);
        let um = (self.page_width as i128) - (self.margin_left as i128) - (
        self.margin_right as i128) - (self.lead_in_width as i128) - (
        self.interior_margin_left as i128) - (self.interior_margin_right as i128);
        proof {
            lemma_mul_bound(um as int, upm as int, 0x500000000, 0x1000000000000);
        }
        um * upm - 2 * hr
    }

    /// The four budgets balance: what the first and last strips lose
    /// together equals what a lone strip loses plus one middle width. So the
    /// remainder passed to the rounded-up division is never at or below
    /// `-middle`, and the strip count formula is well defined.
    pub proof fn lemma_budget_balance(&self, div: int)
        requires
            self.wf(),
            div >= 1,
        ensures
            self.first_strip_width(div) + self.last_strip_width(div) == self.only_strip_width(div)
                + self.middle_strip_width(div),
    {
        let u = self.units_per_um(div);
        let a = self.page_width - self.margin_left - self.margin_right - self.lead_in_width
            - self.interior_margin_left - self.eff_join_um();
        let b = self.page_width - self.margin_left - self.margin_right
            - self.interior_margin_right;
        let c = self.page_width - self.margin_left - self.margin_right - self.lead_in_width
            - self.interior_margin_left - self.interior_margin_right;
        let d = self.page_width - self.margin_left - self.margin_right - self.eff_join_um();
        assert(a * u + b * u == (a + b) * u) by (nonlinear_arith);
        assert(c * u + d * u == (c + d) * u) by (nonlinear_arith);
        assert(a + b == c + d);
    }

    /// How many strips the piece needs.
    pub fn strip_count(&self, div: i16, max_time: u64) -> (n: u128)
        requires
            self.wf(),
            div >= 1,
            max_time <= MAX_TRACK_TIME,
        ensures
            n as int == self.strip_count_spec(div as int, max_time as int),
            1 <= n <= 0x8_0000_0000_0000_0000_0000_0000,
    {
        let total = self.time_to_width(max_time);
        let only = self.only_width(div);
        if total <= only {
            return 1;
        }
        let first = self.first_width(div);
        let last = self.last_width(div);
        let middle = self.middle_width(div);
        proof {
            self.lemma_budget_balance(div as int);
        }
        let a = total - first - last;
        let num = a + middle - 1;
        let q = (num as u128) / (middle as u128);
        proof {
            vstd::arithmetic::div_mod::lemma_div_nonincreasing(num as int, middle as int);
            vstd::arithmetic::div_mod::lemma_div_pos_is_pos(num as int, middle as int);
        }
        2 + q
    }

    /// How many tape rows fit vertically on one page.
    pub fn strips_per_page(&self) -> (s: u64)
        requires
            self.wf(),
        ensures
            s as int == self.strips_per_page_spec(),
            1 <= s <= 0x1_0000_0001,
    {
        let ph = self.page_height as u64;
        let used = (self.margin_top as u64) + (self.margin_bottom as u64) + (
        self.tape_height as u64);
        if ph >= used {
            let band = (self.gap as u64) + (self.tape_height as u64);
            let q = (ph - used) / band;
            proof {
                vstd::arithmetic::div_mod::lemma_div_nonincreasing(
                    ph - used,
                    band as int,
                );
                vstd::arithmetic::div_mod::lemma_div_pos_is_pos(
                    ph - used,
                    band as int,
                );
            }
            1 + q
        } else {
            1
        }
    }

    /// Pages needed for all strips.
    pub fn page_count(&self, div: i16, max_time: u64) -> (p: u128)
        requires
            self.wf(),
            div >= 1,
            max_time <= MAX_TRACK_TIME,
        ensures
            p as int == self.page_count_spec(div as int, max_time as int),
            p >= 1,
    {
        let n = self.strip_count(div, max_time);
        let s = self.strips_per_page() as u128;
        let p = (n + s - 1) / s;
        proof {
            vstd::arithmetic::div_mod::lemma_div_is_ordered(
                s as int,
                n + s - 1,
                s as int,
            );
            vstd::arithmetic::div_mod::lemma_div_by_self(s as int);
        }
        p
    }

    /// Ranges of the unit factors, from the well-formedness bounds.
    pub proof fn lemma_unit_bounds(&self, div: int)
        requires
            self.wf(),
            1 <= div <= 0x7fff,
        ensures
            2 <= self.units_per_um(div) <= 0x1_0000_0000_0000,
            1 <= self.half_units_per_um(div) <= 0x8000_0000_0000,
            0 <= self.hole_radius_units(div) <= 0x8000_0000_0000_0000_0000,
    {
        lemma_mul_range(2 * div, self.rows(), 2, 0x10000, 1, 0x10000);
        lemma_mul_range(2 * div * self.rows(), self.zigzags(), 2, 0x100000000, 1, 0x10000);
        lemma_mul_range(div, self.rows(), 1, 0x8000, 1, 0x10000);
        lemma_mul_range(div * self.rows(), self.zigzags(), 1, 0x80000000, 1, 0x10000);
        lemma_mul_range(
            self.hole_diameter as int,
            self.half_units_per_um(div),
            0,
            0x100000000,
            1,
            0x800000000000,
        );
    }

    /// Ranges of the four width budgets.
    pub proof fn lemma_width_bounds(&self, div: int)
        requires
            self.wf(),
            1 <= div <= 0x7fff,
        ensures
            2 <= self.middle_strip_width(div) <= 0x1_0000_0000_0000_0000_0000,
            -0x10_0000_0000_0000_0000_0000 <= self.first_strip_width(div)
                <= 0x10_0000_0000_0000_0000_0000,
            -0x10_0000_0000_0000_0000_0000 <= self.last_strip_width(div)
                <= 0x10_0000_0000_0000_0000_0000,
            -0x10_0000_0000_0000_0000_0000 <= self.only_strip_width(div)
                <= 0x10_0000_0000_0000_0000_0000,
    {
        self.lemma_unit_bounds(div);
        let u = self.units_per_um(div);
        lemma_mul_range(
            self.page_width - self.margin_left - self.margin_right - self.eff_join_um(),
            u,
            1,
            0x100000000,
            2,
            0x1000000000000,
        );
        lemma_mul_bound(
            self.page_width - self.margin_left - self.margin_right - self.lead_in_width
                - self.interior_margin_left - self.eff_join_um(),
            u,
            0x500000000,
            0x1000000000000,
        );
        lemma_mul_bound(
            self.page_width - self.margin_left - self.margin_right - self.interior_margin_right,
            u,
            0x500000000,
            0x1000000000000,
        );
        lemma_mul_bound(
            self.page_width - self.margin_left - self.margin_right - self.lead_in_width
                - self.interior_margin_left - self.interior_margin_right,
            u,
            0x500000000,
            0x1000000000000,
        );
    }

    /// Range of a tick span's width, for times inside the track limit.
    pub proof fn lemma_time_width_bound(&self, t: int)
        requires
            self.wf(),
            0 <= t <= MAX_TRACK_TIME,
        ensures
            0 <= self.time_width(t) <= 0x4_0000_0000_0000_0000_0000_0000,
    {
        lemma_mul_range(t, self.stretch as int, 0, 0x100000000, 0, 0x100000000);
        lemma_mul_range(
            t * self.stretch * 2,
            self.rows(),
            0,
            0x20000000000000000,
            1,
            0x10000,
        );
        lemma_mul_range(
            t * self.stretch * 2 * self.rows(),
            self.zigzags(),
            0,
            0x200000000000000000000,
            1,
            0x10000,
        );
    }

    /// Range of the strip count.
    pub proof fn lemma_strip_count_bound(&self, div: int, max_time: int)
        requires
            self.wf(),
            1 <= div <= 0x7fff,
            0 <= max_time <= MAX_TRACK_TIME,
        ensures
            1 <= self.strip_count_spec(div, max_time) <= 0x8_0000_0000_0000_0000_0000_0000,
    {
        let tw = self.time_width(max_time);
        if tw > self.only_strip_width(div) {
            self.lemma_width_bounds(div);
            self.lemma_time_width_bound(max_time);
            self.lemma_budget_balance(div);
            let m = self.middle_strip_width(div);
            let a = tw - self.first_strip_width(div) - self.last_strip_width(div);
            vstd::arithmetic::div_mod::lemma_div_nonincreasing(a + m - 1, m);
            vstd::arithmetic::div_mod::lemma_div_pos_is_pos(a + m - 1, m);
        }
    }

    /// What the rounded-up middle-strip division promises: the middle
    /// strips together reach past the remainder they must cover, and the
    /// count is not one strip more than needed.
    pub proof fn lemma_strip_count_covers(&self, div: int, max_time: int)
        requires
            self.wf(),
            1 <= div <= 0x7fff,
            0 <= max_time,
            self.time_width(max_time) > self.only_strip_width(div),
        ensures
            self.strip_count_spec(div, max_time) >= 2,
            (self.strip_count_spec(div, max_time) - 2) * self.middle_strip_width(div)
                >= self.time_width(max_time) - self.first_strip_width(div)
                - self.last_strip_width(div),
            (self.strip_count_spec(div, max_time) - 2) * self.middle_strip_width(div)
                <= self.time_width(max_time) - self.first_strip_width(div)
                - self.last_strip_width(div) + self.middle_strip_width(div) - 1,
    {
        let m = self.middle_strip_width(div);
        let a = self.time_width(max_time) - self.first_strip_width(div) - self.last_strip_width(
            div,
        );
        self.lemma_budget_balance(div);
        self.lemma_width_bounds(div);
        let q = (a + m - 1) / m;
        lemma_fundamental_div_mod(a + m - 1, m);
        vstd::arithmetic::div_mod::lemma_mod_bound(a + m - 1, m);
        assert(q * m == m * q) by (nonlinear_arith);
        assert(self.strip_count_spec(div, max_time) - 2 == q);
        assert(q * m <= a + m - 1);
        assert(q * m >= a + m - 1 - (m - 1));
    }

    /// The horizontal shift applied to note widths on strip `k`.
    pub fn x_offset(&self, div: i16, max_time: u64, k: u128) -> (x: i128)
        requires
            self.wf(),
            div >= 1,
            max_time <= MAX_TRACK_TIME,
            k < self.strip_count_spec(div as int, max_time as int),
        ensures
            x == self.x_offset_spec(div as int, k as int),
            -0x10_0000_0000_0000_0000_0000_0000 <= x <= 0x10_0000_0000_0000_0000_0000,
    {
        if k == 0 {
            let upm = self.units_per_um_i(div);
            let hr = self.hole_radius_i(div);
            let um = (self.lead_in_width as i128) + (self.interior_margin_left as i128);
            proof {
                lemma_mul_range(um as int, upm as int, 0, 0x200000000, 2, 0x1000000000000);
            }
            um * upm + hr
        } else {
            let first = self.first_width(div);
            let middle = self.middle_width(div);
            let ghost n = self.strip_count_spec(div as int, max_time as int);
            let ghost a = self.time_width(max_time as int) - self.first_strip_width(div as int)
                - self.last_strip_width(div as int);
            proof {
                // k >= 1 means more than one strip, so the piece overflowed
                // the lone-strip budget and the covering bound applies
                assert(self.time_width(max_time as int) > self.only_strip_width(div as int));
                self.lemma_strip_count_covers(div as int, max_time as int);
                self.lemma_strip_count_bound(div as int, max_time as int);
                self.lemma_time_width_bound(max_time as int);
                self.lemma_width_bounds(div as int);
                lemma_mul_inequality(k - 1, n - 2, middle as int);
                vstd::arithmetic::mul::lemma_mul_nonnegative(k - 1, middle as int);
                assert((k - 1) * (middle as int) <= a + middle - 1);
            }
            let km = ((k - 1) as i128) * middle;
            -(first + km)
        }
    }
}


impl Options {
    /// A tick span's width grows with the span.
    pub proof fn lemma_time_width_monotone(&self, t1: int, t2: int)
        by (nonlinear_arith)
        requires
            0 <= t1 <= t2,
            self.rows() >= 0,
            self.zigzags() >= 0,
        ensures
            self.time_width(t1) <= self.time_width(t2),
    {
    }
}

} // verus!
