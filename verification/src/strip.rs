//! Strip geometry builder: for one strip, the outline polygon, the label,
//! and the kerf-ordered hole positions.

use vstd::prelude::*;
use vstd::string::StringExecFns;

use crate::decimal::{dec_digits, push_decimal};
use crate::model::points_match;
use crate::model::{Error, Point, Strip, Text};
use crate::notes::{note_leq, Note, MAX_TRACK_TIME};
use vstd::relations::sorted_by;
use crate::options::{lemma_mul_bound, lemma_mul_range, Options};

verus! {

/// Index of the first occurrence of `v` in `list`, or -1 when absent:
/// row assignment uses a linear first-match scan, so the pitch list needs no
/// ordering.
pub open spec fn row_lookup(list: Seq<u8>, v: u8) -> int
    decreases list.len(),
{
    if list.len() == 0 {
        -1
    } else if list[0] == v {
        0
    } else {
        let r = row_lookup(list.drop_first(), v);
        if r == -1 {
            -1
        } else {
            1 + r
        }
    }
}

/// What the first-match scan returns: either -1 and the value is absent, or
/// the least index holding the value.
pub proof fn lemma_row_lookup(list: Seq<u8>, v: u8)
    ensures
        -1 <= row_lookup(list, v) < list.len(),
        row_lookup(list, v) >= 0 ==> list[row_lookup(list, v)] == v && forall|j: int|
            0 <= j < row_lookup(list, v) ==> list[j] != v,
        row_lookup(list, v) == -1 ==> forall|j: int| 0 <= j < list.len() ==> list[j] != v,
    decreases list.len(),
{
    if list.len() > 0 && list[0] != v {
        lemma_row_lookup(list.drop_first(), v);
        let r = row_lookup(list.drop_first(), v);
        if r >= 0 {
            assert forall|j: int| 0 <= j < row_lookup(list, v) implies list[j] != v by {
                if j > 0 {
                    assert(list.drop_first()[j - 1] != v);
                }
            }
        } else {
            assert forall|j: int| 0 <= j < list.len() implies list[j] != v by {
                if j > 0 {
                    assert(list.drop_first()[j - 1] != v);
                }
            }
        }
    }
}

/// The row of value `v`: its first position in the pitch list.
fn find_row(list: &Vec<u8>, v: u8) -> (r: Option<usize>)
    ensures
        match r {
            Some(i) => i as int == row_lookup(list@, v),
            None => row_lookup(list@, v) == -1,
        },
{
    proof {
        lemma_row_lookup(list@, v);
    }
    let mut i: usize = 0;
    while i < list.len()
        invariant
            0 <= i <= list@.len(),
            forall|j: int| 0 <= j < i ==> list@[j] != v,
            -1 <= row_lookup(list@, v) < list@.len(),
            row_lookup(list@, v) >= 0 ==> list@[row_lookup(list@, v)] == v && forall|j: int|
                0 <= j < row_lookup(list@, v) ==> list@[j] != v,
            row_lookup(list@, v) == -1 ==> forall|j: int| 0 <= j < list@.len() ==> list@[j] != v,
        decreases list@.len() - i,
    {
        if list[i] == v {
            return Some(i);
        }
        i += 1;
    }
    None
}

/// Index of the first note whose row-space pitch is absent from the pitch
/// list, or -1 when every note has a row.
pub open spec fn first_invalid(list: Seq<u8>, ns: Seq<Note>) -> int
    decreases ns.len(),
{
    if ns.len() == 0 {
        -1
    } else if row_lookup(list, ns[0].note) == -1 {
        0
    } else {
        let r = first_invalid(list, ns.drop_first());
        if r == -1 {
            -1
        } else {
            1 + r
        }
    }
}

/// What the first-invalid scan returns: either -1 and every note resolves,
/// or the least index of a note that does not.
pub proof fn lemma_first_invalid(list: Seq<u8>, ns: Seq<Note>)
    ensures
        -1 <= first_invalid(list, ns) < ns.len(),
        first_invalid(list, ns) >= 0 ==> row_lookup(list, ns[first_invalid(list, ns)].note) == -1
            && forall|j: int|
            0 <= j < first_invalid(list, ns) ==> row_lookup(list, #[trigger] ns[j].note) >= 0,
        first_invalid(list, ns) == -1 ==> forall|j: int|
            0 <= j < ns.len() ==> row_lookup(list, #[trigger] ns[j].note) >= 0,
    decreases ns.len(),
{
    if ns.len() > 0 {
        lemma_row_lookup(list, ns[0].note);
        if row_lookup(list, ns[0].note) != -1 {
            lemma_first_invalid(list, ns.drop_first());
            let r = first_invalid(list, ns.drop_first());
            if r >= 0 {
                assert forall|j: int| 0 <= j < first_invalid(list, ns) implies row_lookup(
                    list,
                    #[trigger] ns[j].note,
                ) >= 0 by {
                    if j > 0 {
                        assert(row_lookup(list, ns.drop_first()[j - 1].note) >= 0);
                    }
                }
            } else {
                assert forall|j: int| 0 <= j < ns.len() implies row_lookup(
                    list,
                    #[trigger] ns[j].note,
                ) >= 0 by {
                    if j > 0 {
                        assert(row_lookup(list, ns.drop_first()[j - 1].note) >= 0);
                    }
                }
            }
        }
    }
}

/// Resolve every note's row up front. Either all notes resolve, or the
/// first note (in time order) without a row is reported, with its
/// row-space pitch value.
pub fn resolve_rows(list: &Vec<u8>, ns: &Vec<Note>) -> (r: Result<Vec<usize>, Error>)
    ensures
        match r {
            Ok(rows) => {
                &&& first_invalid(list@, ns@) == -1
                &&& rows@.len() == ns@.len()
                &&& forall|i: int|
                    0 <= i < ns@.len() ==> #[trigger] rows@[i] as int == row_lookup(
                        list@,
                        ns@[i].note,
                    ) && rows@[i] < list@.len()
            },
            Err(e) => {
                let fi = first_invalid(list@, ns@);
                &&& fi >= 0
                &&& e == Error::InvalidNote(ns@[fi].note)
            },
        },
{
    proof {
        lemma_first_invalid(list@, ns@);
    }
    let ghost fi = first_invalid(list@, ns@);
    let mut rows: Vec<usize> = Vec::new();
    let mut i: usize = 0;
    while i < ns.len()
        invariant
            0 <= i <= ns@.len(),
            rows@.len() == i,
            forall|j: int|
                0 <= j < i ==> #[trigger] rows@[j] as int == row_lookup(list@, ns@[j].note)
                    && rows@[j] < list@.len(),
            forall|j: int| 0 <= j < i ==> row_lookup(list@, #[trigger] ns@[j].note) >= 0,
            fi == first_invalid(list@, ns@),
            -1 <= fi < ns@.len(),
            fi >= 0 ==> row_lookup(list@, ns@[fi].note) == -1 && i <= fi,
        decreases ns@.len() - i,
    {
        proof {
            lemma_row_lookup(list@, ns@[i as int].note);
            lemma_first_invalid(list@, ns@);
        }
        match find_row(list, ns[i].note) {
            Some(row) => {
                rows.push(row);
                proof {
                    // a valid row at the first-invalid index would contradict
                    if fi == i {
                        assert(false);
                    }
                }
            },
            None => {
                proof {
                    // every earlier note resolved, so this is the first
                    // invalid one
                    if fi != i {
                        if fi == -1 || fi > i {
                            assert(row_lookup(list@, ns@[i as int].note) >= 0);
                        }
                        assert(false);
                    }
                }
                return Err(Error::InvalidNote(ns[i].note));
            },
        }
        i += 1;
    }
    proof {
        if fi >= 0 {
            assert(false);
        }
    }
    Ok(rows)
}


/// The strip label: `"<title> (<k> of <n>)"`.
pub open spec fn label_string(title: Seq<char>, k: int, n: int) -> Seq<char> {
    title + " ("@ + dec_digits(k) + " of "@ + dec_digits(n) + ")"@
}

/// Build one strip label.
fn make_label(title: &String, k: u128, n: u128) -> (s: String)
    ensures
        s@ == label_string(title@, k as int, n as int),
{
    let mut s = title.clone();
    s.append(" (");
    push_decimal(&mut s, k);
    s.append(" of ");
    push_decimal(&mut s, n);
    s.append(")");
    proof {
        assert(s@ =~= label_string(title@, k as int, n as int));
    }
    s
}

impl Options {
    /// Absolute x of the left page margin, in layout units.
    pub open spec fn left_edge(&self, div: int) -> int {
        self.margin_left * self.units_per_um(div)
    }

    /// Absolute x of the right page margin, in layout units.
    pub open spec fn page_right(&self, div: int) -> int {
        (self.page_width - self.margin_right) * self.units_per_um(div)
    }

    /// Vertical distance between two adjacent rows, in layout units:
    /// the tape interior divided by the row-gap count, exact by unit choice.
    pub open spec fn row_step(&self, div: int) -> int {
        (self.tape_height - self.interior_margin_top - self.interior_margin_bottom) * (2 * div
            * self.zigzags())
    }

    /// Whether a note at tick `t` is visible on the strip with offset
    /// `off`: its local x must not end before the strip starts, nor begin
    /// past the right page margin.
    pub open spec fn hole_kept(&self, div: int, off: int, t: int) -> bool {
        &&& self.time_width(t) + off + self.hole_radius_units(div) >= 0
        &&& self.time_width(t) + off + self.left_edge(div) - self.hole_radius_units(div)
            <= self.page_right(div)
    }

    /// Absolute centre of the hole for a note at tick `t` on row `row` of a
    /// strip at vertical position `te`.
    pub open spec fn hole_point(&self, div: int, off: int, te: int, t: int, row: int) -> (
        int,
        int,
    ) {
        (
            self.time_width(t) + off + self.left_edge(div),
            row * self.row_step(div) + self.interior_margin_top * self.units_per_um(div) + te,
        )
    }

    /// The holes of one strip: every visible note's hole, in note order.
    pub open spec fn holes_of(&self, div: int, off: int, te: int, ns: Seq<Note>) -> Seq<
        (int, int),
    >
        decreases ns.len(),
    {
        if ns.len() == 0 {
            Seq::empty()
        } else {
            let rest = self.holes_of(div, off, te, ns.drop_first());
            if self.hole_kept(div, off, ns[0].time as int) {
                seq![
                    self.hole_point(div, off, te, ns[0].time as int, row_lookup(self.notes@, ns[0].note)),
                ] + rest
            } else {
                rest
            }
        }
    }

    /// Holes distribute over concatenation of note sequences.
    pub proof fn lemma_holes_of_append(&self, div: int, off: int, te: int, a: Seq<Note>, b: Seq<
        Note,
    >)
        ensures
            self.holes_of(div, off, te, a + b) == self.holes_of(div, off, te, a) + self.holes_of(
                div,
                off,
                te,
                b,
            ),
        decreases a.len(),
    {
        if a.len() == 0 {
            assert(a + b =~= b);
            assert(self.holes_of(div, off, te, a) + self.holes_of(div, off, te, b)
                =~= self.holes_of(div, off, te, b));
        } else {
            self.lemma_holes_of_append(div, off, te, a.drop_first(), b);
            assert((a + b).drop_first() =~= a.drop_first() + b);
            assert((a + b)[0] == a[0]);
            if self.hole_kept(div, off, a[0].time as int) {
                assert(self.holes_of(div, off, te, a + b) =~= self.holes_of(div, off, te, a)
                    + self.holes_of(div, off, te, b));
            }
        }
    }

    /// Row step as a machine integer.
    fn row_step_i(&self, div: i16) -> (h: i128)
        requires
            self.wf(),
            div >= 1,
        ensures
            h == self.row_step(div as int),
            -0x8_0000_0000_0000_0000 <= h <= 0x8_0000_0000_0000_0000,
    {
        let zz = self.num_zig_zags as i128;
        let um = (self.tape_height as i128) - (self.interior_margin_top as i128) - (
        self.interior_margin_bottom as i128);
        proof {
            lemma_mul_range(2 * (div as int), zz as int, 2, 0x10000, 1, 0x10000);
            lemma_mul_bound(um as int, 2 * (div as int) * (zz as int), 0x300000000, 0x100000000);
        }
        um * (2 * (div as i128) * zz)
    }

    /// Left page margin in layout units.
    fn left_edge_i(&self, div: i16) -> (x: i128)
        requires
            self.wf(),
            div >= 1,
        ensures
            x == self.left_edge(div as int),
            0 <= x <= 0x1_0000_0000_0000_0000_0000,
    {
        let upm = self.units_per_um_i(div);
        proof {
            lemma_mul_range(self.margin_left as int, upm as int, 0, 0x100000000, 2, 0x1000000000000);
        }
        (self.margin_left as i128) * upm
    }

    /// Right page margin in layout units.
    fn page_right_i(&self, div: i16) -> (x: i128)
        requires
            self.wf(),
            div >= 1,
        ensures
            x == self.page_right(div as int),
            0 <= x <= 0x1_0000_0000_0000_0000_0000,
    {
        let upm = self.units_per_um_i(div);
        let um = (self.page_width as i128) - (self.margin_right as i128);
        proof {
            lemma_mul_range(um as int, upm as int, 0, 0x100000000, 2, 0x1000000000000);
        }
        um * upm
    }

    /// Place the holes of one strip: walk the time-ordered notes, keep the
    /// visible ones.
    fn build_holes(&self, div: i16, ns: &Vec<Note>, rows: &Vec<usize>, off: i128, te: i128) -> (hs:
        Vec<Point>)
        requires
            self.wf(),
            div >= 1,
            rows@.len() == ns@.len(),
            forall|i: int|
                0 <= i < ns@.len() ==> #[trigger] rows@[i] as int == row_lookup(
                    self.notes@,
                    ns@[i].note,
                ) && rows@[i] < self.notes@.len(),
            forall|i: int| 0 <= i < ns@.len() ==> (#[trigger] ns@[i].time) <= MAX_TRACK_TIME,
            -0x10_0000_0000_0000_0000_0000_0000 <= off <= 0x10_0000_0000_0000_0000_0000,
            0 <= te <= 0x400000000000000000000000000000,
        ensures
            points_match(hs@, self.holes_of(div as int, off as int, te as int, ns@)),
    {
        let hr = self.hole_radius_i(div);
        let le = self.left_edge_i(div);
        let pr = self.page_right_i(div);
        let rs = self.row_step_i(div);
        let upm = self.units_per_um_i(div);
        proof {
            lemma_mul_range(
                self.interior_margin_top as int,
                upm as int,
                0,
                0x100000000,
                2,
                0x1000000000000,
            );
        }
        let imt_u = (self.interior_margin_top as i128) * upm;
        let mut hs: Vec<Point> = Vec::new();
        let mut i: usize = 0;
        proof {
            assert(ns@.take(0int) =~= Seq::<Note>::empty());
            assert(points_match(hs@, self.holes_of(div as int, off as int, te as int, ns@.take(0int))));
        }
        while i < ns.len()
            invariant
                self.wf(),
                div >= 1,
                0 <= i <= ns@.len(),
                rows@.len() == ns@.len(),
                forall|j: int|
                    0 <= j < ns@.len() ==> #[trigger] rows@[j] as int == row_lookup(
                        self.notes@,
                        ns@[j].note,
                    ) && rows@[j] < self.notes@.len(),
                forall|j: int| 0 <= j < ns@.len() ==> (#[trigger] ns@[j].time) <= MAX_TRACK_TIME,
                -0x10_0000_0000_0000_0000_0000_0000 <= off <= 0x10_0000_0000_0000_0000_0000,
                0 <= te <= 0x400000000000000000000000000000,
                hr == self.hole_radius_units(div as int),
                0 <= hr <= 0x8000_0000_0000_0000_0000,
                le == self.left_edge(div as int),
                0 <= le <= 0x1_0000_0000_0000_0000_0000,
                pr == self.page_right(div as int),
                0 <= pr <= 0x1_0000_0000_0000_0000_0000,
                rs == self.row_step(div as int),
                -0x8_0000_0000_0000_0000 <= rs <= 0x8_0000_0000_0000_0000,
                imt_u == self.interior_margin_top * self.units_per_um(div as int),
                0 <= imt_u <= 0x1_0000_0000_0000_0000_0000,
                points_match(
                    hs@,
                    self.holes_of(div as int, off as int, te as int, ns@.take(i as int)),
                ),
            decreases ns@.len() - i,
        {
            let n = ns[i];
            let x = self.time_to_width(n.time) + off;
            let ghost prefix = self.holes_of(div as int, off as int, te as int, ns@.take(i as int));
            let ghost single = self.holes_of(div as int, off as int, te as int, seq![ns@[i as int]]);
            let ghost before = hs@;
            proof {
                assert(ns@.take(i as int + 1) =~= ns@.take(i as int) + seq![ns@[i as int]]);
                self.lemma_holes_of_append(
                    div as int,
                    off as int,
                    te as int,
                    ns@.take(i as int),
                    seq![ns@[i as int]],
                );
                assert(seq![ns@[i as int]].drop_first() =~= Seq::<Note>::empty());
                assert(self.holes_of(div as int, off as int, te as int, Seq::<Note>::empty())
                    =~= Seq::<(int, int)>::empty());
            }
            if x + hr >= 0 && x + le - hr <= pr {
                let row = rows[i];
                proof {
                    lemma_mul_bound(row as int, rs as int, 0x10000, 0x80000000000000000);
                }
                let y = (row as i128) * rs + imt_u + te;
                hs.push((x + le, y));
                proof {
                    let pt = self.hole_point(
                        div as int,
                        off as int,
                        te as int,
                        ns@[i as int].time as int,
                        row_lookup(self.notes@, ns@[i as int].note),
                    );
                    assert(single =~= seq![pt]);
                    let whole = self.holes_of(
                        div as int,
                        off as int,
                        te as int,
                        ns@.take(i as int + 1),
                    );
                    assert(whole == prefix + single);
                    assert forall|j: int| 0 <= j < whole.len() implies hs@[j].0
                        == #[trigger] whole[j].0 && hs@[j].1 == whole[j].1 by {
                        if j < prefix.len() {
                            assert(whole[j] == prefix[j]);
                            assert(hs@[j] == before[j]);
                            assert(before[j].0 == prefix[j].0);
                            assert(before[j].1 == prefix[j].1);
                        } else {
                            assert(whole[j] == pt);
                            assert(hs@[j] == ((x + le) as i128, y as i128));
                        }
                    }
                }
            } else {
                proof {
                    assert(!self.hole_kept(div as int, off as int, ns@[i as int].time as int));
                    assert(single =~= Seq::<(int, int)>::empty());
                    let whole = self.holes_of(
                        div as int,
                        off as int,
                        te as int,
                        ns@.take(i as int + 1),
                    );
                    assert(whole =~= prefix);
                }
            }
            i += 1;
        }
        proof {
            assert(ns@.take(ns@.len() as int) =~= ns@);
        }
        hs
    }
}


impl Options {
    /// Top edge of the strip at vertical slot `sop` of its page.
    pub open spec fn top_edge_spec(&self, div: int, sop: int) -> int {
        (self.margin_top + sop * (self.tape_height + self.gap)) * self.units_per_um(div)
    }

    /// Right edge of strip `k` of `n`: the last strip ends exactly one
    /// clearance and hole radius past the last note; every other strip ends
    /// where its join material starts.
    pub open spec fn right_edge_spec(&self, div: int, k: int, n: int, maxt: int) -> int {
        if k + 1 == n {
            self.time_width(maxt) + self.x_offset_spec(div, k) + self.interior_margin_right
                * self.units_per_um(div) + self.hole_radius_units(div)
        } else {
            (self.page_width - self.margin_right - self.eff_join_um()) * self.units_per_um(div)
        }
    }

    /// The first strip's opening edge: a diagonal lead-in from the top-left
    /// corner down to `lead_in_height` above the bottom edge, then across to
    /// `lead_in_width` at the bottom edge.
    pub open spec fn lead_in_points(&self, div: int, le: int, te: int) -> Seq<(int, int)> {
        seq![
            (le, te),
            (le, te + (self.tape_height - self.lead_in_height) * self.units_per_um(div)),
            (le + self.lead_in_width * self.units_per_um(div), te + self.tape_units(div)),
        ]
    }

    /// The outline polygon of strip `k` of `n`, implicitly closed: lead-in
    /// or left join, then the right edge square or the right join traced in
    /// reverse so adjacent strips interlock.
    pub open spec fn outline_points(&self, div: int, k: int, n: int, te: int, maxt: int) -> Seq<
        (int, int),
    > {
        let le = self.left_edge(div);
        let re = self.right_edge_spec(div, k, n, maxt);
        let head = if k == 0 {
            self.lead_in_points(div, le, te)
        } else {
            self.join_points(div, le, te)
        };
        let tail = if k + 1 == n {
            seq![(re, te + self.tape_units(div)), (re, te)]
        } else {
            self.join_points(div, re, te).reverse()
        };
        head + tail
    }

    /// Anchor of the strip label: just inside the lead-in on the first
    /// strip, one millimetre past the join on the others; half the top
    /// interior margin below the strip's top edge.
    pub open spec fn label_pos(&self, div: int, k: int, te: int) -> (int, int) {
        (
            self.left_edge(div) + if k == 0 {
                self.lead_in_width * self.units_per_um(div)
            } else {
                self.eff_join_um() * self.units_per_um(div) + self.units_per_mm_spec(div)
            },
            te + self.interior_margin_top * self.half_units_per_um(div),
        )
    }

    /// Label font size: half the top interior margin.
    pub open spec fn font_units(&self, div: int) -> int {
        self.interior_margin_top * self.half_units_per_um(div)
    }

    /// Everything the builder promises of one strip: the outline polygon,
    /// the holes of the visible notes in time order, and the label (absent
    /// exactly when the title is empty).
    pub open spec fn strip_matches(
        &self,
        div: int,
        ns: Seq<Note>,
        k: int,
        n: int,
        sop: int,
        s: Strip,
    ) -> bool {
        let maxt = ns[ns.len() - 1].time as int;
        let te = self.top_edge_spec(div, sop);
        let off = self.x_offset_spec(div, k);
        &&& points_match(s.outline@, self.outline_points(div, k, n, te, maxt))
        &&& points_match(s.holes@, self.holes_of(div, off, te, ns))
        &&& if self.title@.len() == 0 {
            s.texts@.len() == 0
        } else {
            &&& s.texts@.len() == 1
            &&& s.texts@[0].position.0 == self.label_pos(div, k, te).0
            &&& s.texts@[0].position.1 == self.label_pos(div, k, te).1
            &&& s.texts@[0].text@ == label_string(self.title@, k + 1, n)
            &&& s.texts@[0].font_size == self.font_units(div)
        }
    }

    /// Every strip outline is a real polygon: at least four points, for
    /// every strip index and connecting-edge style.
    pub proof fn lemma_outline_has_points(&self, div: int, k: int, n: int, te: int, maxt: int)
        requires
            self.wf(),
        ensures
            self.outline_points(div, k, n, te, maxt).len() >= 4,
    {
        let le = self.left_edge(div);
        let re = self.right_edge_spec(div, k, n, maxt);
        if k != 0 {
            assert(self.join_points(div, le, te).len() >= 2);
        }
        if k + 1 != n {
            assert(self.join_points(div, re, te).len() >= 2);
        }
    }

    /// Top edge of the strip at slot `sop`, in layout units.
    fn top_edge_i(&self, div: i16, sop: u64) -> (te: i128)
        requires
            self.wf(),
            div >= 1,
            sop <= 0x1_0000_0001,
        ensures
            te == self.top_edge_spec(div as int, sop as int),
            0 <= te <= 0x80000000000000000000000000000,
    {
        let band = (self.tape_height as i128) + (self.gap as i128);
        proof {
            lemma_mul_range(sop as int, band as int, 0, 0x200000000, 1, 0x200000000);
        }
        let um = (self.margin_top as i128) + (sop as i128) * band;
        let upm = self.units_per_um_i(div);
        proof {
            lemma_mul_range(um as int, upm as int, 0, 0x80000000000000000, 2, 0x1000000000000);
        }
        um * upm
    }

    /// Build one strip: outline, label, and holes.
    pub fn build_strip(
        &self,
        div: i16,
        ns: &Vec<Note>,
        rows: &Vec<usize>,
        k: u128,
        n: u128,
        sop: u64,
        max_time: u64,
    ) -> (s: Strip)
        requires
            self.wf(),
            div >= 1,
            max_time <= MAX_TRACK_TIME,
            ns@.len() > 0,
            max_time == ns@[ns@.len() - 1].time,
            rows@.len() == ns@.len(),
            forall|i: int|
                0 <= i < ns@.len() ==> #[trigger] rows@[i] as int == row_lookup(
                    self.notes@,
                    ns@[i].note,
                ) && rows@[i] < self.notes@.len(),
            forall|i: int| 0 <= i < ns@.len() ==> (#[trigger] ns@[i].time) <= MAX_TRACK_TIME,
            n as int == self.strip_count_spec(div as int, max_time as int),
            k < n,
            sop <= 0x1_0000_0001,
        ensures
            self.strip_matches(div as int, ns@, k as int, n as int, sop as int, s),
    {
        let te = self.top_edge_i(div, sop);
        let off = self.x_offset(div, max_time, k);
        let le = self.left_edge_i(div);
        let th_u = self.tape_units_i(div);
        let upm = self.units_per_um_i(div);
        let hr = self.hole_radius_i(div);
        let first = k == 0;
        let last = k + 1 == n;
        let re: i128 = if last {
            let tw = self.time_to_width(max_time);
            proof {
                lemma_mul_range(
                    self.interior_margin_right as int,
                    upm as int,
                    0,
                    0x100000000,
                    2,
                    0x1000000000000,
                );
            }
            tw + off + (self.interior_margin_right as i128) * upm + hr
        } else {
            let um = (self.page_width as i128) - (self.margin_right as i128) - self.eff_join_i();
            proof {
                lemma_mul_bound(um as int, upm as int, 0x400000000, 0x1000000000000);
            }
            um * upm
        };
        let ghost maxt = ns@[ns@.len() - 1].time as int;
        let ghost head_model = if k == 0 {
            self.lead_in_points(div as int, le as int, te as int)
        } else {
            self.join_points(div as int, le as int, te as int)
        };
        let mut outline: Vec<Point>;
        if first {
            proof {
                lemma_mul_bound(
                    (self.tape_height as int) - (self.lead_in_height as int),
                    upm as int,
                    0x100000000,
                    0x1000000000000,
                );
                lemma_mul_range(self.lead_in_width as int, upm as int, 0, 0x100000000, 2, 0x1000000000000);
            }
            outline = Vec::new();
            outline.push((le, te));
            outline.push(
                (le, te + ((self.tape_height as i128) - (self.lead_in_height as i128)) * upm),
            );
            outline.push((le + (self.lead_in_width as i128) * upm, te + th_u));
            proof {
                assert(points_match(outline@, head_model));
            }
        } else {
            outline = self.join_edge(div, le, te);
        }
        let ghost head_seq = outline@;
        let ghost head_len = outline@.len();
        proof {
            assert(points_match(head_seq, head_model));
        }
        if last {
            outline.push((re, te + th_u));
            outline.push((re, te));
        } else {
            let jp = self.join_edge(div, re, te);
            let ghost jp_model = self.join_points(div as int, re as int, te as int);
            let mut t = jp.len();
            while t > 0
                invariant
                    0 <= t <= jp@.len(),
                    points_match(jp@, jp_model),
                    outline@.len() == head_len + (jp@.len() - t),
                    head_len == head_seq.len(),
                    forall|q: int| 0 <= q < head_len ==> #[trigger] outline@[q] == head_seq[q],
                    forall|q: int|
                        0 <= q < jp@.len() - t ==> (#[trigger] outline@[head_len + q]).0
                            == jp_model[jp_model.len() - 1 - q].0 && outline@[head_len + q].1
                            == jp_model[jp_model.len() - 1 - q].1,
                decreases t,
            {
                t -= 1;
                let p = jp[t];
                outline.push(p);
            }
        }
        proof {
            let om = self.outline_points(div as int, k as int, n as int, te as int, maxt);
            let tail_model = if k + 1 == n as int {
                seq![
                    ((re as int), te + self.tape_units(div as int)),
                    ((re as int), (te as int)),
                ]
            } else {
                self.join_points(div as int, re as int, te as int).reverse()
            };
            assert(om == head_model + tail_model);
            assert(outline@.len() == om.len());
            assert forall|q: int| 0 <= q < om.len() implies outline@[q].0 == (#[trigger] om[q]).0
                && outline@[q].1 == om[q].1 by {
                if q < head_len {
                    assert(om[q] == head_model[q]);
                    assert(outline@[q] == head_seq[q]);
                    assert(head_seq[q].0 == head_model[q].0);
                    assert(head_seq[q].1 == head_model[q].1);
                } else {
                    assert(om[q] == tail_model[q - head_len]);
                    if k + 1 != n as int {
                        let jm = self.join_points(div as int, re as int, te as int);
                        assert(tail_model[q - head_len] == jm[jm.len() - 1 - (q - head_len)]);
                        assert((outline@[head_len + (q - head_len)]).0 == jm[jm.len() - 1 - (q
                            - head_len)].0);
                        assert((outline@[head_len + (q - head_len)]).1 == jm[jm.len() - 1 - (q
                            - head_len)].1);
                        assert(outline@[q] == outline@[head_len + (q - head_len)]);
                    }
                }
            }
            assert(points_match(outline@, om));
        }
        let mut texts: Vec<Text> = Vec::new();
        if !self.title.as_str().is_empty() {
            let lx: i128 = le + if first {
                proof {
                    lemma_mul_range(self.lead_in_width as int, upm as int, 0, 0x100000000, 2, 0x1000000000000);
                }
                (self.lead_in_width as i128) * upm
            } else {
                proof {
                    lemma_mul_range(self.eff_join_um(), upm as int, 0, 0x100000000, 2, 0x1000000000000);
                }
                self.eff_join_i() * upm + self.units_per_mm(div)
            };
            let half = self.half_units_per_um_i(div);
            proof {
                lemma_mul_range(self.interior_margin_top as int, half as int, 0, 0x100000000, 1, 0x800000000000);
            }
            let ly = te + (self.interior_margin_top as i128) * half;
            let fs = (self.interior_margin_top as i128) * half;
            let label = make_label(&self.title, (k + 1) as u128, n);
            texts.push(Text { position: (lx, ly), text: label, font_size: fs });
        }
        let holes = self.build_holes(div, ns, rows, off, te);
        Strip { texts: texts, outline: outline, holes: holes }
    }
}


impl Options {
    /// Every hole of a strip sits at or right of the width of `t_low`, when
    /// no note is earlier than `t_low`.
    pub proof fn lemma_holes_x_lower(
        &self,
        div: int,
        off: int,
        te: int,
        ns: Seq<Note>,
        t_low: int,
    )
        requires
            self.wf(),
            0 <= t_low,
            forall|i: int| 0 <= i < ns.len() ==> t_low <= (#[trigger] ns[i].time),
        ensures
            forall|idx: int|
                0 <= idx < self.holes_of(div, off, te, ns).len() ==> self.time_width(t_low) + off
                    + self.left_edge(div) <= (#[trigger] self.holes_of(div, off, te, ns)[idx]).0,
        decreases ns.len(),
    {
        if ns.len() > 0 {
            assert forall|i: int| 0 <= i < ns.drop_first().len() implies t_low <= (
            #[trigger] ns.drop_first()[i].time) by {
                assert(ns.drop_first()[i] == ns[i + 1]);
            }
            self.lemma_holes_x_lower(div, off, te, ns.drop_first(), t_low);
            self.lemma_time_width_monotone(t_low, ns[0].time as int);
            let h = self.holes_of(div, off, te, ns);
            let rest = self.holes_of(div, off, te, ns.drop_first());
            assert forall|idx: int| 0 <= idx < h.len() implies self.time_width(t_low) + off
                + self.left_edge(div) <= (#[trigger] h[idx]).0 by {
                if self.hole_kept(div, off, ns[0].time as int) {
                    if idx > 0 {
                        assert(h[idx] == rest[idx - 1]);
                    }
                } else {
                    assert(h[idx] == rest[idx]);
                }
            }
        }
    }

    /// A note visible on a strip really gets a hole there: the strip's
    /// hole list holds that note's hole point.
    pub proof fn lemma_kept_note_has_hole(&self, div: int, off: int, te: int, ns: Seq<Note>, i: int)
        requires
            0 <= i < ns.len(),
            self.hole_kept(div, off, ns[i].time as int),
        ensures
            exists|j: int|
                0 <= j < self.holes_of(div, off, te, ns).len() && #[trigger] self.holes_of(
                    div,
                    off,
                    te,
                    ns,
                )[j] == self.hole_point(
                    div,
                    off,
                    te,
                    ns[i].time as int,
                    row_lookup(self.notes@, ns[i].note),
                ),
        decreases ns.len(),
    {
        let h = self.holes_of(div, off, te, ns);
        if i == 0 {
            assert(h[0] == self.hole_point(
                div,
                off,
                te,
                ns[0].time as int,
                row_lookup(self.notes@, ns[0].note),
            ));
        } else {
            assert(ns.drop_first()[i - 1] == ns[i]);
            self.lemma_kept_note_has_hole(div, off, te, ns.drop_first(), i - 1);
            let rest = self.holes_of(div, off, te, ns.drop_first());
            let pt = self.hole_point(
                div,
                off,
                te,
                ns[i].time as int,
                row_lookup(self.notes@, ns[i].note),
            );
            let j = choose|j: int| 0 <= j < rest.len() && #[trigger] rest[j] == pt;
            if self.hole_kept(div, off, ns[0].time as int) {
                assert(h[j + 1] == rest[j]);
            } else {
                assert(h[j] == rest[j]);
            }
        }
    }

    /// Time monotonicity of a strip's holes: walked in order, the holes of
    /// a strip never move left, because notes are time-ordered and the
    /// strip's offset is constant.
    pub proof fn lemma_holes_x_monotone(&self, div: int, off: int, te: int, ns: Seq<Note>)
        requires
            self.wf(),
            sorted_by(ns, note_leq()),
        ensures
            forall|a: int, b: int|
                #![trigger self.holes_of(div, off, te, ns)[a], self.holes_of(div, off, te, ns)[b]]
                0 <= a <= b < self.holes_of(div, off, te, ns).len() ==> self.holes_of(
                    div,
                    off,
                    te,
                    ns,
                )[a].0 <= self.holes_of(div, off, te, ns)[b].0,
        decreases ns.len(),
    {
        if ns.len() > 0 {
            assert forall|x: int, y: int|
                0 <= x < y < ns.drop_first().len() implies note_leq()(
                ns.drop_first()[x],
                ns.drop_first()[y],
            ) by {
                assert(ns.drop_first()[x] == ns[x + 1]);
                assert(ns.drop_first()[y] == ns[y + 1]);
                assert(note_leq()(ns[x + 1], ns[y + 1]));
            }
            self.lemma_holes_x_monotone(div, off, te, ns.drop_first());
            assert forall|i: int| 0 <= i < ns.drop_first().len() implies ns[0].time as int <= (
            #[trigger] ns.drop_first()[i].time) by {
                assert(ns.drop_first()[i] == ns[i + 1]);
                assert(note_leq()(ns[0], ns[i + 1]));
            }
            self.lemma_holes_x_lower(div, off, te, ns.drop_first(), ns[0].time as int);
            let h = self.holes_of(div, off, te, ns);
            let rest = self.holes_of(div, off, te, ns.drop_first());
            assert forall|a: int, b: int|
                #![trigger h[a], h[b]]
                0 <= a <= b < h.len() implies h[a].0 <= h[b].0 by {
                if self.hole_kept(div, off, ns[0].time as int) {
                    if a == 0 {
                        if b > 0 {
                            assert(h[b] == rest[b - 1]);
                        }
                    } else {
                        assert(h[a] == rest[a - 1]);
                        assert(h[b] == rest[b - 1]);
                        assert(rest[a - 1].0 <= rest[b - 1].0);
                    }
                } else {
                    assert(h[a] == rest[a]);
                    assert(h[b] == rest[b]);
                    assert(rest[a].0 <= rest[b].0);
                }
            }
        }
    }
}

} // verus!
