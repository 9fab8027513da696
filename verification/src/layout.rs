//! The layout engine: one call turns a decoded score and the configuration
//! into the finished page/strip/hole geometry, or one of the engine errors.

use vstd::arithmetic::div_mod::{
    lemma_div_is_ordered, lemma_div_plus_one, lemma_fundamental_div_mod, lemma_mod_bound,
};
use vstd::arithmetic::mul::{
    lemma_mul_inequality, lemma_mul_is_distributive_add_other_way,
    lemma_mul_is_distributive_sub_other_way,
};
use vstd::prelude::*;

use crate::model::{Error, Page};
use crate::model::Strip;
use crate::notes::{
    extracted_notes, normalize, normalized, pitches_ok, Note, Score, MAX_TRACK_TIME,
};
use crate::options::{ceil_div, lemma_mul_bound, Options};
use crate::strip::{first_invalid, resolve_rows, row_lookup};

verus! {

/// Every strip index below `n` sits on page `k / spp` at slot `k % spp`,
/// and that page exists and is long enough.
pub proof fn lemma_strip_slot(n: int, spp: int, k: int)
    requires
        1 <= spp,
        0 <= k < n,
    ensures
        0 <= k / spp < ceil_div(n, spp),
        0 <= k % spp < spp,
        k == (k / spp) * spp + (k % spp),
        k % spp < n - (k / spp) * spp,
{
    lemma_fundamental_div_mod(k, spp);
    lemma_mod_bound(k, spp);
    lemma_div_is_ordered(k, n - 1, spp);
    lemma_div_plus_one(n - 1, spp);
    vstd::arithmetic::div_mod::lemma_div_pos_is_pos(k, spp);
    assert((k / spp) * spp == spp * (k / spp)) by (nonlinear_arith);
}

/// Every page index below the page count starts at a strip index that
/// exists.
pub proof fn lemma_page_start(n: int, spp: int, p: int)
    requires
        1 <= spp,
        1 <= n,
        0 <= p < ceil_div(n, spp),
    ensures
        0 <= p * spp < n,
{
    lemma_div_plus_one(n - 1, spp);
    lemma_fundamental_div_mod(n - 1, spp);
    lemma_mod_bound(n - 1, spp);
    lemma_mul_inequality(p, (n - 1) / spp, spp);
    assert(((n - 1) / spp) * spp == spp * ((n - 1) / spp)) by (nonlinear_arith);
    vstd::arithmetic::mul::lemma_mul_nonnegative(p, spp);
}

impl Options {
    /// How many strips page `p` carries: a full page, or what is left on
    /// the last one.
    pub open spec fn strips_on_page(&self, div: int, maxt: int, p: int) -> int {
        let n = self.strip_count_spec(div, maxt);
        let spp = self.strips_per_page_spec();
        if n - p * spp < spp {
            n - p * spp
        } else {
            spp
        }
    }

    /// What a successful layout promises: as many pages as the packer
    /// computes, each page filled top to bottom, and strip `k` of `n` on
    /// page `k / strips_per_page` at slot `k % strips_per_page`, matching
    /// the strip builder's geometry exactly.
    pub open spec fn pages_wf(&self, div: int, ns: Seq<Note>, pages: Seq<Page>) -> bool {
        let maxt = ns[ns.len() - 1].time as int;
        let n = self.strip_count_spec(div, maxt);
        let spp = self.strips_per_page_spec();
        &&& pages.len() == self.page_count_spec(div, maxt)
        &&& forall|p: int|
            0 <= p < pages.len() ==> (#[trigger] pages[p].strips@.len()) == self.strips_on_page(
                div,
                maxt,
                p,
            )
        &&& forall|k: int|
            0 <= k < n ==> self.strip_matches(
                div,
                ns,
                k,
                n,
                k % spp,
                #[trigger] pages[k / spp].strips@[k % spp],
            )
    }

    /// Lay out the score: normalize the selected track, pack strips and
    /// pages, and build every strip's geometry. Returns the full page list,
    /// or the first applicable error; never a partial layout.
    pub fn layout(&self, score: &Score) -> (r: Result<Vec<Page>, Error>)
        requires
            self.wf(),
            self.track_num < score.tracks@.len() ==> {
                &&& score.track_time(self.track_num as int) <= MAX_TRACK_TIME
                &&& pitches_ok(score.tracks@[self.track_num as int].events@)
            },
        ensures
            score.division <= 0 <==> r == Result::<Vec<Page>, Error>::Err(Error::UnsupportedDiv),
            score.division > 0 ==> ((self.track_num >= score.tracks@.len()) <==> r
                == Result::<Vec<Page>, Error>::Err(Error::TrackNotFound)),
            score.division > 0 && self.track_num < score.tracks@.len() ==> {
                let raw = extracted_notes(score.tracks@[self.track_num as int].events@);
                &&& (raw.len() == 0 <==> r == Result::<Vec<Page>, Error>::Err(Error::EmptyTrack))
                &&& (raw.len() > 0 ==> {
                    let ns = normalized(raw);
                    let fi = first_invalid(self.notes@, ns);
                    &&& (fi >= 0 ==> r == Result::<Vec<Page>, Error>::Err(
                        Error::InvalidNote(ns[fi].note),
                    ))
                    &&& (fi < 0 ==> r is Ok && self.pages_wf(
                        score.division as int,
                        ns,
                        r->Ok_0@,
                    ))
                })
            },
    {
        let notes = match normalize(score, self.track_num) {
            Ok(v) => v,
            Err(e) => {
                return Err(e);
            },
        };
        let rows = match resolve_rows(&self.notes, &notes) {
            Ok(v) => v,
            Err(e) => {
                return Err(e);
            },
        };
        let div = score.division;
        let max_time = notes[notes.len() - 1].time;
        let n = self.strip_count(div, max_time);
        let spp = self.strips_per_page();
        let np = self.page_count(div, max_time);
        let ghost maxt = max_time as int;
        let ghost nspec = self.strip_count_spec(div as int, maxt);
        let ghost sppspec = self.strips_per_page_spec();
        let mut pages: Vec<Page> = Vec::new();
        let mut p: u128 = 0;
        while p < np
            invariant
                self.wf(),
                div >= 1,
                max_time <= MAX_TRACK_TIME,
                notes@.len() > 0,
                max_time == notes@[notes@.len() - 1].time,
                forall|i: int| 0 <= i < notes@.len() ==> (#[trigger] notes@[i].time) <= MAX_TRACK_TIME,
                rows@.len() == notes@.len(),
                forall|i: int|
                    0 <= i < notes@.len() ==> #[trigger] rows@[i] as int == row_lookup(
                        self.notes@,
                        notes@[i].note,
                    ) && rows@[i] < self.notes@.len(),
                maxt == max_time as int,
                nspec == self.strip_count_spec(div as int, maxt),
                sppspec == self.strips_per_page_spec(),
                n as int == nspec,
                1 <= n <= 0x8_0000_0000_0000_0000_0000_0000,
                spp as int == sppspec,
                1 <= spp <= 0x1_0000_0001,
                np as int == self.page_count_spec(div as int, maxt),
                np as int == ceil_div(nspec, sppspec),
                0 <= p <= np,
                pages@.len() == p,
                forall|q: int|
                    0 <= q < p ==> (#[trigger] pages@[q].strips@.len()) == self.strips_on_page(
                        div as int,
                        maxt,
                        q,
                    ),
                forall|q: int, s: int|
                    0 <= q < p && 0 <= s < pages@[q].strips@.len() ==> self.strip_matches(
                        div as int,
                        notes@,
                        q * sppspec + s,
                        nspec,
                        s,
                        #[trigger] pages@[q].strips@[s],
                    ),
            decreases np - p,
        {
            proof {
                lemma_page_start(nspec, sppspec, p as int);
                lemma_mul_inequality(p as int, np as int, sppspec);
                lemma_div_plus_one(nspec - 1, sppspec);
                lemma_fundamental_div_mod(nspec - 1, sppspec);
                lemma_mod_bound(nspec - 1, sppspec);
            }
            let base = p * (spp as u128);
            let remaining = n - base;
            let count: u64 = if (spp as u128) <= remaining {
                spp
            } else {
                remaining as u64
            };
            let mut strips: Vec<Strip> = Vec::new();
            let mut sop: u64 = 0;
            while sop < count
                invariant
                    self.wf(),
                    div >= 1,
                    max_time <= MAX_TRACK_TIME,
                    notes@.len() > 0,
                    max_time == notes@[notes@.len() - 1].time,
                    forall|i: int|
                        0 <= i < notes@.len() ==> (#[trigger] notes@[i].time) <= MAX_TRACK_TIME,
                    rows@.len() == notes@.len(),
                    forall|i: int|
                        0 <= i < notes@.len() ==> #[trigger] rows@[i] as int == row_lookup(
                            self.notes@,
                            notes@[i].note,
                        ) && rows@[i] < self.notes@.len(),
                    maxt == max_time as int,
                    nspec == self.strip_count_spec(div as int, maxt),
                    sppspec == self.strips_per_page_spec(),
                    n as int == nspec,
                    spp as int == sppspec,
                    1 <= spp <= 0x1_0000_0001,
                    base == p as int * sppspec,
                    0 <= base < n,
                    count as int == self.strips_on_page(div as int, maxt, p as int),
                    count <= spp,
                    base + count <= n,
                    0 <= sop <= count,
                    strips@.len() == sop,
                    forall|s: int|
                        0 <= s < sop ==> self.strip_matches(
                            div as int,
                            notes@,
                            base as int + s,
                            nspec,
                            s,
                            #[trigger] strips@[s],
                        ),
                decreases count - sop,
            {
                let k = base + (sop as u128);
                let s = self.build_strip(div, &notes, &rows, k, n, sop, max_time);
                strips.push(s);
                sop += 1;
            }
            pages.push(Page { strips: strips });
            p += 1;
        }
        proof {
            assert forall|k: int| 0 <= k < nspec implies self.strip_matches(
                div as int,
                notes@,
                k,
                nspec,
                k % sppspec,
                #[trigger] pages@[k / sppspec].strips@[k % sppspec],
            ) by {
                lemma_strip_slot(nspec, sppspec, k);
                let q = k / sppspec;
                let s = k % sppspec;
                assert(pages@[q].strips@.len() == self.strips_on_page(div as int, maxt, q));
                assert(s < pages@[q].strips@.len());
                assert(self.strip_matches(
                    div as int,
                    notes@,
                    q * sppspec + s,
                    nspec,
                    s,
                    pages@[q].strips@[s],
                ));
            }
        }
        Ok(pages)
    }

    /// The hole radius a renderer must draw: the configured radius shrunk
    /// by half the cut stroke width, so that after a cut of that stroke the
    /// physical hole has exactly the configured diameter. In layout units,
    /// for every hole of the layout.
    pub fn emitted_hole_radius(&self, div: i16) -> (r: i128)
        requires
            self.wf(),
            div >= 1,
        ensures
            r == self.hole_radius_units(div as int) - self.cut_stroke_width
                * self.half_units_per_um(div as int),
    {
        let half = self.half_units_per_um_i(div);
        let d = (self.hole_diameter as i128) - (self.cut_stroke_width as i128);
        proof {
            lemma_mul_bound(d as int, half as int, 0x100000000, 0x800000000000);
            assert((self.hole_diameter - self.cut_stroke_width) * (half as int)
                == self.hole_diameter * (half as int) - self.cut_stroke_width * (half as int))
                by (nonlinear_arith);
        }
        d * half
    }
}

impl Options {
    /// Least tick width visible on strip `k`: any earlier note would end
    /// left of the strip's start.
    pub open spec fn window_lo(&self, div: int, k: int) -> int {
        -self.x_offset_spec(div, k) - self.hole_radius_units(div)
    }

    /// Greatest tick width visible on strip `k`: any later note would begin
    /// past the right page margin.
    pub open spec fn window_hi(&self, div: int, k: int) -> int {
        self.page_right(div) - self.left_edge(div) + self.hole_radius_units(div)
            - self.x_offset_spec(div, k)
    }

    /// A note is visible on a strip exactly when its width falls inside the
    /// strip's window.
    pub proof fn lemma_window_kept(&self, div: int, k: int, t: int)
        ensures
            self.hole_kept(div, self.x_offset_spec(div, k), t) <==> (self.window_lo(div, k)
                <= self.time_width(t) <= self.window_hi(div, k)),
    {
    }

    /// The windows in terms of the packer's budgets: the first strip starts
    /// at or before tick zero; strip `k` starts where the first strip and
    /// `k - 1` middle strips end; each window reaches one middle width plus
    /// the join material and a hole radius further.
    pub proof fn lemma_window_shape(&self, div: int, k: int)
        requires
            self.wf(),
            1 <= div <= 0x7fff,
        ensures
            self.window_lo(div, 0) <= 0,
            self.window_hi(div, 0) == self.first_strip_width(div) + self.eff_join_um()
                * self.units_per_um(div) + self.hole_radius_units(div),
            k >= 1 ==> self.window_lo(div, k) == self.first_strip_width(div) + (k - 1)
                * self.middle_strip_width(div) - self.hole_radius_units(div),
            k >= 1 ==> self.window_hi(div, k) == self.first_strip_width(div) + (k - 1)
                * self.middle_strip_width(div) + self.middle_strip_width(div) + self.eff_join_um()
                * self.units_per_um(div) + self.hole_radius_units(div),
            self.last_strip_width(div) == self.middle_strip_width(div) + self.eff_join_um()
                * self.units_per_um(div) - self.interior_margin_right * self.units_per_um(div)
                - self.hole_radius_units(div),
            self.only_strip_width(div) <= self.window_hi(div, 0),
            self.eff_join_um() * self.units_per_um(div) >= 0,
            self.hole_radius_units(div) >= 0,
    {
        self.lemma_unit_bounds(div);
        let u = self.units_per_um(div);
        let pw = self.page_width as int;
        let ml = self.margin_left as int;
        let mr = self.margin_right as int;
        let liw = self.lead_in_width as int;
        let iml = self.interior_margin_left as int;
        let imr = self.interior_margin_right as int;
        let j = self.eff_join_um();
        lemma_mul_is_distributive_sub_other_way(u, pw - ml - mr - liw - iml, j);
        lemma_mul_is_distributive_sub_other_way(u, pw - ml - mr - liw, iml);
        lemma_mul_is_distributive_sub_other_way(u, pw - ml - mr, liw);
        lemma_mul_is_distributive_sub_other_way(u, pw - ml, mr);
        lemma_mul_is_distributive_sub_other_way(u, pw, ml);
        lemma_mul_is_distributive_sub_other_way(u, pw, mr);
        lemma_mul_is_distributive_sub_other_way(u, pw - ml - mr, j);
        lemma_mul_is_distributive_sub_other_way(u, pw - ml - mr, imr);
        lemma_mul_is_distributive_sub_other_way(u, pw - ml - mr - liw - iml, imr);
        lemma_mul_is_distributive_add_other_way(u, liw, iml);
        vstd::arithmetic::mul::lemma_mul_nonnegative(liw + iml, u);
        vstd::arithmetic::mul::lemma_mul_nonnegative(j, u);
        vstd::arithmetic::mul::lemma_mul_nonnegative(imr, u);
    }

    /// Adjacent strips' visible ranges leave no gap, and overlap by exactly
    /// the join material plus one hole diameter.
    pub proof fn lemma_adjacent_windows(&self, div: int, k: int)
        requires
            self.wf(),
            1 <= div <= 0x7fff,
            k >= 1,
        ensures
            self.window_lo(div, k) <= self.window_hi(div, k - 1),
            self.window_hi(div, k - 1) - self.window_lo(div, k) == self.eff_join_um()
                * self.units_per_um(div) + 2 * self.hole_radius_units(div),
    {
        self.lemma_window_shape(div, k);
        self.lemma_window_shape(div, k - 1);
        let m = self.middle_strip_width(div);
        if k == 1 {
            assert((k - 1) * m == 0) by (nonlinear_arith)
                requires
                    k == 1,
            ;
        } else {
            lemma_mul_is_distributive_sub_other_way(m, k - 1, 1);
        }
        self.lemma_width_bounds(div);
    }

    /// Strip coverage: every tick from zero to the last note is visible on
    /// at least one strip, so no note falls between strips.
    pub proof fn lemma_strip_coverage(&self, div: int, max_time: int, t: int)
        requires
            self.wf(),
            1 <= div <= 0x7fff,
            0 <= t <= max_time,
            max_time <= MAX_TRACK_TIME,
        ensures
            exists|k: int|
                0 <= k < self.strip_count_spec(div, max_time) && #[trigger] self.hole_kept(
                    div,
                    self.x_offset_spec(div, k),
                    t,
                ),
    {
        let n = self.strip_count_spec(div, max_time);
        let u = self.units_per_um(div);
        let r = self.hole_radius_units(div);
        let f = self.first_strip_width(div);
        let m = self.middle_strip_width(div);
        let l = self.last_strip_width(div);
        let j = self.eff_join_um();
        let w = self.time_width(t);
        let tmax = self.time_width(max_time);
        self.lemma_unit_bounds(div);
        self.lemma_width_bounds(div);
        self.lemma_window_shape(div, 1);
        self.lemma_time_width_monotone(t, max_time);
        self.lemma_time_width_monotone(0, t);
        assert(w >= 0);
        if tmax <= self.only_strip_width(div) {
            // one strip carries everything
            self.lemma_window_kept(div, 0, t);
            assert(self.hole_kept(div, self.x_offset_spec(div, 0), t));
        } else if w <= self.window_hi(div, 0) {
            self.lemma_strip_count_covers(div, max_time);
            self.lemma_window_kept(div, 0, t);
            assert(self.hole_kept(div, self.x_offset_spec(div, 0), t));
            assert(0 < n);
        } else {
            // past the first strip: w > f + j*u + r >= f
            self.lemma_strip_count_covers(div, max_time);
            let q = (w - f - 1) / m;
            lemma_fundamental_div_mod(w - f - 1, m);
            lemma_mod_bound(w - f - 1, m);
            vstd::arithmetic::div_mod::lemma_div_pos_is_pos(w - f - 1, m);
            assert(q * m == m * q) by (nonlinear_arith);
            if q + 1 <= n - 1 {
                self.lemma_window_shape(div, q + 1);
                self.lemma_window_kept(div, q + 1, t);
                assert(self.window_lo(div, q + 1) <= w);
                assert(w <= self.window_hi(div, q + 1));
                assert(self.hole_kept(div, self.x_offset_spec(div, q + 1), t));
            } else {
                // the last strip reaches past the final note
                self.lemma_window_shape(div, n - 1);
                self.lemma_window_kept(div, n - 1, t);
                lemma_mul_inequality(n - 2, q, m);
                assert((n - 2) * m <= q * m);
                assert(self.window_lo(div, n - 1) <= w);
                assert(w <= self.window_hi(div, n - 1));
                assert(self.hole_kept(div, self.x_offset_spec(div, n - 1), t));
            }
        }
    }
}

} // verus!
