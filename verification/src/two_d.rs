use crate::arith::div_q;
use crate::arith::lemma_product_in_range;
use crate::arith::lemma_blend_bounded;
use crate::arith::MAX_MAGNITUDE;
use crate::bracket::bracket_search;
use crate::bracket::closest_pick;
use crate::bracket::has_hit;
use crate::bracket::hit_index;
use crate::bracket::is_segment;
use crate::bracket::lemma_hit_index_unique;
use crate::bracket::lemma_segment_unique;
use crate::bracket::segment_index;
use crate::bracket::strictly_ascending;
use crate::bracket::within_limit;
use crate::one_d::line_value;
use crate::policy::Interpolation;
use crate::policy::TableError;
use vstd::prelude::*;

verus! {

/// The rows of a value matrix, each as a sequence.
pub open spec fn rows_view(values: Seq<Vec<i64>>) -> Seq<Seq<i64>> {
    Seq::new(values.len(), |j: int| values[j]@)
}

/// What the construction-time validation accepts for a grid: two ascending
/// axes of at least two breakpoints each, one matrix row per vertical
/// breakpoint, each row as long as the horizontal axis, and every entry
/// within [`MAX_MAGNITUDE`].
pub open spec fn valid_grid(bh: Seq<i64>, bv: Seq<i64>, m: Seq<Seq<i64>>) -> bool {
    &&& bh.len() >= 2
    &&& bv.len() >= 2
    &&& m.len() == bv.len()
    &&& forall|j: int| 0 <= j < m.len() ==> (#[trigger] m[j]).len() == bh.len()
    &&& strictly_ascending(bh)
    &&& strictly_ascending(bv)
    &&& within_limit(bh)
    &&& within_limit(bv)
    &&& forall|j: int| 0 <= j < m.len() ==> within_limit(#[trigger] m[j])
}

/// Which violation `new` reports for an invalid grid, in the order the
/// checks run.
pub open spec fn grid_error(bh: Seq<i64>, bv: Seq<i64>, m: Seq<Seq<i64>>) -> TableError {
    if m.len() != bv.len() || !(forall|j: int|
        0 <= j < m.len() ==> (#[trigger] m[j]).len() == bh.len()) {
        TableError::LengthMismatch
    } else if bh.len() < 2 || bv.len() < 2 {
        TableError::TooShort
    } else if !(within_limit(bh) && within_limit(bv) && forall|j: int|
        0 <= j < m.len() ==> within_limit(#[trigger] m[j])) {
        TableError::OutOfRange
    } else {
        TableError::NotAscending
    }
}

/// The query misses every breakpoint and lies strictly inside the range:
/// the one situation where an axis contributes a pair of indices to a
/// linear blend.
pub open spec fn bracketed(b: Seq<i64>, q: i64) -> bool {
    !has_hit(b, q) && b[0] < q && q < b[b.len() - 1]
}

/// The single index an axis resolves to when no segment strictly contains
/// the query: the index hit exactly, or the nearest edge — a 2-D lookup
/// never fails, out-of-range queries are always held at the extreme.
pub open spec fn clamped_index(b: Seq<i64>, q: i64) -> int {
    if has_hit(b, q) {
        hit_index(b, q)
    } else if q < b[0] {
        0
    } else {
        b.len() - 1
    }
}

/// The single index an axis resolves to under a non-blending policy:
/// inside a segment, Floor takes the lower index, Ceiling the upper,
/// Closest the nearer; everywhere else the clamped index.
pub open spec fn picked_index(b: Seq<i64>, q: i64, ip: Interpolation) -> int {
    if bracketed(b, q) {
        match ip {
            Interpolation::Linear => segment_index(b, q),
            Interpolation::Floor => segment_index(b, q) - 1,
            Interpolation::Ceiling => segment_index(b, q),
            Interpolation::Closest => closest_pick(b, q, segment_index(b, q)),
        }
    } else {
        clamped_index(b, q)
    }
}

/// A linear blend along one matrix row, across the segment `i` of the
/// horizontal axis.
pub open spec fn row_blend(bh: Seq<i64>, row: Seq<i64>, q: i64, i: int) -> int {
    line_value(q as int, bh[i - 1] as int, row[i - 1] as int, bh[i] - bh[i - 1], row[i] - row[i - 1])
}

/// The blend over resolved axis indices: a full bilinear blend when both
/// axes carry a pair, a single 1-D blend when only one does, and the bare
/// matrix cell when neither does.  A pair is always `(i, Some(i - 1))` for
/// a segment `i`; the blends truncate toward zero exactly as the 1-D
/// engine does.
pub open spec fn pair_value(
    bh: Seq<i64>,
    bv: Seq<i64>,
    m: Seq<Seq<i64>>,
    ih0: int,
    ih1: Option<int>,
    iv0: int,
    iv1: Option<int>,
    qh: i64,
    qv: i64,
) -> int {
    match (ih1, iv1) {
        (Some(_), Some(_)) => {
            let im0 = row_blend(bh, m[iv0 - 1], qh, ih0);
            let im1 = row_blend(bh, m[iv0], qh, ih0);
            line_value(qv as int, bv[iv0 - 1] as int, im0, bv[iv0] - bv[iv0 - 1], im1 - im0)
        },
        (Some(_), None) => row_blend(bh, m[iv0], qh, ih0),
        (None, Some(_)) => line_value(
            qv as int,
            bv[iv0 - 1] as int,
            m[iv0 - 1][ih0] as int,
            bv[iv0] - bv[iv0 - 1],
            m[iv0][ih0] - m[iv0 - 1][ih0],
        ),
        (None, None) => m[iv0][ih0] as int,
    }
}

/// The complete outcome of a 2-D lookup.  Under the Linear policy each
/// axis resolves independently to a segment pair (when bracketed) or a
/// single clamped index, and the resolved indices are blended; under the
/// other policies each axis resolves to a single index and the lookup
/// returns that matrix cell.
pub open spec fn grid_value(
    bh: Seq<i64>,
    bv: Seq<i64>,
    m: Seq<Seq<i64>>,
    qh: i64,
    qv: i64,
    ip: Interpolation,
) -> int {
    if ip is Linear {
        let ih0 = if bracketed(bh, qh) {
            segment_index(bh, qh)
        } else {
            clamped_index(bh, qh)
        };
        let ih1 = if bracketed(bh, qh) {
            Some(segment_index(bh, qh) - 1)
        } else {
            None::<int>
        };
        let iv0 = if bracketed(bv, qv) {
            segment_index(bv, qv)
        } else {
            clamped_index(bv, qv)
        };
        let iv1 = if bracketed(bv, qv) {
            Some(segment_index(bv, qv) - 1)
        } else {
            None::<int>
        };
        pair_value(bh, bv, m, ih0, ih1, iv0, iv1, qh, qv)
    } else {
        m[picked_index(bv, qv, ip)][picked_index(bh, qh, ip)] as int
    }
}

/// One axis has been resolved faithfully: under Linear a bracketed query
/// yields its segment as a pair and anything else the clamped single
/// index; under the other policies the picked single index.
pub open spec fn resolved(b: Seq<i64>, q: i64, ip: Interpolation, i0: int, i1: Option<int>) -> bool {
    if ip is Linear {
        if bracketed(b, q) {
            &&& i0 == segment_index(b, q)
            &&& is_segment(b, q, i0)
            &&& i1 == Some(i0 - 1)
        } else {
            i0 == clamped_index(b, q) && i1 is None
        }
    } else {
        i0 == picked_index(b, q, ip) && i1 is None
    }
}

/// A 2-D lookup table: two independent ascending axes and a value matrix,
/// `values[j][i]` corresponding to `(breakpoints_h[i], breakpoints_v[j])`.
pub struct TwoDLookup {
    breakpoints_h: Vec<i64>,
    breakpoints_v: Vec<i64>,
    values: Vec<Vec<i64>>,
}

impl TwoDLookup {
    /// The horizontal breakpoints, for specification purposes.
    pub closed spec fn breakpoints_h(&self) -> Seq<i64> {
        self.breakpoints_h@
    }

    /// The vertical breakpoints, for specification purposes.
    pub closed spec fn breakpoints_v(&self) -> Seq<i64> {
        self.breakpoints_v@
    }

    /// The value matrix as a sequence of rows, for specification purposes.
    pub closed spec fn grid(&self) -> Seq<Seq<i64>> {
        rows_view(self.values@)
    }

    /// A well-formed grid, established by `new` and never disturbed
    /// afterwards — the table is immutable.
    pub open spec fn wf(&self) -> bool {
        valid_grid(self.breakpoints_h(), self.breakpoints_v(), self.grid())
    }

    /// Validates the axes and the matrix shape and builds the table.
    /// Rejects — before any table exists — a matrix whose shape does not
    /// match the axes, an axis shorter than two, entries beyond
    /// [`MAX_MAGNITUDE`], and breakpoints that do not strictly ascend.
    pub fn new(breakpoints_h: Vec<i64>, breakpoints_v: Vec<i64>, values: Vec<Vec<i64>>) -> (r:
        Result<TwoDLookup, TableError>)
        ensures
            r is Ok <==> valid_grid(breakpoints_h@, breakpoints_v@, rows_view(values@)),
            r matches Ok(t) ==> t.wf() && t.breakpoints_h() == breakpoints_h@
                && t.breakpoints_v() == breakpoints_v@ && t.grid() == rows_view(values@),
            r matches Err(e) ==> e == grid_error(breakpoints_h@, breakpoints_v@, rows_view(values@)),
    {
        let ghost m = rows_view(values@);
        let n_h = breakpoints_h.len();
        let n_v = breakpoints_v.len();
        if values.len() != n_v {
            return Err(TableError::LengthMismatch);
        }
        let mut j: usize = 0;
        while j < n_v
            invariant
                j <= n_v,
                n_h == breakpoints_h@.len(),
                n_v == breakpoints_v@.len(),
                n_v == values@.len(),
                m == rows_view(values@),
                forall|t: int| 0 <= t < j ==> (#[trigger] m[t]).len() == n_h,
            decreases n_v - j,
        {
            if values[j].len() != n_h {
                proof {
                    assert(m[j as int].len() != n_h);
                }
                return Err(TableError::LengthMismatch);
            }
            proof {
                assert(m[j as int].len() == n_h);
            }
            j = j + 1;
        }
        if n_h < 2 || n_v < 2 {
            return Err(TableError::TooShort);
        }
        if !entries_within_limit(&breakpoints_h) || !entries_within_limit(&breakpoints_v) {
            return Err(TableError::OutOfRange);
        }
        let mut j: usize = 0;
        while j < n_v
            invariant
                j <= n_v,
                2 <= n_h == breakpoints_h@.len(),
                2 <= n_v == breakpoints_v@.len(),
                n_v == values@.len(),
                m == rows_view(values@),
                forall|t: int| 0 <= t < m.len() ==> (#[trigger] m[t]).len() == n_h,
                within_limit(breakpoints_h@),
                within_limit(breakpoints_v@),
                forall|t: int| 0 <= t < j ==> within_limit(#[trigger] m[t]),
            decreases n_v - j,
        {
            if !entries_within_limit(&values[j]) {
                proof {
                    assert(!within_limit(m[j as int]));
                }
                return Err(TableError::OutOfRange);
            }
            proof {
                assert(within_limit(m[j as int]));
            }
            j = j + 1;
        }
        if !entries_ascending(&breakpoints_h) || !entries_ascending(&breakpoints_v) {
            return Err(TableError::NotAscending);
        }
        Ok(TwoDLookup { breakpoints_h, breakpoints_v, values })
    }

    /// Resolves a pair of queries to a value.  Each axis resolves
    /// independently; under the Linear policy the resolved indices are
    /// blended bilinearly, under the other policies the lookup returns a
    /// single matrix cell.  The lookup is total: out-of-range queries are
    /// held at the nearest edge on either axis, never an error.  Queries
    /// live on the same bounded scale as the table entries, within
    /// [`MAX_MAGNITUDE`].
    pub fn lookup(&self, breakpoint_h: i64, breakpoint_v: i64, interpolation: Interpolation) -> (r:
        i64)
        requires
            self.wf(),
            -MAX_MAGNITUDE <= breakpoint_h <= MAX_MAGNITUDE,
            -MAX_MAGNITUDE <= breakpoint_v <= MAX_MAGNITUDE,
        ensures
            r as int == grid_value(
                self.breakpoints_h(),
                self.breakpoints_v(),
                self.grid(),
                breakpoint_h,
                breakpoint_v,
                interpolation,
            ),
    {
        let ghost bh = self.breakpoints_h@;
        let ghost bv = self.breakpoints_v@;
        let ghost m = self.grid();
        let n_h = self.breakpoints_h.len();
        let n_v = self.breakpoints_v.len();
        // resolve the horizontal axis to a single index or a segment pair
        let indexes_h: (usize, Option<usize>) = match bracket_search(
            &self.breakpoints_h,
            breakpoint_h,
        ) {
            Some(index) => {
                if self.breakpoints_h[index] == breakpoint_h {
                    proof {
                        lemma_hit_index_unique(bh, breakpoint_h, index as int);
                    }
                    (index, None)
                } else if index != 0 {
                    proof {
                        assert forall|t: int| 0 <= t < bh.len() implies bh[t] != breakpoint_h by {
                            if t >= index {
                                assert(bh[index as int] <= bh[t]);
                            }
                        }
                        lemma_segment_unique(bh, breakpoint_h, index as int);
                        assert(bh[0] <= bh[index - 1]);
                        assert(bh[index as int] <= bh[bh.len() - 1]);
                    }
                    match interpolation {
                        Interpolation::Linear => (index, Some(index - 1)),
                        Interpolation::Ceiling => (index, None),
                        Interpolation::Floor => (index - 1, None),
                        Interpolation::Closest => {
                            let bp_lo = self.breakpoints_h[index - 1];
                            let diff_actual_bp = self.breakpoints_h[index] - bp_lo;
                            let diff_factor = diff_actual_bp - (breakpoint_h - bp_lo);
                            if diff_factor > diff_actual_bp / 2 {
                                (index - 1, None)
                            } else {
                                (index, None)
                            }
                        },
                    }
                } else {
                    proof {
                        assert forall|t: int| 0 <= t < bh.len() implies bh[t] != breakpoint_h by {
                            assert(bh[0] <= bh[t]);
                        }
                    }
                    (0, None)
                }
            },
            None => {
                proof {
                    assert(bh[bh.len() - 1] < breakpoint_h);
                }
                (n_h - 1, None)
            },
        };
        proof {
            assert(resolved(bh, breakpoint_h, interpolation, indexes_h.0 as int, opt_index(indexes_h.1)));
        }
        // resolve the vertical axis and compose the result
        match bracket_search(&self.breakpoints_v, breakpoint_v) {
            Some(index) => {
                if self.breakpoints_v[index] == breakpoint_v {
                    proof {
                        lemma_hit_index_unique(bv, breakpoint_v, index as int);
                    }
                    match interpolation {
                        Interpolation::Linear => self.interpolate(
                            indexes_h,
                            (index, None),
                            breakpoint_h,
                            breakpoint_v,
                        ),
                        _ => self.cell(index, indexes_h.0),
                    }
                } else if index != 0 {
                    proof {
                        assert forall|t: int| 0 <= t < bv.len() implies bv[t] != breakpoint_v by {
                            if t >= index {
                                assert(bv[index as int] <= bv[t]);
                            }
                        }
                        lemma_segment_unique(bv, breakpoint_v, index as int);
                        assert(bv[0] <= bv[index - 1]);
                        assert(bv[index as int] <= bv[bv.len() - 1]);
                    }
                    match interpolation {
                        Interpolation::Linear => self.interpolate(
                            indexes_h,
                            (index, Some(index - 1)),
                            breakpoint_h,
                            breakpoint_v,
                        ),
                        Interpolation::Ceiling => self.cell(index, indexes_h.0),
                        Interpolation::Floor => self.cell(index - 1, indexes_h.0),
                        Interpolation::Closest => {
                            let bp_lo = self.breakpoints_v[index - 1];
                            let diff_actual_bp = self.breakpoints_v[index] - bp_lo;
                            let diff_factor = diff_actual_bp - (breakpoint_v - bp_lo);
                            if diff_factor > diff_actual_bp / 2 {
                                self.cell(index - 1, indexes_h.0)
                            } else {
                                self.cell(index, indexes_h.0)
                            }
                        },
                    }
                } else {
                    proof {
                        assert forall|t: int| 0 <= t < bv.len() implies bv[t] != breakpoint_v by {
                            assert(bv[0] <= bv[t]);
                        }
                    }
                    match interpolation {
                        Interpolation::Linear => self.interpolate(
                            indexes_h,
                            (0, None),
                            breakpoint_h,
                            breakpoint_v,
                        ),
                        _ => self.cell(0, indexes_h.0),
                    }
                }
            },
            None => {
                proof {
                    assert(bv[bv.len() - 1] < breakpoint_v);
                }
                match interpolation {
                    Interpolation::Linear => self.interpolate(
                        indexes_h,
                        (n_v - 1, None),
                        breakpoint_h,
                        breakpoint_v,
                    ),
                    _ => self.cell(n_v - 1, indexes_h.0),
                }
            },
        }
    }

    /// How the grid view lines up with the stored rows: same length, same
    /// entries, and each row well-formed.
    proof fn lemma_rows(&self)
        requires
            self.wf(),
        ensures
            self.grid().len() == self.values@.len(),
            forall|j: int| 0 <= j < self.values@.len() ==> (#[trigger] self.grid()[j])
                == self.values@[j]@,
            forall|j: int| 0 <= j < self.values@.len() ==> (#[trigger] self.grid()[j]).len()
                == self.breakpoints_h().len(),
            forall|j: int| 0 <= j < self.values@.len() ==> within_limit(#[trigger] self.grid()[j]),
    {
        assert forall|j: int| 0 <= j < self.values@.len() implies (#[trigger] self.grid()[j])
            == self.values@[j]@ && self.grid()[j].len() == self.breakpoints_h().len()
            && within_limit(self.grid()[j]) by {
            assert(self.grid()[j] == self.values@[j]@);
        }
    }

    /// One matrix cell.
    fn cell(&self, row: usize, col: usize) -> (r: i64)
        requires
            self.wf(),
            row < self.grid().len(),
            col < self.breakpoints_h().len(),
        ensures
            r == self.grid()[row as int][col as int],
    {
        proof {
            self.lemma_rows();
            assert(self.grid()[row as int] == self.values@[row as int]@);
        }
        self.values[row][col]
    }

    /// Blends the matrix over resolved axis indices: bilinearly when both
    /// axes carry a segment pair, along a single axis when only one does,
    /// and as a plain cell access when neither does.
    fn interpolate(
        &self,
        indexes_h: (usize, Option<usize>),
        indexes_v: (usize, Option<usize>),
        breakpoint_h: i64,
        breakpoint_v: i64,
    ) -> (r: i64)
        requires
            self.wf(),
            indexes_h.0 < self.breakpoints_h().len(),
            indexes_v.0 < self.breakpoints_v().len(),
            match indexes_h.1 {
                Some(i1) => i1 + 1 == indexes_h.0 && is_segment(
                    self.breakpoints_h(),
                    breakpoint_h,
                    indexes_h.0 as int,
                ),
                None => true,
            },
            match indexes_v.1 {
                Some(i1) => i1 + 1 == indexes_v.0 && is_segment(
                    self.breakpoints_v(),
                    breakpoint_v,
                    indexes_v.0 as int,
                ),
                None => true,
            },
        ensures
            r as int == pair_value(
                self.breakpoints_h(),
                self.breakpoints_v(),
                self.grid(),
                indexes_h.0 as int,
                opt_index(indexes_h.1),
                indexes_v.0 as int,
                opt_index(indexes_v.1),
                breakpoint_h,
                breakpoint_v,
            ),
    {
        let ghost bh = self.breakpoints_h@;
        let ghost bv = self.breakpoints_v@;
        let ghost m = self.grid();
        proof {
            self.lemma_rows();
        }
        if indexes_h.1.is_some() && indexes_v.1.is_some() {
            let ih = indexes_h.0;
            let iv = indexes_v.0;
            proof {
                assert(m[iv as int - 1] == self.values@[iv as int - 1]@);
                assert(m[iv as int] == self.values@[iv as int]@);
            }
            let bp_lo = self.breakpoints_h[ih - 1];
            let diff_actual_bp_h = self.breakpoints_h[ih] - bp_lo;
            let interpolated_diff_bp_h = breakpoint_h - bp_lo;
            let v00 = self.values[iv - 1][ih - 1];
            let v01 = self.values[iv - 1][ih];
            let v10 = self.values[iv][ih - 1];
            let v11 = self.values[iv][ih];
            let diff_values_l = v01 - v00;
            let diff_values_h = v11 - v10;
            proof {
                lemma_product_in_range(interpolated_diff_bp_h as int, diff_values_l as int);
                lemma_product_in_range(interpolated_diff_bp_h as int, diff_values_h as int);
                lemma_blend_bounded(
                    interpolated_diff_bp_h as int,
                    diff_actual_bp_h as int,
                    diff_values_l as int,
                );
                lemma_blend_bounded(
                    interpolated_diff_bp_h as int,
                    diff_actual_bp_h as int,
                    diff_values_h as int,
                );
            }
            let im0 = div_q(interpolated_diff_bp_h * diff_values_l, diff_actual_bp_h) + v00;
            let im1 = div_q(interpolated_diff_bp_h * diff_values_h, diff_actual_bp_h) + v10;
            let bv_lo = self.breakpoints_v[iv - 1];
            let diff_actual_bp_v = self.breakpoints_v[iv] - bv_lo;
            let interpolated_diff_bp_v = breakpoint_v - bv_lo;
            let diff_intermediary = im1 - im0;
            proof {
                lemma_product_in_range(interpolated_diff_bp_v as int, diff_intermediary as int);
            }
            div_q(interpolated_diff_bp_v * diff_intermediary, diff_actual_bp_v) + im0
        } else if indexes_h.1.is_none() && indexes_v.1.is_none() {
            proof {
                assert(m[indexes_v.0 as int] == self.values@[indexes_v.0 as int]@);
            }
            self.values[indexes_v.0][indexes_h.0]
        } else if indexes_h.1.is_none() {
            let iv = indexes_v.0;
            proof {
                assert(m[iv as int - 1] == self.values@[iv as int - 1]@);
                assert(m[iv as int] == self.values@[iv as int]@);
            }
            let v0 = self.values[iv - 1][indexes_h.0];
            let v1 = self.values[iv][indexes_h.0];
            let bv_lo = self.breakpoints_v[iv - 1];
            let diff_actual_bp_v = self.breakpoints_v[iv] - bv_lo;
            let interpolated_diff_bp_v = breakpoint_v - bv_lo;
            let diff_values = v1 - v0;
            proof {
                lemma_product_in_range(interpolated_diff_bp_v as int, diff_values as int);
            }
            div_q(interpolated_diff_bp_v * diff_values, diff_actual_bp_v) + v0
        } else {
            let ih = indexes_h.0;
            let iv = indexes_v.0;
            proof {
                assert(m[iv as int] == self.values@[iv as int]@);
            }
            let bp_lo = self.breakpoints_h[ih - 1];
            let diff_actual_bp_h = self.breakpoints_h[ih] - bp_lo;
            let interpolated_diff_bp_h = breakpoint_h - bp_lo;
            let v0 = self.values[iv][ih - 1];
            let v1 = self.values[iv][ih];
            let diff_values = v1 - v0;
            proof {
                lemma_product_in_range(interpolated_diff_bp_h as int, diff_values as int);
            }
            div_q(interpolated_diff_bp_h * diff_values, diff_actual_bp_h) + v0
        }
    }
}

/// The index pair's optional member, widened for specification use.
pub open spec fn opt_index(o: Option<usize>) -> Option<int> {
    match o {
        Some(i) => Some(i as int),
        None => None,
    }
}

/// Every entry within [`MAX_MAGNITUDE`]?
fn entries_within_limit(s: &Vec<i64>) -> (ok: bool)
    ensures
        ok <==> within_limit(s@),
{
    let n = s.len();
    let mut k: usize = 0;
    while k < n
        invariant
            k <= n,
            n == s@.len(),
            forall|j: int| 0 <= j < k ==> -MAX_MAGNITUDE <= #[trigger] s@[j] <= MAX_MAGNITUDE,
        decreases n - k,
    {
        if s[k] < -MAX_MAGNITUDE || s[k] > MAX_MAGNITUDE {
            return false;
        }
        k = k + 1;
    }
    true
}

/// Strictly ascending?
fn entries_ascending(s: &Vec<i64>) -> (ok: bool)
    ensures
        ok <==> strictly_ascending(s@),
{
    let n = s.len();
    let mut k: usize = 1;
    while k < n
        invariant
            1 <= k,
            k <= n || n == 0,
            n == s@.len(),
            forall|j: int| 0 < j < k ==> s@[j - 1] < #[trigger] s@[j],
        decreases n - k,
    {
        if s[k - 1] >= s[k] {
            return false;
        }
        k = k + 1;
    }
    proof {
        assert forall|i: int, j: int| 0 <= i < j < s@.len() implies s@[i] < s@[j] by {
            lemma_adjacent_ascending(s@, i, j);
        }
    }
    true
}

/// Pairwise ascent of neighbours extends to any two positions.
proof fn lemma_adjacent_ascending(s: Seq<i64>, i: int, j: int)
    requires
        forall|k: int| 0 < k < s.len() ==> s[k - 1] < #[trigger] s[k],
        0 <= i < j < s.len(),
    ensures
        s[i] < s[j],
    decreases j - i,
{
    if i + 1 < j {
        lemma_adjacent_ascending(s, i + 1, j);
    }
}

} // verus!
