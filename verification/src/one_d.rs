use crate::arith::div_q;
use crate::arith::div_trunc;
use crate::arith::lemma_product_in_range;
use crate::arith::MAX_MAGNITUDE;
use crate::bracket::bracket_search;
use crate::bracket::closest_pick;
use crate::bracket::has_hit;
use crate::bracket::hit_index;
use crate::bracket::lemma_hit_index_unique;
use crate::bracket::lemma_segment_unique;
use crate::bracket::segment_index;
use crate::bracket::strictly_ascending;
use crate::bracket::within_limit;
use crate::policy::Extrapolation;
use crate::policy::ExtrapolationError;
use crate::policy::Interpolation;
use crate::policy::TableError;
use vstd::arithmetic::mul::lemma_mul_unary_negation;
use vstd::prelude::*;

verus! {

/// What the construction-time validation accepts: equal lengths, at least
/// one segment, strictly ascending breakpoints, and every entry within
/// [`MAX_MAGNITUDE`].
pub open spec fn valid_table(b: Seq<i64>, v: Seq<i64>) -> bool {
    &&& b.len() == v.len()
    &&& b.len() >= 2
    &&& strictly_ascending(b)
    &&& within_limit(b)
    &&& within_limit(v)
}

/// Which violation `new` reports for an invalid pair of sequences, in the
/// order the checks run.
pub open spec fn table_error(b: Seq<i64>, v: Seq<i64>) -> TableError {
    if b.len() != v.len() {
        TableError::LengthMismatch
    } else if b.len() < 2 {
        TableError::TooShort
    } else if !(within_limit(b) && within_limit(v)) {
        TableError::OutOfRange
    } else {
        TableError::NotAscending
    }
}

/// The line through `(b_anchor, v_anchor)` with slope `delta_v / delta_b`,
/// evaluated at `q` with the quotient truncated toward zero — exactly the
/// integer arithmetic a lookup performs.
pub open spec fn line_value(q: int, b_anchor: int, v_anchor: int, delta_b: int, delta_v: int) -> int {
    div_trunc((q - b_anchor) * delta_v, delta_b) + v_anchor
}

/// The value resolved for a query strictly inside segment `i` (that is,
/// `b[i-1] < q < b[i]`) under the chosen interpolation policy.
pub open spec fn interpolated_value(b: Seq<i64>, v: Seq<i64>, i: int, q: i64, ip: Interpolation) -> int {
    match ip {
        Interpolation::Linear => line_value(
            q as int,
            b[i - 1] as int,
            v[i - 1] as int,
            b[i] - b[i - 1],
            v[i] - v[i - 1],
        ),
        Interpolation::Floor => v[i - 1] as int,
        Interpolation::Ceiling => v[i] as int,
        Interpolation::Closest => v[closest_pick(b, q, i)] as int,
    }
}

/// The outcome for a query below every breakpoint: `None` stands for the
/// extrapolation error.  Linear extrapolation continues the line of the
/// first segment, anchored at its upper end.
pub open spec fn low_result(b: Seq<i64>, v: Seq<i64>, q: i64, ex: Extrapolation) -> Option<int> {
    match ex {
        Extrapolation::Error => None,
        Extrapolation::HoldExtreme => Some(v[0] as int),
        Extrapolation::Linear => Some(
            line_value(q as int, b[1] as int, v[1] as int, b[1] - b[0], v[1] - v[0]),
        ),
    }
}

/// The outcome for a query above every breakpoint; Linear extrapolation
/// continues the line of the last segment, anchored at its lower end.
pub open spec fn high_result(b: Seq<i64>, v: Seq<i64>, q: i64, ex: Extrapolation) -> Option<int> {
    match ex {
        Extrapolation::Error => None,
        Extrapolation::HoldExtreme => Some(v[b.len() - 1] as int),
        Extrapolation::Linear => Some(
            line_value(
                q as int,
                b[b.len() - 2] as int,
                v[b.len() - 2] as int,
                b[b.len() - 1] - b[b.len() - 2],
                v[b.len() - 1] - v[b.len() - 2],
            ),
        ),
    }
}

/// The complete outcome of a 1-D lookup: an exact hit returns the aligned
/// value whatever the policies; otherwise a query outside the range is
/// extrapolated (`None` standing for the extrapolation error) and a query
/// strictly inside a segment is interpolated.
pub open spec fn lookup_result(
    b: Seq<i64>,
    v: Seq<i64>,
    q: i64,
    ex: Extrapolation,
    ip: Interpolation,
) -> Option<int> {
    if has_hit(b, q) {
        Some(v[hit_index(b, q)] as int)
    } else if q < b[0] {
        low_result(b, v, q, ex)
    } else if q > b[b.len() - 1] {
        high_result(b, v, q, ex)
    } else {
        Some(interpolated_value(b, v, segment_index(b, q), q, ip))
    }
}

/// Everything `lookup` promises of its result, as one relation — any result
/// it admits is pinned to [`lookup_result`].
pub open spec fn lookup_post(
    b: Seq<i64>,
    v: Seq<i64>,
    q: i64,
    ex: Extrapolation,
    ip: Interpolation,
    r: Result<i64, ExtrapolationError>,
) -> bool {
    match r {
        Ok(y) => Some(y as int) == lookup_result(b, v, q, ex, ip),
        Err(_) => lookup_result(b, v, q, ex, ip) is None,
    }
}

/// A 1-D lookup table: ascending breakpoints, aligned values, and the edge
/// deltas cached at construction so extrapolation needs no recomputation.
pub struct OneDLookup {
    breakpoints: Vec<i64>,
    values: Vec<i64>,
    last_diff_bp: i64,
    last_diff_values: i64,
    first_diff_bp: i64,
    first_diff_values: i64,
}

impl OneDLookup {
    /// The breakpoint sequence, for specification purposes.
    pub closed spec fn breakpoints(&self) -> Seq<i64> {
        self.breakpoints@
    }

    /// The value sequence, for specification purposes.
    pub closed spec fn values(&self) -> Seq<i64> {
        self.values@
    }

    /// The cached edge deltas equal the deltas of the edge segments.
    pub closed spec fn deltas_cached(&self) -> bool {
        &&& self.first_diff_bp as int == self.breakpoints@[1] - self.breakpoints@[0]
        &&& self.first_diff_values as int == self.values@[1] - self.values@[0]
        &&& self.last_diff_bp as int == self.breakpoints@[self.breakpoints@.len() - 1]
            - self.breakpoints@[self.breakpoints@.len() - 2]
        &&& self.last_diff_values as int == self.values@[self.values@.len() - 1]
            - self.values@[self.values@.len() - 2]
    }

    /// A well-formed table: validated sequences with correctly cached deltas.
    /// Established by `new` and never disturbed afterwards — the table is
    /// immutable.
    pub open spec fn wf(&self) -> bool {
        valid_table(self.breakpoints(), self.values()) && self.deltas_cached()
    }

    /// Validates the sequences and builds the table, caching the edge
    /// deltas.  Rejects — before any table exists — mismatched lengths,
    /// fewer than two entries, entries beyond [`MAX_MAGNITUDE`], and
    /// breakpoints that do not strictly ascend.
    pub fn new(breakpoints: Vec<i64>, values: Vec<i64>) -> (r: Result<OneDLookup, TableError>)
        ensures
            r is Ok <==> valid_table(breakpoints@, values@),
            r matches Ok(t) ==> t.wf() && t.breakpoints() == breakpoints@ && t.values() == values@,
            r matches Err(e) ==> e == table_error(breakpoints@, values@),
    {
        let n = breakpoints.len();
        if n != values.len() {
            return Err(TableError::LengthMismatch);
        }
        if n < 2 {
            return Err(TableError::TooShort);
        }
        let mut k: usize = 0;
        while k < n
            invariant
                k <= n,
                2 <= n,
                n == breakpoints@.len(),
                n == values@.len(),
                forall|j: int| 0 <= j < k ==> -MAX_MAGNITUDE <= #[trigger] breakpoints@[j] <= MAX_MAGNITUDE,
                forall|j: int| 0 <= j < k ==> -MAX_MAGNITUDE <= #[trigger] values@[j] <= MAX_MAGNITUDE,
            decreases n - k,
        {
            if breakpoints[k] < -MAX_MAGNITUDE || breakpoints[k] > MAX_MAGNITUDE
                || values[k] < -MAX_MAGNITUDE || values[k] > MAX_MAGNITUDE {
                return Err(TableError::OutOfRange);
            }
            k = k + 1;
        }
        let mut k: usize = 1;
        while k < n
            invariant
                1 <= k <= n,
                2 <= n,
                n == breakpoints@.len(),
                n == values@.len(),
                within_limit(breakpoints@),
                within_limit(values@),
                forall|j: int| 0 < j < k ==> breakpoints@[j - 1] < #[trigger] breakpoints@[j],
            decreases n - k,
        {
            if breakpoints[k - 1] >= breakpoints[k] {
                proof {
                    assert(!strictly_ascending(breakpoints@));
                }
                return Err(TableError::NotAscending);
            }
            k = k + 1;
        }
        proof {
            assert forall|i: int, j: int| 0 <= i < j < breakpoints@.len() implies breakpoints@[i]
                < breakpoints@[j] by {
                lemma_adjacent_implies_ascending(breakpoints@, i, j);
            }
        }
        Ok(
            OneDLookup {
                first_diff_bp: breakpoints[1] - breakpoints[0],
                first_diff_values: values[1] - values[0],
                last_diff_bp: breakpoints[n - 1] - breakpoints[n - 2],
                last_diff_values: values[n - 1] - values[n - 2],
                breakpoints,
                values,
            },
        )
    }

    /// Resolves a query to a value: the aligned value on an exact hit
    /// (whatever the policies — even `Error` extrapolation never fires on a
    /// hit at either boundary), the interpolated value strictly inside a
    /// segment, and the extrapolated value outside the range, which is the
    /// one place an error can arise.  Queries live on the same bounded
    /// scale as the table entries, within [`MAX_MAGNITUDE`].
    pub fn lookup(
        &self,
        breakpoint: i64,
        extrapolation: Extrapolation,
        interpolation: Interpolation,
    ) -> (r: Result<i64, ExtrapolationError>)
        requires
            self.wf(),
            -MAX_MAGNITUDE <= breakpoint <= MAX_MAGNITUDE,
        ensures
            lookup_post(self.breakpoints(), self.values(), breakpoint, extrapolation, interpolation, r),
            r is Err <==> (extrapolation is Error && (breakpoint < self.breakpoints()[0]
                || breakpoint > self.breakpoints()[self.breakpoints().len() - 1])),
    {
        let ghost b = self.breakpoints@;
        let ghost v = self.values@;
        let n = self.breakpoints.len();
        match bracket_search(&self.breakpoints, breakpoint) {
            Some(index) => {
                if self.breakpoints[index] == breakpoint {
                    proof {
                        lemma_hit_index_unique(b, breakpoint, index as int);
                    }
                    Ok(self.values[index])
                } else if index != 0 {
                    proof {
                        assert forall|j: int| 0 <= j < b.len() implies b[j] != breakpoint by {
                            if j >= index {
                                assert(b[index as int] <= b[j]);
                            }
                        }
                        lemma_segment_unique(b, breakpoint, index as int);
                        assert(b[0] <= b[index - 1]);
                        assert(b[index as int] <= b[b.len() - 1]);
                    }
                    let bp_lo = self.breakpoints[index - 1];
                    let bp_hi = self.breakpoints[index];
                    let diff_actual_bp = bp_hi - bp_lo;
                    match interpolation {
                        Interpolation::Linear => {
                            let interpolated_diff_bp = breakpoint - bp_lo;
                            let diff_values = self.values[index] - self.values[index - 1];
                            proof {
                                lemma_product_in_range(interpolated_diff_bp as int, diff_values as int);
                            }
                            let quot = div_q(interpolated_diff_bp * diff_values, diff_actual_bp);
                            Ok(quot + self.values[index - 1])
                        },
                        Interpolation::Ceiling => Ok(self.values[index]),
                        Interpolation::Floor => Ok(self.values[index - 1]),
                        Interpolation::Closest => {
                            let diff_factor = diff_actual_bp - (breakpoint - bp_lo);
                            if diff_factor > diff_actual_bp / 2 {
                                Ok(self.values[index - 1])
                            } else {
                                Ok(self.values[index])
                            }
                        },
                    }
                } else {
                    // the query lies below the first breakpoint
                    proof {
                        assert forall|j: int| 0 <= j < b.len() implies b[j] != breakpoint by {
                            assert(b[0] <= b[j]);
                        }
                    }
                    match extrapolation {
                        Extrapolation::Error => Err(ExtrapolationError),
                        Extrapolation::HoldExtreme => Ok(self.values[0]),
                        Extrapolation::Linear => {
                            let extrapolated_diff_bp = self.breakpoints[1] - breakpoint;
                            proof {
                                lemma_product_in_range(
                                    extrapolated_diff_bp as int,
                                    -(self.first_diff_values as int),
                                );
                                lemma_mul_unary_negation(
                                    extrapolated_diff_bp as int,
                                    self.first_diff_values as int,
                                );
                                lemma_mul_unary_negation(
                                    -(extrapolated_diff_bp as int),
                                    self.first_diff_values as int,
                                );
                            }
                            let quot = div_q(
                                extrapolated_diff_bp * (-self.first_diff_values),
                                self.first_diff_bp,
                            );
                            Ok(quot + self.values[1])
                        },
                    }
                }
            },
            None => {
                // the query lies above the last breakpoint
                proof {
                    assert(b[b.len() - 1] < breakpoint);
                }
                match extrapolation {
                    Extrapolation::Error => Err(ExtrapolationError),
                    Extrapolation::HoldExtreme => Ok(self.values[n - 1]),
                    Extrapolation::Linear => {
                        let extrapolated_diff_bp = breakpoint - self.breakpoints[n - 2];
                        proof {
                            lemma_product_in_range(
                                extrapolated_diff_bp as int,
                                self.last_diff_values as int,
                            );
                        }
                        let quot = div_q(
                            extrapolated_diff_bp * self.last_diff_values,
                            self.last_diff_bp,
                        );
                        Ok(quot + self.values[n - 2])
                    },
                }
            },
        }
    }
}

/// Pairwise ascent of neighbours extends to any two positions.
proof fn lemma_adjacent_implies_ascending(s: Seq<i64>, i: int, j: int)
    requires
        forall|k: int| 0 < k < s.len() ==> s[k - 1] < #[trigger] s[k],
        0 <= i < j < s.len(),
    ensures
        s[i] < s[j],
    decreases j - i,
{
    if i + 1 < j {
        lemma_adjacent_implies_ascending(s, i + 1, j);
    }
}

} // verus!
