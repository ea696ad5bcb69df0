use crate::bracket::has_hit;
use crate::bracket::lemma_hit_index_unique;
use crate::one_d::lookup_post;
use crate::one_d::lookup_result;
use crate::one_d::valid_table;
use crate::policy::Extrapolation;
use crate::policy::ExtrapolationError;
use crate::policy::Interpolation;
use crate::two_d::grid_value;
use crate::two_d::valid_grid;
use vstd::prelude::*;

verus! {

/// Exact-hit law: a query that lands exactly on a breakpoint resolves to
/// the aligned value, whatever the policies — neither interpolation nor
/// extrapolation fires on a hit, not even `Error` at a boundary.
pub proof fn lemma_exact_hit(
    b: Seq<i64>,
    v: Seq<i64>,
    i: int,
    ex: Extrapolation,
    ip: Interpolation,
)
    requires
        valid_table(b, v),
        0 <= i < b.len(),
    ensures
        lookup_result(b, v, b[i], ex, ip) == Some(v[i] as int),
{
    lemma_hit_index_unique(b, b[i], i);
}

/// Error-iff-out-of-range law: under the `Error` policy a lookup fails
/// exactly when the query lies strictly outside the breakpoint range.
pub proof fn lemma_error_iff_out_of_range(b: Seq<i64>, v: Seq<i64>, q: i64, ip: Interpolation)
    requires
        valid_table(b, v),
    ensures
        lookup_result(b, v, q, Extrapolation::Error, ip) is None <==> (q < b[0] || q > b[b.len()
            - 1]),
{
    if q < b[0] || q > b[b.len() - 1] {
        assert forall|t: int| 0 <= t < b.len() implies b[t] != q by {
            assert(b[0] <= b[t]);
            assert(b[t] <= b[b.len() - 1]);
        }
        assert(!has_hit(b, q));
    }
}

/// Idempotence law for 1-D lookups: the contract is deterministic — any
/// two results it admits for the same table, query and policies are equal,
/// so repeated calls return identical results.
pub proof fn lemma_lookup_deterministic(
    b: Seq<i64>,
    v: Seq<i64>,
    q: i64,
    ex: Extrapolation,
    ip: Interpolation,
    r1: Result<i64, ExtrapolationError>,
    r2: Result<i64, ExtrapolationError>,
)
    requires
        lookup_post(b, v, q, ex, ip, r1),
        lookup_post(b, v, q, ex, ip, r2),
    ensures
        r1 == r2,
{
    match (r1, r2) {
        (Err(e1), Err(e2)) => {
            assert(e1 == e2);
        },
        _ => {
        },
    }
}

/// Idempotence law for 2-D lookups: the contract pins the result to one
/// value of the table, the queries and the policy, so repeated calls
/// return identical results.
pub proof fn lemma_grid_lookup_deterministic(
    bh: Seq<i64>,
    bv: Seq<i64>,
    m: Seq<Seq<i64>>,
    qh: i64,
    qv: i64,
    ip: Interpolation,
    r1: i64,
    r2: i64,
)
    requires
        r1 as int == grid_value(bh, bv, m, qh, qv, ip),
        r2 as int == grid_value(bh, bv, m, qh, qv, ip),
    ensures
        r1 == r2,
{
}

/// Exact-hit law for grids: queries landing exactly on both axes resolve
/// to the matrix cell at that crossing, whatever the policy.
pub proof fn lemma_grid_exact_hit(
    bh: Seq<i64>,
    bv: Seq<i64>,
    m: Seq<Seq<i64>>,
    i: int,
    j: int,
    ip: Interpolation,
)
    requires
        valid_grid(bh, bv, m),
        0 <= i < bh.len(),
        0 <= j < bv.len(),
    ensures
        grid_value(bh, bv, m, bh[i], bv[j], ip) == m[j][i] as int,
{
    lemma_hit_index_unique(bh, bh[i], i);
    lemma_hit_index_unique(bv, bv[j], j);
}

} // verus!
