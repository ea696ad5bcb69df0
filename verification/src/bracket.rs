use crate::arith::MAX_MAGNITUDE;
use vstd::prelude::*;

verus! {

/// Breakpoints are strictly ascending: duplicates would make bracketing
/// ambiguous.
pub open spec fn strictly_ascending(s: Seq<i64>) -> bool {
    forall|i: int, j: int| 0 <= i < j < s.len() ==> s[i] < s[j]
}

/// Every entry stays within [`MAX_MAGNITUDE`], which keeps all lookup
/// arithmetic inside `i64`.
pub open spec fn within_limit(s: Seq<i64>) -> bool {
    forall|i: int| 0 <= i < s.len() ==> -MAX_MAGNITUDE <= #[trigger] s[i] <= MAX_MAGNITUDE
}

/// The query lands exactly on some breakpoint.
pub open spec fn has_hit(b: Seq<i64>, q: i64) -> bool {
    exists|i: int| 0 <= i < b.len() && b[i] == q
}

/// The index of the breakpoint the query lands on; unique when the
/// breakpoints ascend strictly.
pub open spec fn hit_index(b: Seq<i64>, q: i64) -> int {
    choose|i: int| 0 <= i < b.len() && b[i] == q
}

/// The query lies strictly inside the segment `[b[i-1], b[i]]`.
pub open spec fn is_segment(b: Seq<i64>, q: i64, i: int) -> bool {
    1 <= i < b.len() && b[i - 1] < q && q < b[i]
}

/// The index of the segment strictly containing the query; unique when the
/// breakpoints ascend strictly.
pub open spec fn segment_index(b: Seq<i64>, q: i64) -> int {
    choose|i: int| is_segment(b, q, i)
}

/// Which endpoint of the segment `[b[i-1], b[i]]` lies closer to a query
/// strictly inside it: the lower index when the remaining distance to the
/// upper breakpoint exceeds half the segment (halves rounding down), the
/// upper index otherwise — so an exact half-segment tie picks the upper one.
pub open spec fn closest_pick(b: Seq<i64>, q: i64, i: int) -> int {
    if b[i] - q > (b[i] - b[i - 1]) / 2 {
        i - 1
    } else {
        i
    }
}

/// Landing on an ascending sequence is unambiguous: the hit index is the
/// index hit.
pub proof fn lemma_hit_index_unique(b: Seq<i64>, q: i64, i: int)
    requires
        strictly_ascending(b),
        0 <= i < b.len(),
        b[i] == q,
    ensures
        has_hit(b, q),
        hit_index(b, q) == i,
{
    assert(has_hit(b, q));
    let j = hit_index(b, q);
    assert(0 <= j < b.len() && b[j] == q);
    if i < j {
        assert(b[i] < b[j]);
    } else if j < i {
        assert(b[j] < b[i]);
    }
}

/// A query strictly inside a segment of an ascending sequence is inside
/// exactly that one segment.
pub proof fn lemma_segment_unique(b: Seq<i64>, q: i64, i: int)
    requires
        strictly_ascending(b),
        is_segment(b, q, i),
    ensures
        segment_index(b, q) == i,
{
    let j = segment_index(b, q);
    assert(is_segment(b, q, j));
    if i < j {
        assert(b[i] <= b[j - 1]);
    } else if j < i {
        assert(b[j] <= b[i - 1]);
    }
}

/// Locates, within ascending breakpoints, the first index whose breakpoint
/// is at least the query, or `None` when the query exceeds every breakpoint.
pub fn bracket_search(breakpoints: &Vec<i64>, query: i64) -> (r: Option<usize>)
    ensures
        match r {
            Some(i) => i < breakpoints@.len() && breakpoints@[i as int] >= query
                && (forall|j: int| 0 <= j < i ==> breakpoints@[j] < query),
            None => forall|j: int| 0 <= j < breakpoints@.len() ==> breakpoints@[j] < query,
        },
{
    let n = breakpoints.len();
    let mut k: usize = 0;
    while k < n
        invariant
            k <= n,
            n == breakpoints@.len(),
            forall|j: int| 0 <= j < k ==> breakpoints@[j] < query,
        decreases n - k,
    {
        if breakpoints[k] >= query {
            return Some(k);
        }
        k = k + 1;
    }
    None
}

} // verus!
