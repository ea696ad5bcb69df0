//! Breakpoint-indexed lookup tables.
//!
//! A table maps a scalar query (a "breakpoint") to a value through a
//! calibration curve (1-D) or surface (2-D).  Queries that fall between two
//! known breakpoints are resolved by an interpolation policy; queries outside
//! the known range by an extrapolation policy.  Tables are validated once at
//! construction and immutable afterwards; every lookup is a pure function of
//! the table, the query and the chosen policies.

mod arith;
mod bracket;
mod laws;
mod one_d;
mod policy;
mod two_d;

pub use arith::div_trunc;
pub use arith::MAX_MAGNITUDE;
pub use bracket::closest_pick;
pub use bracket::has_hit;
pub use bracket::hit_index;
pub use bracket::is_segment;
pub use bracket::segment_index;
pub use bracket::strictly_ascending;
pub use bracket::within_limit;
pub use laws::lemma_error_iff_out_of_range;
pub use laws::lemma_exact_hit;
pub use laws::lemma_grid_exact_hit;
pub use laws::lemma_grid_lookup_deterministic;
pub use laws::lemma_lookup_deterministic;
pub use one_d::high_result;
pub use one_d::interpolated_value;
pub use one_d::line_value;
pub use one_d::lookup_post;
pub use one_d::lookup_result;
pub use one_d::low_result;
pub use one_d::table_error;
pub use one_d::valid_table;
pub use one_d::OneDLookup;
pub use policy::Extrapolation;
pub use policy::ExtrapolationError;
pub use policy::Interpolation;
pub use policy::TableError;
pub use two_d::bracketed;
pub use two_d::clamped_index;
pub use two_d::grid_error;
pub use two_d::grid_value;
pub use two_d::pair_value;
pub use two_d::picked_index;
pub use two_d::row_blend;
pub use two_d::rows_view;
pub use two_d::valid_grid;
pub use two_d::TwoDLookup;
