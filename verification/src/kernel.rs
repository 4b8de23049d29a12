//! Per-pixel kernel pieces that are pure integer arithmetic.
//!
//! The radial envelope scalar shapes overall brightness: for a
//! normalized position `p` it is `4 - 4*|0.7 - dot(p, p)|`, evaluated
//! per lane in 16-fractional-bit fixed point. It depends on the
//! position only through the squared distance `dot(p, p)`, so it is
//! invariant under swapping the position's components.
use vstd::prelude::*;

use crate::vecmath::{abs_val, dot_point_spec, lanes_bounded, Lanes, Vec2};

verus! {

/// Fixed-point representation of the reference radius term 0.7.
pub const FP_RADIUS: i64 = 45875;

/// Fixed-point representation of the envelope's base term 4.0.
pub const FP_FOUR: i64 = 262144;

/// Envelope scalar for one lane, from the lane's position components:
/// `4 - 4*|0.7 - dot(p, p)|` over the fixed-point dot product.
pub open spec fn envelope_point_spec(px: int, py: int) -> int {
    262144 - 4 * abs_val(45875 - dot_point_spec(px, py, px, py))
}

/// Largest pixel coordinate admitted to fixed-point lane coordinates:
/// far above any practical frame extent, and small enough that a
/// converted coordinate stays within `LANE_BOUND`.
pub const MAX_COORD: usize = 16384;

/// Per-lane absolute pixel coordinates for one lane group, in fixed
/// point: consecutive columns starting at the group's start column,
/// paired with the row's fixed vertical coordinate (already flipped so
/// row 0 is the bottom of the image).
pub fn lane_coords(start_col: usize, flipped_row: usize, lane: usize) -> (p: Vec2)
    requires
        start_col + lane <= MAX_COORD,
        flipped_row <= MAX_COORD,
    ensures
        p.wf(),
        p.x@.len() == lane,
        forall|i: int| 0 <= i < lane ==> #[trigger] p.x@[i] == (start_col + i) * 65536,
        forall|i: int| 0 <= i < lane ==> #[trigger] p.y@[i] == flipped_row * 65536,
        lanes_bounded(p.x@),
        lanes_bounded(p.y@),
{
    let mut xs: Vec<i64> = Vec::new();
    let mut k: usize = 0;
    #[verifier::loop_isolation(false)]
    while k < lane
        invariant
            k <= lane,
            xs@.len() == k,
            forall|i: int| 0 <= i < k ==> #[trigger] xs@[i] == (start_col + i) * 65536,
            forall|i: int| 0 <= i < k ==> -1073741824 <= #[trigger] xs@[i] <= 1073741824,
        decreases lane - k,
    {
        xs.push(((start_col + k) as i64) * 65536);
        k = k + 1;
    }
    let y_fixed: i64 = (flipped_row as i64) * 65536;
    let ys = Lanes::splat(lane, y_fixed);
    proof {
        assert(lanes_bounded(ys@));
    }
    Vec2 { x: Lanes { vals: xs }, y: ys }
}

/// Envelope scalar per lane for a whole lane group of positions.
pub fn envelope_at(p: &Vec2) -> (z: Lanes)
    requires
        p.wf(),
        lanes_bounded(p.x@),
        lanes_bounded(p.y@),
    ensures
        z@.len() == p.x@.len(),
        forall|i: int|
            0 <= i < z@.len()
                ==> #[trigger] z@[i] == envelope_point_spec(p.x@[i] as int, p.y@[i] as int),
{
    let dots = p.dot(p);
    let n = dots.vals.len();
    let mut vals: Vec<i64> = Vec::new();
    let mut k: usize = 0;
    #[verifier::loop_isolation(false)]
    while k < n
        invariant
            k <= n,
            vals@.len() == k,
            forall|i: int|
                0 <= i < k
                    ==> #[trigger] vals@[i] == envelope_point_spec(
                    p.x@[i] as int,
                    p.y@[i] as int,
                ),
        decreases n - k,
    {
        let d: i64 = dots.vals[k];
        proof {
            lemma_square_sum_bounds(p.x@[k as int] as int, p.y@[k as int] as int);
            vstd::arithmetic::div_mod::lemma_div_pos_is_pos(
                p.x@[k as int] as int * p.x@[k as int] as int + p.y@[k as int] as int * p.y@[
                    k as int] as int,
                65536,
            );
            vstd::arithmetic::div_mod::lemma_div_is_ordered(
                p.x@[k as int] as int * p.x@[k as int] as int + p.y@[k as int] as int * p.y@[
                    k as int] as int,
                0x2000000000000000,
                65536,
            );
        }
        let dev: i64 = if FP_RADIUS - d >= 0 {
            FP_RADIUS - d
        } else {
            d - FP_RADIUS
        };
        vals.push(FP_FOUR - 4 * dev);
        k = k + 1;
    }
    Lanes { vals }
}

/// Squares of bounded lane values: the sum of squares is non-negative
/// and fits comfortably in 62 bits.
proof fn lemma_square_sum_bounds(a: int, b: int)
    requires
        -1073741824 <= a <= 1073741824,
        -1073741824 <= b <= 1073741824,
    ensures
        0 <= a * a <= 0x1000000000000000,
        0 <= b * b <= 0x1000000000000000,
        0 <= a * a + b * b <= 0x2000000000000000,
{
    assert(0 <= a * a <= 0x1000000000000000 && 0 <= b * b <= 0x1000000000000000)
        by (nonlinear_arith)
        requires
            -1073741824 <= a <= 1073741824,
            -1073741824 <= b <= 1073741824,
    ;
}

/// Symmetry law: the envelope scalar is invariant under swapping the
/// x and y components of the position, because it depends on the
/// position only through the squared distance `dot(p, p)`.
pub proof fn lemma_envelope_swap_symmetric(px: int, py: int)
    ensures
        envelope_point_spec(px, py) == envelope_point_spec(py, px),
{
}

/// Symmetry law, lifted to lane groups: evaluating the envelope over
/// the axis-swapped position vector gives the same scalar in every
/// lane as evaluating it over the position itself.
pub proof fn lemma_envelope_yx_invariant(p: Vec2)
    requires
        p.wf(),
    ensures
        forall|i: int|
            0 <= i < p.x@.len()
                ==> #[trigger] envelope_point_spec(p.y@[i] as int, p.x@[i] as int)
                == envelope_point_spec(p.x@[i] as int, p.y@[i] as int),
{
}

} // verus!
