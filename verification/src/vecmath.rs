//! Lane-parallel vector math over fixed-point intensities.
//!
//! A lane group packs several adjacent pixels' scalars; `Vec2` and
//! `Vec4` bundle 2 or 4 lane groups into a coordinate or color vector
//! across all lanes at once. Component-wise operations never cross
//! lane-group boundaries. Scalars use the same 16-fractional-bit
//! fixed-point representation as the quantizer, and every operation
//! keeps its result on that scale: products and dot products rescale
//! by the fixed-point base, so the representation of 1.0 is the
//! multiplicative identity and results compose with further operations
//! without scale juggling.
use vstd::prelude::*;

use crate::quantize::{quantize_unit, quantize_unit_spec};

verus! {

/// Magnitude bound under which lane values are admitted to products:
/// 2^30, so any product of two lane values stays well inside `i64`.
pub const LANE_BOUND: i64 = 1073741824;

/// Absolute value of a fixed-point scalar.
pub open spec fn abs_val(v: int) -> int {
    if v < 0 {
        -v
    } else {
        v
    }
}

/// All values of a lane group are within `LANE_BOUND` in magnitude.
pub open spec fn lanes_bounded(s: Seq<i64>) -> bool {
    forall|i: int| 0 <= i < s.len() ==> -LANE_BOUND <= #[trigger] s[i] <= LANE_BOUND
}

/// Fixed-point product of two lane scalars: the raw product carries 32
/// fractional bits, so it is floor-divided by the base to return to 16.
pub open spec fn fp_mul(a: int, b: int) -> int {
    (a * b) / 65536
}

/// Fixed-point dot product of two coordinate pairs, on the same
/// 16-fractional-bit scale as its operands.
pub open spec fn dot_point_spec(px: int, py: int, qx: int, qy: int) -> int {
    (px * qx + py * qy) / 65536
}

/// Floor quotient of a product-scale value by the fixed-point base.
fn fp_rescale(p: i64) -> (r: i64)
    requires
        -0x2000000000000000 <= p <= 0x2000000000000000,
    ensures
        r == p as int / 65536,
{
    if p >= 0 {
        ((p as u64) / 65536) as i64
    } else {
        let m: u64 = (-p) as u64;
        let q: u64 = (m + 65535) / 65536;
        proof {
            lemma_neg_div_floor(p as int);
        }
        -(q as i64)
    }
}

/// Euclidean division of a negative value by the fixed-point base is
/// the negated rounded-up quotient of its magnitude.
proof fn lemma_neg_div_floor(p: int)
    requires
        -0x2000000000000000 <= p < 0,
    ensures
        p / 65536 == -((-p + 65535) / 65536),
        0 <= (-p + 65535) / 65536 <= -p + 65535,
{
    let m = -p;
    let q = m / 65536;
    let s = m % 65536;
    vstd::arithmetic::div_mod::lemma_fundamental_div_mod(m, 65536);
    vstd::arithmetic::div_mod::lemma_mod_bound(m, 65536);
    vstd::arithmetic::div_mod::lemma_div_pos_is_pos(m, 65536);
    if s == 0 {
        vstd::arithmetic::div_mod::lemma_fundamental_div_mod_converse(m + 65535, 65536, q, 65535);
        vstd::arithmetic::div_mod::lemma_fundamental_div_mod_converse(p, 65536, -q, 0);
    } else {
        vstd::arithmetic::div_mod::lemma_fundamental_div_mod_converse(
            m + 65535,
            65536,
            q + 1,
            s - 1,
        );
        vstd::arithmetic::div_mod::lemma_fundamental_div_mod_converse(
            p,
            65536,
            -q - 1,
            65536 - s,
        );
    }
    vstd::arithmetic::div_mod::lemma_div_is_ordered_by_denominator(m + 65535, 1, 65536);
}

/// One lane group: a fixed number of per-pixel fixed-point scalars
/// processed together.
pub struct Lanes {
    /// The per-lane values, one per adjacent pixel.
    pub vals: Vec<i64>,
}

impl Lanes {
    /// The lane values as a sequence.
    pub open spec fn view(self) -> Seq<i64> {
        self.vals@
    }

    /// A lane group of `n` copies of the scalar `v`.
    pub fn splat(n: usize, v: i64) -> (r: Lanes)
        ensures
            r@.len() == n,
            forall|i: int| 0 <= i < n ==> #[trigger] r@[i] == v,
    {
        let mut vals: Vec<i64> = Vec::new();
        let mut k: usize = 0;
        #[verifier::loop_isolation(false)]
        while k < n
            invariant
                k <= n,
                vals@.len() == k,
                forall|i: int| 0 <= i < k ==> #[trigger] vals@[i] == v,
            decreases n - k,
        {
            vals.push(v);
            k = k + 1;
        }
        Lanes { vals }
    }

    /// Elementwise sum of two lane groups of equal width.
    pub fn add(&self, other: &Lanes) -> (r: Lanes)
        requires
            self@.len() == other@.len(),
            forall|i: int|
                0 <= i < self@.len()
                    ==> i64::MIN <= #[trigger] self@[i] + other@[i] <= i64::MAX,
        ensures
            r@.len() == self@.len(),
            forall|i: int| 0 <= i < r@.len() ==> #[trigger] r@[i] == self@[i] + other@[i],
    {
        let n = self.vals.len();
        let mut vals: Vec<i64> = Vec::new();
        let mut k: usize = 0;
        #[verifier::loop_isolation(false)]
        while k < n
            invariant
                k <= n,
                vals@.len() == k,
                forall|i: int| 0 <= i < k ==> #[trigger] vals@[i] == self@[i] + other@[i],
            decreases n - k,
        {
            vals.push(self.vals[k] + other.vals[k]);
            k = k + 1;
        }
        Lanes { vals }
    }

    /// Elementwise difference of two lane groups of equal width.
    pub fn sub(&self, other: &Lanes) -> (r: Lanes)
        requires
            self@.len() == other@.len(),
            forall|i: int|
                0 <= i < self@.len()
                    ==> i64::MIN <= #[trigger] self@[i] - other@[i] <= i64::MAX,
        ensures
            r@.len() == self@.len(),
            forall|i: int| 0 <= i < r@.len() ==> #[trigger] r@[i] == self@[i] - other@[i],
    {
        let n = self.vals.len();
        let mut vals: Vec<i64> = Vec::new();
        let mut k: usize = 0;
        #[verifier::loop_isolation(false)]
        while k < n
            invariant
                k <= n,
                vals@.len() == k,
                forall|i: int| 0 <= i < k ==> #[trigger] vals@[i] == self@[i] - other@[i],
            decreases n - k,
        {
            vals.push(self.vals[k] - other.vals[k]);
            k = k + 1;
        }
        Lanes { vals }
    }

    /// Elementwise fixed-point product of two bounded lane groups,
    /// rescaled back to 16 fractional bits, so the representation of
    /// 1.0 is the multiplicative identity.
    pub fn mul(&self, other: &Lanes) -> (r: Lanes)
        requires
            self@.len() == other@.len(),
            lanes_bounded(self@),
            lanes_bounded(other@),
        ensures
            r@.len() == self@.len(),
            forall|i: int|
                0 <= i < r@.len() ==> #[trigger] r@[i] == fp_mul(
                    self@[i] as int,
                    other@[i] as int,
                ),
    {
        let n = self.vals.len();
        let mut vals: Vec<i64> = Vec::new();
        let mut k: usize = 0;
        #[verifier::loop_isolation(false)]
        while k < n
            invariant
                k <= n,
                vals@.len() == k,
                forall|i: int|
                    0 <= i < k ==> #[trigger] vals@[i] == fp_mul(
                        self@[i] as int,
                        other@[i] as int,
                    ),
            decreases n - k,
        {
            proof {
                lemma_bounded_product(self@[k as int] as int, other@[k as int] as int);
            }
            let raw: i64 = self.vals[k] * other.vals[k];
            vals.push(fp_rescale(raw));
            k = k + 1;
        }
        Lanes { vals }
    }

    /// Elementwise fixed-point quotient of a non-negative lane group by
    /// a positive one: the dividend is rescaled by the fractional base
    /// before dividing, so the result keeps 16 fractional bits.
    pub fn div(&self, other: &Lanes) -> (r: Lanes)
        requires
            self@.len() == other@.len(),
            forall|i: int| 0 <= i < self@.len() ==> 0 <= #[trigger] self@[i] <= 1073741824,
            forall|i: int| 0 <= i < other@.len() ==> 0 < #[trigger] other@[i],
        ensures
            r@.len() == self@.len(),
            forall|i: int|
                0 <= i < r@.len() ==> #[trigger] r@[i] == (self@[i] as int * 65536) / (
                other@[i] as int),
    {
        let n = self.vals.len();
        let mut vals: Vec<i64> = Vec::new();
        let mut k: usize = 0;
        #[verifier::loop_isolation(false)]
        while k < n
            invariant
                k <= n,
                vals@.len() == k,
                forall|i: int|
                    0 <= i < k ==> #[trigger] vals@[i] == (self@[i] as int * 65536) / (
                    other@[i] as int),
            decreases n - k,
        {
            proof {
                lemma_bounded_product(self@[k as int] as int, 65536);
            }
            let scaled: u64 = (self.vals[k] * 65536) as u64;
            let q: u64 = scaled / (other.vals[k] as u64);
            proof {
                vstd::arithmetic::div_mod::lemma_div_is_ordered_by_denominator(
                    scaled as int,
                    1,
                    other@[k as int] as int,
                );
            }
            vals.push(q as i64);
            k = k + 1;
        }
        Lanes { vals }
    }

    /// A lane group with the same values as this one.
    pub fn duplicate(&self) -> (r: Lanes)
        ensures
            r@ == self@,
    {
        let n = self.vals.len();
        let mut vals: Vec<i64> = Vec::new();
        let mut k: usize = 0;
        #[verifier::loop_isolation(false)]
        while k < n
            invariant
                k <= n,
                vals@.len() == k,
                forall|i: int| 0 <= i < k ==> #[trigger] vals@[i] == self@[i],
            decreases n - k,
        {
            vals.push(self.vals[k]);
            k = k + 1;
        }
        proof {
            assert(vals@ =~= self@);
        }
        Lanes { vals }
    }

    /// Elementwise absolute value.
    pub fn abs(&self) -> (r: Lanes)
        requires
            forall|i: int| 0 <= i < self@.len() ==> i64::MIN < #[trigger] self@[i],
        ensures
            r@.len() == self@.len(),
            forall|i: int| 0 <= i < r@.len() ==> #[trigger] r@[i] == abs_val(self@[i] as int),
    {
        let n = self.vals.len();
        let mut vals: Vec<i64> = Vec::new();
        let mut k: usize = 0;
        #[verifier::loop_isolation(false)]
        while k < n
            invariant
                k <= n,
                vals@.len() == k,
                forall|i: int| 0 <= i < k ==> #[trigger] vals@[i] == abs_val(self@[i] as int),
            decreases n - k,
        {
            let v = self.vals[k];
            proof {
                assert(self@[k as int] > i64::MIN);
            }
            if v < 0 {
                vals.push(-v);
            } else {
                vals.push(v);
            }
            k = k + 1;
        }
        Lanes { vals }
    }
}

/// A 2-component lane-parallel vector: one coordinate pair per lane.
pub struct Vec2 {
    /// Horizontal components, one per lane.
    pub x: Lanes,
    /// Vertical components, one per lane.
    pub y: Lanes,
}

impl Vec2 {
    /// Both components cover the same lanes.
    pub open spec fn wf(self) -> bool {
        self.x@.len() == self.y@.len()
    }

    /// Bundle two lane groups into a coordinate vector.
    pub fn new(x: Lanes, y: Lanes) -> (r: Vec2)
        ensures
            r.x@ == x@,
            r.y@ == y@,
    {
        Vec2 { x, y }
    }

    /// Both components set to `n` copies of the fixed-point scalar `v`.
    pub fn splat_float(n: usize, v: i64) -> (r: Vec2)
        ensures
            r.wf(),
            r.x@.len() == n,
            forall|i: int| 0 <= i < n ==> #[trigger] r.x@[i] == v,
            forall|i: int| 0 <= i < n ==> #[trigger] r.y@[i] == v,
    {
        Vec2 { x: Lanes::splat(n, v), y: Lanes::splat(n, v) }
    }

    /// Lane-wise dot product, rescaled back to 16 fractional bits, so
    /// it stays on the same scale as its operands.
    pub fn dot(&self, other: &Vec2) -> (r: Lanes)
        requires
            self.wf(),
            other.wf(),
            self.x@.len() == other.x@.len(),
            lanes_bounded(self.x@),
            lanes_bounded(self.y@),
            lanes_bounded(other.x@),
            lanes_bounded(other.y@),
        ensures
            r@.len() == self.x@.len(),
            forall|i: int|
                0 <= i < r@.len()
                    ==> #[trigger] r@[i] == dot_point_spec(
                    self.x@[i] as int,
                    self.y@[i] as int,
                    other.x@[i] as int,
                    other.y@[i] as int,
                ),
    {
        let n = self.x.vals.len();
        let mut vals: Vec<i64> = Vec::new();
        let mut k: usize = 0;
        #[verifier::loop_isolation(false)]
        while k < n
            invariant
                k <= n,
                vals@.len() == k,
                forall|i: int|
                    0 <= i < k ==> #[trigger] vals@[i] == dot_point_spec(
                        self.x@[i] as int,
                        self.y@[i] as int,
                        other.x@[i] as int,
                        other.y@[i] as int,
                    ),
            decreases n - k,
        {
            proof {
                lemma_bounded_product(self.x@[k as int] as int, other.x@[k as int] as int);
                lemma_bounded_product(self.y@[k as int] as int, other.y@[k as int] as int);
            }
            let raw: i64 = self.x.vals[k] * other.x.vals[k] + self.y.vals[k] * other.y.vals[k];
            vals.push(fp_rescale(raw));
            k = k + 1;
        }
        Lanes { vals }
    }

    /// Fixed swizzle: spread a coordinate pair into a 4-vector as
    /// (x, y, y, x).
    pub fn xyyx(&self) -> (r: Vec4)
        ensures
            r.x@ == self.x@,
            r.y@ == self.y@,
            r.z@ == self.y@,
            r.w@ == self.x@,
    {
        Vec4 {
            x: self.x.duplicate(),
            y: self.y.duplicate(),
            z: self.y.duplicate(),
            w: self.x.duplicate(),
        }
    }

    /// Axis swap: (x, y) becomes (y, x).
    pub fn yx(&self) -> (r: Vec2)
        ensures
            r.x@ == self.y@,
            r.y@ == self.x@,
    {
        Vec2 { x: self.y.duplicate(), y: self.x.duplicate() }
    }

    /// Componentwise sum of two coordinate vectors.
    pub fn add(&self, other: &Vec2) -> (r: Vec2)
        requires
            self.wf(),
            other.wf(),
            self.x@.len() == other.x@.len(),
            forall|i: int|
                0 <= i < self.x@.len()
                    ==> i64::MIN <= #[trigger] self.x@[i] + other.x@[i] <= i64::MAX,
            forall|i: int|
                0 <= i < self.y@.len()
                    ==> i64::MIN <= #[trigger] self.y@[i] + other.y@[i] <= i64::MAX,
        ensures
            r.wf(),
            r.x@.len() == self.x@.len(),
            forall|i: int|
                0 <= i < r.x@.len() ==> #[trigger] r.x@[i] == self.x@[i] + other.x@[i],
            forall|i: int|
                0 <= i < r.y@.len() ==> #[trigger] r.y@[i] == self.y@[i] + other.y@[i],
    {
        Vec2 { x: self.x.add(&other.x), y: self.y.add(&other.y) }
    }

    /// Componentwise difference of two coordinate vectors.
    pub fn sub(&self, other: &Vec2) -> (r: Vec2)
        requires
            self.wf(),
            other.wf(),
            self.x@.len() == other.x@.len(),
            forall|i: int|
                0 <= i < self.x@.len()
                    ==> i64::MIN <= #[trigger] self.x@[i] - other.x@[i] <= i64::MAX,
            forall|i: int|
                0 <= i < self.y@.len()
                    ==> i64::MIN <= #[trigger] self.y@[i] - other.y@[i] <= i64::MAX,
        ensures
            r.wf(),
            r.x@.len() == self.x@.len(),
            forall|i: int|
                0 <= i < r.x@.len() ==> #[trigger] r.x@[i] == self.x@[i] - other.x@[i],
            forall|i: int|
                0 <= i < r.y@.len() ==> #[trigger] r.y@[i] == self.y@[i] - other.y@[i],
    {
        Vec2 { x: self.x.sub(&other.x), y: self.y.sub(&other.y) }
    }

    /// Both components scaled lane-wise by a lane group, staying on
    /// the 16-fractional-bit scale.
    pub fn mul(&self, scalar: &Lanes) -> (r: Vec2)
        requires
            self.wf(),
            self.x@.len() == scalar@.len(),
            lanes_bounded(self.x@),
            lanes_bounded(self.y@),
            lanes_bounded(scalar@),
        ensures
            r.wf(),
            r.x@.len() == self.x@.len(),
            forall|i: int|
                0 <= i < r.x@.len() ==> #[trigger] r.x@[i] == fp_mul(self.x@[i] as int, scalar@[i] as int),
            forall|i: int|
                0 <= i < r.y@.len() ==> #[trigger] r.y@[i] == fp_mul(self.y@[i] as int, scalar@[i] as int),
    {
        Vec2 { x: self.x.mul(scalar), y: self.y.mul(scalar) }
    }
}

/// A 4-component lane-parallel vector: one color quadruple per lane.
pub struct Vec4 {
    /// First (red) components, one per lane.
    pub x: Lanes,
    /// Second (green) components, one per lane.
    pub y: Lanes,
    /// Third (blue) components, one per lane.
    pub z: Lanes,
    /// Fourth (alpha) components, one per lane.
    pub w: Lanes,
}

impl Vec4 {
    /// All components cover the same lanes.
    pub open spec fn wf(self) -> bool {
        &&& self.x@.len() == self.y@.len()
        &&& self.x@.len() == self.z@.len()
        &&& self.x@.len() == self.w@.len()
    }

    /// Bundle four lane groups into a color vector.
    pub fn new(x: Lanes, y: Lanes, z: Lanes, w: Lanes) -> (r: Vec4)
        ensures
            r.x@ == x@,
            r.y@ == y@,
            r.z@ == z@,
            r.w@ == w@,
    {
        Vec4 { x, y, z, w }
    }

    /// All four components set to the same lane group.
    pub fn splat_f32x8(scalar: &Lanes) -> (r: Vec4)
        ensures
            r.wf(),
            r.x@ == scalar@,
            r.y@ == scalar@,
            r.z@ == scalar@,
            r.w@ == scalar@,
    {
        Vec4 {
            x: scalar.duplicate(),
            y: scalar.duplicate(),
            z: scalar.duplicate(),
            w: scalar.duplicate(),
        }
    }

    /// Componentwise sum of two color vectors.
    pub fn add(&self, other: &Vec4) -> (r: Vec4)
        requires
            self.wf(),
            other.wf(),
            self.x@.len() == other.x@.len(),
            forall|i: int|
                0 <= i < self.x@.len()
                    ==> i64::MIN <= #[trigger] self.x@[i] + other.x@[i] <= i64::MAX,
            forall|i: int|
                0 <= i < self.y@.len()
                    ==> i64::MIN <= #[trigger] self.y@[i] + other.y@[i] <= i64::MAX,
            forall|i: int|
                0 <= i < self.z@.len()
                    ==> i64::MIN <= #[trigger] self.z@[i] + other.z@[i] <= i64::MAX,
            forall|i: int|
                0 <= i < self.w@.len()
                    ==> i64::MIN <= #[trigger] self.w@[i] + other.w@[i] <= i64::MAX,
        ensures
            r.wf(),
            r.x@.len() == self.x@.len(),
            forall|i: int|
                0 <= i < r.x@.len() ==> #[trigger] r.x@[i] == self.x@[i] + other.x@[i],
            forall|i: int|
                0 <= i < r.y@.len() ==> #[trigger] r.y@[i] == self.y@[i] + other.y@[i],
            forall|i: int|
                0 <= i < r.z@.len() ==> #[trigger] r.z@[i] == self.z@[i] + other.z@[i],
            forall|i: int|
                0 <= i < r.w@.len() ==> #[trigger] r.w@[i] == self.w@[i] + other.w@[i],
    {
        Vec4 {
            x: self.x.add(&other.x),
            y: self.y.add(&other.y),
            z: self.z.add(&other.z),
            w: self.w.add(&other.w),
        }
    }

    /// Componentwise difference of two color vectors.
    pub fn sub(&self, other: &Vec4) -> (r: Vec4)
        requires
            self.wf(),
            other.wf(),
            self.x@.len() == other.x@.len(),
            forall|i: int|
                0 <= i < self.x@.len()
                    ==> i64::MIN <= #[trigger] self.x@[i] - other.x@[i] <= i64::MAX,
            forall|i: int|
                0 <= i < self.y@.len()
                    ==> i64::MIN <= #[trigger] self.y@[i] - other.y@[i] <= i64::MAX,
            forall|i: int|
                0 <= i < self.z@.len()
                    ==> i64::MIN <= #[trigger] self.z@[i] - other.z@[i] <= i64::MAX,
            forall|i: int|
                0 <= i < self.w@.len()
                    ==> i64::MIN <= #[trigger] self.w@[i] - other.w@[i] <= i64::MAX,
        ensures
            r.wf(),
            r.x@.len() == self.x@.len(),
            forall|i: int|
                0 <= i < r.x@.len() ==> #[trigger] r.x@[i] == self.x@[i] - other.x@[i],
            forall|i: int|
                0 <= i < r.y@.len() ==> #[trigger] r.y@[i] == self.y@[i] - other.y@[i],
            forall|i: int|
                0 <= i < r.z@.len() ==> #[trigger] r.z@[i] == self.z@[i] - other.z@[i],
            forall|i: int|
                0 <= i < r.w@.len() ==> #[trigger] r.w@[i] == self.w@[i] - other.w@[i],
    {
        Vec4 {
            x: self.x.sub(&other.x),
            y: self.y.sub(&other.y),
            z: self.z.sub(&other.z),
            w: self.w.sub(&other.w),
        }
    }

    /// Componentwise fixed-point quotient of two color vectors, for
    /// tone mapping a non-negative numerator by a positive accumulator.
    pub fn div(&self, other: &Vec4) -> (r: Vec4)
        requires
            self.wf(),
            other.wf(),
            self.x@.len() == other.x@.len(),
            forall|i: int| 0 <= i < self.x@.len() ==> 0 <= #[trigger] self.x@[i] <= 1073741824,
            forall|i: int| 0 <= i < self.y@.len() ==> 0 <= #[trigger] self.y@[i] <= 1073741824,
            forall|i: int| 0 <= i < self.z@.len() ==> 0 <= #[trigger] self.z@[i] <= 1073741824,
            forall|i: int| 0 <= i < self.w@.len() ==> 0 <= #[trigger] self.w@[i] <= 1073741824,
            forall|i: int| 0 <= i < other.x@.len() ==> 0 < #[trigger] other.x@[i],
            forall|i: int| 0 <= i < other.y@.len() ==> 0 < #[trigger] other.y@[i],
            forall|i: int| 0 <= i < other.z@.len() ==> 0 < #[trigger] other.z@[i],
            forall|i: int| 0 <= i < other.w@.len() ==> 0 < #[trigger] other.w@[i],
        ensures
            r.wf(),
            r.x@.len() == self.x@.len(),
            forall|i: int|
                0 <= i < r.x@.len() ==> #[trigger] r.x@[i] == (self.x@[i] as int * 65536) / (
                other.x@[i] as int),
            forall|i: int|
                0 <= i < r.y@.len() ==> #[trigger] r.y@[i] == (self.y@[i] as int * 65536) / (
                other.y@[i] as int),
            forall|i: int|
                0 <= i < r.z@.len() ==> #[trigger] r.z@[i] == (self.z@[i] as int * 65536) / (
                other.z@[i] as int),
            forall|i: int|
                0 <= i < r.w@.len() ==> #[trigger] r.w@[i] == (self.w@[i] as int * 65536) / (
                other.w@[i] as int),
    {
        Vec4 {
            x: self.x.div(&other.x),
            y: self.y.div(&other.y),
            z: self.z.div(&other.z),
            w: self.w.div(&other.w),
        }
    }

    /// All components scaled lane-wise by a lane group, staying on
    /// the 16-fractional-bit scale.
    pub fn mul(&self, scalar: &Lanes) -> (r: Vec4)
        requires
            self.wf(),
            self.x@.len() == scalar@.len(),
            lanes_bounded(self.x@),
            lanes_bounded(self.y@),
            lanes_bounded(self.z@),
            lanes_bounded(self.w@),
            lanes_bounded(scalar@),
        ensures
            r.wf(),
            r.x@.len() == self.x@.len(),
            forall|i: int|
                0 <= i < r.x@.len() ==> #[trigger] r.x@[i] == fp_mul(self.x@[i] as int, scalar@[i] as int),
            forall|i: int|
                0 <= i < r.y@.len() ==> #[trigger] r.y@[i] == fp_mul(self.y@[i] as int, scalar@[i] as int),
            forall|i: int|
                0 <= i < r.z@.len() ==> #[trigger] r.z@[i] == fp_mul(self.z@[i] as int, scalar@[i] as int),
            forall|i: int|
                0 <= i < r.w@.len() ==> #[trigger] r.w@[i] == fp_mul(self.w@[i] as int, scalar@[i] as int),
    {
        Vec4 {
            x: self.x.mul(scalar),
            y: self.y.mul(scalar),
            z: self.z.mul(scalar),
            w: self.w.mul(scalar),
        }
    }
}

/// Quantized 8-bit channel values for one lane group of 8 pixels.
pub struct Color {
    /// Red channel, one byte per lane.
    pub r: [u8; 8],
    /// Green channel, one byte per lane.
    pub g: [u8; 8],
    /// Blue channel, one byte per lane.
    pub b: [u8; 8],
}

/// Quantize the first three components of a color vector into 8-bit
/// R, G, B channel values, lane by lane, with the exact strategy. The
/// fourth component is not part of the stored image and is dropped.
pub fn vec4_to_rgb_arrow(vec: &Vec4) -> (c: Color)
    requires
        vec.wf(),
        vec.x@.len() == 8,
    ensures
        forall|i: int|
            0 <= i < 8 ==> #[trigger] c.r@[i] == quantize_unit_spec(vec.x@[i] as int),
        forall|i: int|
            0 <= i < 8 ==> #[trigger] c.g@[i] == quantize_unit_spec(vec.y@[i] as int),
        forall|i: int|
            0 <= i < 8 ==> #[trigger] c.b@[i] == quantize_unit_spec(vec.z@[i] as int),
{
    let r: [u8; 8] = [
        quantize_unit(vec.x.vals[0]),
        quantize_unit(vec.x.vals[1]),
        quantize_unit(vec.x.vals[2]),
        quantize_unit(vec.x.vals[3]),
        quantize_unit(vec.x.vals[4]),
        quantize_unit(vec.x.vals[5]),
        quantize_unit(vec.x.vals[6]),
        quantize_unit(vec.x.vals[7]),
    ];
    let g: [u8; 8] = [
        quantize_unit(vec.y.vals[0]),
        quantize_unit(vec.y.vals[1]),
        quantize_unit(vec.y.vals[2]),
        quantize_unit(vec.y.vals[3]),
        quantize_unit(vec.y.vals[4]),
        quantize_unit(vec.y.vals[5]),
        quantize_unit(vec.y.vals[6]),
        quantize_unit(vec.y.vals[7]),
    ];
    let b: [u8; 8] = [
        quantize_unit(vec.z.vals[0]),
        quantize_unit(vec.z.vals[1]),
        quantize_unit(vec.z.vals[2]),
        quantize_unit(vec.z.vals[3]),
        quantize_unit(vec.z.vals[4]),
        quantize_unit(vec.z.vals[5]),
        quantize_unit(vec.z.vals[6]),
        quantize_unit(vec.z.vals[7]),
    ];
    Color { r, g, b }
}

/// Identity law: the fixed-point representation of 1.0 is the
/// multiplicative identity, so scaling a lane group by a splat of 1.0
/// leaves every lane value unchanged.
pub proof fn lemma_one_is_mul_identity(s: Seq<i64>)
    ensures
        forall|i: int|
            0 <= i < s.len() ==> fp_mul(#[trigger] s[i] as int, 65536) == s[i],
        forall|i: int|
            0 <= i < s.len() ==> fp_mul(65536, #[trigger] s[i] as int) == s[i],
{
    assert forall|i: int| 0 <= i < s.len() implies fp_mul(#[trigger] s[i] as int, 65536) == s[i]
        && fp_mul(65536, s[i] as int) == s[i] by {
        vstd::arithmetic::div_mod::lemma_div_multiples_vanish(s[i] as int, 65536);
        vstd::arithmetic::mul::lemma_mul_is_commutative(s[i] as int, 65536);
    }
}

/// Product of two lane values bounded by `LANE_BOUND` fits in `i64`.
proof fn lemma_bounded_product(a: int, b: int)
    requires
        -1073741824 <= a <= 1073741824,
        -1073741824 <= b <= 1073741824,
    ensures
        -0x1000000000000000 <= a * b <= 0x1000000000000000,
{
    assert(-0x1000000000000000 <= a * b <= 0x1000000000000000) by (nonlinear_arith)
        requires
            -1073741824 <= a <= 1073741824,
            -1073741824 <= b <= 1073741824,
    ;
}

} // verus!
