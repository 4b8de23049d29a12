//! Quantization of normalized intensities into 8-bit channel values.
//!
//! Intensities are carried as fixed-point integers with 16 fractional
//! bits (`FP_ONE` is 1.0). Two interchangeable strategies exist: the
//! exact path clamps a post-saturation intensity to [0, 1], scales by
//! 255 and rounds; the table path maps a non-negative pre-saturation
//! argument over the domain [0, 5] onto a 256-entry table and linearly
//! interpolates between the two nearest entries.
use vstd::prelude::*;

verus! {

/// Fixed-point representation of 1.0 (16 fractional bits).
pub const FP_ONE: i64 = 65536;

/// Fixed-point representation of the table domain's upper edge, 5.0.
pub const FP_DOMAIN: i64 = 327680;

/// Number of entries in the approximation table.
pub const TABLE_LEN: usize = 256;

/// Clamp a fixed-point intensity to the unit interval [0, 1].
pub open spec fn clamp_unit(v: int) -> int {
    if v < 0 {
        0
    } else if v > 65536 {
        65536
    } else {
        v
    }
}

/// Exact strategy: clamp to [0, 1], scale by 255, round to nearest.
pub open spec fn quantize_unit_spec(v: int) -> int {
    (clamp_unit(v) * 255 + 32768) / 65536
}

/// Clamp a fixed-point table argument to the domain [0, 5].
pub open spec fn clamp_domain(x: int) -> int {
    if x < 0 {
        0
    } else if x > 327680 {
        327680
    } else {
        x
    }
}

/// Table strategy on entries `e`: map the clamped argument linearly onto
/// bucket positions (51 buckets per unit, so 5.0 lands on the last
/// entry), then interpolate between the two nearest entries and round.
pub open spec fn lookup_spec(e: Seq<u8>, x: int) -> int
    recommends
        e.len() == 256,
{
    let pos = clamp_domain(x) * 51;
    let i = pos / 65536;
    let frac = pos % 65536;
    if i >= 255 {
        e[255] as int
    } else {
        (e[i] * (65536 - frac) + e[i + 1] * frac + 32768) / 65536
    }
}

/// A table's entries are valid when there are exactly 256 of them,
/// they start at 0, end within one level of full scale, and step up by
/// at most 5 levels from one entry to the next (never decreasing). The
/// entry formula's slope never exceeds 5 levels per bucket, so tables
/// built from it pass; the bound in turn caps how far an interpolated
/// lookup can sit from its nearest entry.
pub open spec fn valid_entries(e: Seq<u8>) -> bool {
    &&& e.len() == 256
    &&& e[0] == 0
    &&& e[255] >= 254
    &&& forall|i: int| 0 <= i < 255 ==> #[trigger] e[i] <= e[i + 1] <= e[i] + 5
}

/// Immutable 256-entry approximation table over the argument domain
/// [0, 5], built once and read-only thereafter.
pub struct ApproxTable {
    entries: Vec<u8>,
}

impl ApproxTable {
    /// The table's entries, lowest bucket first.
    pub closed spec fn view(self) -> Seq<u8> {
        self.entries@
    }

    /// Well-formedness: the entries pass `valid_entries`.
    pub open spec fn wf(self) -> bool {
        valid_entries(self.view())
    }

    /// Validate candidate entries and wrap them as a table. Returns the
    /// table exactly when the entries are valid, and nothing otherwise.
    pub fn from_entries(entries: Vec<u8>) -> (r: Option<ApproxTable>)
        ensures
            match r {
                Some(t) => t.wf() && t@ == entries@,
                None => !valid_entries(entries@),
            },
    {
        if entries.len() != TABLE_LEN {
            return None;
        }
        if entries[0] != 0 {
            return None;
        }
        if entries[255] < 254 {
            return None;
        }
        let mut i: usize = 0;
        while i < 255
            invariant
                entries@.len() == 256,
                i <= 255,
                forall|k: int|
                    0 <= k < i ==> #[trigger] entries@[k] <= entries@[k + 1] <= entries@[k] + 5,
            decreases 255 - i,
        {
            let lo = entries[i];
            let hi = entries[i + 1];
            if lo > hi {
                return None;
            }
            if hi - lo > 5 {
                return None;
            }
            i = i + 1;
        }
        Some(ApproxTable { entries })
    }

    /// Read one entry directly, without interpolation.
    pub fn entry(&self, i: usize) -> (v: u8)
        requires
            self.wf(),
            i < 256,
        ensures
            v == self@[i as int],
    {
        self.entries[i]
    }

    /// Table strategy: interpolated 8-bit value for the fixed-point
    /// argument `x`; arguments outside [0, 5] clamp to the nearest edge.
    pub fn lookup(&self, x: i64) -> (v: u8)
        requires
            self.wf(),
        ensures
            v == lookup_spec(self@, x as int),
    {
        let c: i64 = if x < 0 {
            0
        } else if x > FP_DOMAIN {
            FP_DOMAIN
        } else {
            x
        };
        let cu: u64 = c as u64;
        let pos: u64 = cu * 51;
        let i: u64 = pos / 65536;
        let frac: u64 = pos % 65536;
        if i >= 255 {
            self.entries[255]
        } else {
            let e0: u64 = self.entries[i as usize] as u64;
            let e1: u64 = self.entries[i as usize + 1] as u64;
            proof {
                lemma_interp_bounded(e0 as int, e1 as int, frac as int);
            }
            let num: u64 = e0 * (65536 - frac) + e1 * frac + 32768;
            (num / 65536) as u8
        }
    }
}

/// Exact strategy: clamp a fixed-point intensity to [0, 1], scale by
/// 255 and round to the nearest integer level.
pub fn quantize_unit(v: i64) -> (q: u8)
    ensures
        q == quantize_unit_spec(v as int),
        q <= 255,
{
    let c: i64 = if v < 0 {
        0
    } else if v > FP_ONE {
        FP_ONE
    } else {
        v
    };
    let cu: u64 = c as u64;
    ((cu * 255 + 32768) / 65536) as u8
}

/// Interpolating between two 8-bit entries, with rounding, stays within
/// 8 bits.
proof fn lemma_interp_bounded(e0: int, e1: int, frac: int)
    requires
        0 <= e0 <= 255,
        0 <= e1 <= 255,
        0 <= frac < 65536,
    ensures
        0 <= e0 * (65536 - frac) <= 255 * 65536,
        0 <= e1 * frac <= 255 * 65536,
        e0 * (65536 - frac) + e1 * frac <= 255 * 65536,
        0 <= (e0 * (65536 - frac) + e1 * frac + 32768) / 65536 <= 255,
{
    assert(e0 * (65536 - frac) + e1 * frac <= 255 * 65536) by (nonlinear_arith)
        requires
            0 <= e0 <= 255,
            0 <= e1 <= 255,
            0 <= frac < 65536,
    ;
    assert(e0 * (65536 - frac) >= 0 && e1 * frac >= 0 && e0 * (65536 - frac) <= 255 * 65536
        && e1 * frac <= 255 * 65536) by (nonlinear_arith)
        requires
            0 <= e0 <= 255,
            0 <= e1 <= 255,
            0 <= frac < 65536,
    ;
}

/// Monotonicity: because each table entry never decreases from one
/// bucket to the next, the entries are non-decreasing across any pair
/// of bucket indices.
pub proof fn lemma_entries_monotone(e: Seq<u8>, i: int, j: int)
    requires
        valid_entries(e),
        0 <= i <= j < 256,
    ensures
        e[i] <= e[j],
    decreases j - i,
{
    if i < j {
        lemma_entries_monotone(e, i, j - 1);
        assert(e[j - 1] <= e[j]);
    }
}

/// Bracketing law: an interpolated lookup never leaves the closed
/// interval spanned by the two entries it interpolates between, so the
/// table strategy's error against the entry formula stays bounded by
/// the spacing of neighbouring entries.
pub proof fn lemma_lookup_bracketed(e: Seq<u8>, x: int)
    requires
        valid_entries(e),
    ensures
        ({
            let pos = clamp_domain(x) * 51;
            let i = pos / 65536;
            i >= 255 ==> lookup_spec(e, x) == e[255]
        }),
        ({
            let pos = clamp_domain(x) * 51;
            let i = pos / 65536;
            i < 255 ==> e[i] <= lookup_spec(e, x) <= e[i + 1]
        }),
{
    let pos = clamp_domain(x) * 51;
    let i = pos / 65536;
    let frac = pos % 65536;
    assert(0 <= pos <= 16711680) by (nonlinear_arith)
        requires
            0 <= clamp_domain(x) <= 327680,
            pos == clamp_domain(x) * 51,
    ;
    vstd::arithmetic::div_mod::lemma_mod_bound(pos, 65536);
    vstd::arithmetic::div_mod::lemma_div_pos_is_pos(pos, 65536);
    if i < 255 {
        let e0 = e[i] as int;
        let e1 = e[i + 1] as int;
        assert(e0 <= e1);
        let num = e0 * (65536 - frac) + e1 * frac + 32768;
        assert(e0 * 65536 <= num - 32768 <= e1 * 65536) by (nonlinear_arith)
            requires
                0 <= frac < 65536,
                0 <= e0 <= e1,
                num == e0 * (65536 - frac) + e1 * frac + 32768,
        ;
        assert(e0 <= num / 65536 <= e1) by {
            vstd::arithmetic::div_mod::lemma_div_is_ordered(e0 * 65536, num, 65536);
            vstd::arithmetic::div_mod::lemma_div_is_ordered(num, e1 * 65536 + 32768, 65536);
            vstd::arithmetic::div_mod::lemma_div_multiples_vanish(e0, 65536);
            assert((e1 * 65536 + 32768) / 65536 == e1) by {
                vstd::arithmetic::div_mod::lemma_hoist_over_denominator(32768, e1, 65536nat);
                assert(32768int / 65536 == 0);
            }
        }
    }
}

/// Error law: an interpolated lookup sits within 5 levels of the entry
/// below its argument — the bracketing interval's width is capped by
/// the table invariant's adjacent-gap bound — so the table strategy
/// never strays further than one bucket step from the entry formula.
pub proof fn lemma_lookup_near_entry(e: Seq<u8>, x: int)
    requires
        valid_entries(e),
    ensures
        ({
            let pos = clamp_domain(x) * 51;
            let i = pos / 65536;
            i >= 255 ==> lookup_spec(e, x) == e[255]
        }),
        ({
            let pos = clamp_domain(x) * 51;
            let i = pos / 65536;
            i < 255 ==> e[i] <= lookup_spec(e, x) <= e[i] + 5
        }),
{
    let pos = clamp_domain(x) * 51;
    let i = pos / 65536;
    lemma_lookup_bracketed(e, x);
    vstd::arithmetic::mul::lemma_mul_nonnegative(clamp_domain(x), 51);
    vstd::arithmetic::div_mod::lemma_div_pos_is_pos(pos, 65536);
    if i < 255 {
        assert(e[i] <= e[i + 1] <= e[i] + 5);
    }
}

/// Endpoint law: a valid table maps the zero argument to level 0 and
/// its last bucket to within one level of full scale.
pub proof fn lemma_table_endpoints(e: Seq<u8>)
    requires
        valid_entries(e),
    ensures
        lookup_spec(e, 0) == 0,
        e[0] == 0,
        e[255] >= 254,
{
    assert(clamp_domain(0) == 0);
    assert(lookup_spec(e, 0) == (e[0] * 65536 + 32768) / 65536);
}

} // verus!
