//! Render configuration and lane-group partition geometry.
//!
//! A frame is `width * height` pixels, 3 bytes (R, G, B) each, row-major.
//! Each scanline is split into lane groups of `lane_width` consecutive
//! pixels; a trailing remainder narrower than one lane group is never
//! dispatched, so those bytes keep their prior value.
use vstd::prelude::*;

verus! {

/// Build-time render parameters made explicit, so entry points can be
/// exercised at several resolutions and lane widths.
pub struct RenderConfig {
    /// Frame width in pixels.
    pub width: usize,
    /// Frame height in pixels.
    pub height: usize,
    /// Number of adjacent pixels evaluated together by one kernel call.
    pub lane_width: usize,
}

impl RenderConfig {
    /// Well-formedness: positive extents, a supported lane width, and a
    /// framebuffer byte count that fits the address space.
    pub open spec fn wf(self) -> bool {
        &&& 0 < self.width
        &&& 0 < self.height
        &&& (self.lane_width == 4 || self.lane_width == 8)
        &&& self.width * self.height * 3 <= usize::MAX
    }

    /// Byte length of the frame: 3 bytes per pixel, row-major.
    pub open spec fn spec_frame_len(self) -> int {
        self.width * self.height * 3
    }

    /// Number of complete lane groups in one scanline.
    pub open spec fn spec_groups_per_row(self) -> int {
        self.width as int / self.lane_width as int
    }

    /// Number of trailing pixels per scanline that no lane group covers.
    pub open spec fn spec_remainder_cols(self) -> int {
        self.width as int % self.lane_width as int
    }

    /// First byte of the pixel at column `x`, row `y`.
    pub open spec fn spec_pixel_offset(self, x: int, y: int) -> int {
        (y * self.width + x) * 3
    }

    /// Byte length of the whole frame.
    pub fn frame_len(&self) -> (n: usize)
        requires
            self.wf(),
        ensures
            n == self.spec_frame_len(),
    {
        proof {
            lemma_mul_le_all(self.width as int, self.height as int, usize::MAX as int);
        }
        self.width * self.height * 3
    }

    /// Number of complete lane groups per scanline.
    pub fn groups_per_row(&self) -> (n: usize)
        requires
            self.wf(),
        ensures
            n == self.spec_groups_per_row(),
    {
        self.width / self.lane_width
    }

    /// Number of trailing pixels per scanline left outside every group.
    pub fn remainder_cols(&self) -> (n: usize)
        requires
            self.wf(),
        ensures
            n == self.spec_remainder_cols(),
            n < self.lane_width,
    {
        self.width % self.lane_width
    }

    /// Starting column of lane group `g` within a scanline.
    pub fn group_start_col(&self, g: usize) -> (c: usize)
        requires
            self.wf(),
            g < self.spec_groups_per_row(),
        ensures
            c == g * self.lane_width,
            c + self.lane_width <= self.width,
    {
        proof {
            lemma_group_fits(self.width as int, self.lane_width as int, g as int);
        }
        g * self.lane_width
    }

    /// Vertical coordinate fed to the kernel: scanline `y` counted from
    /// the bottom of the image, so row 0 maps to `height`.
    pub fn flipped_row(&self, y: usize) -> (f: usize)
        requires
            self.wf(),
            y < self.height,
        ensures
            f == self.height - y,
    {
        self.height - y
    }

    /// First byte of the pixel at column `x`, row `y`.
    pub fn pixel_offset(&self, x: usize, y: usize) -> (off: usize)
        requires
            self.wf(),
            x < self.width,
            y < self.height,
        ensures
            off == self.spec_pixel_offset(x as int, y as int),
            off + 3 <= self.spec_frame_len(),
    {
        proof {
            lemma_pixel_offset_in_frame(
                self.width as int,
                self.height as int,
                x as int,
                y as int,
            );
        }
        (y * self.width + x) * 3
    }

    /// Starting columns of every complete lane group of one scanline, in
    /// increasing order: group `g` starts at column `g * lane_width`.
    pub fn row_group_starts(&self) -> (starts: Vec<usize>)
        requires
            self.wf(),
        ensures
            starts@.len() == self.spec_groups_per_row(),
            forall|g: int|
                0 <= g < starts@.len() ==> starts@[g] == g * self.lane_width,
    {
        let n = self.groups_per_row();
        let mut starts: Vec<usize> = Vec::new();
        let mut g: usize = 0;
        while g < n
            invariant
                self.wf(),
                n == self.spec_groups_per_row(),
                g <= n,
                starts@.len() == g,
                forall|k: int|
                    0 <= k < g ==> starts@[k] == k * self.lane_width,
            decreases n - g,
        {
            proof {
                lemma_group_fits(self.width as int, self.lane_width as int, g as int);
            }
            starts.push(g * self.lane_width);
            g = g + 1;
        }
        starts
    }
}

/// The complete groups and the remainder tile a scanline exactly:
/// `groups * lane_width + remainder == width`, with the remainder
/// strictly narrower than one lane group.
pub proof fn lemma_group_partition(c: RenderConfig)
    requires
        c.wf(),
    ensures
        c.spec_groups_per_row() * c.lane_width + c.spec_remainder_cols() == c.width,
        0 <= c.spec_remainder_cols() < c.lane_width,
        c.spec_groups_per_row() * c.lane_width <= c.width,
{
    vstd::arithmetic::div_mod::lemma_fundamental_div_mod(
        c.width as int,
        c.lane_width as int,
    );
    vstd::arithmetic::div_mod::lemma_mod_bound(c.width as int, c.lane_width as int);
    vstd::arithmetic::mul::lemma_mul_is_commutative(
        c.lane_width as int,
        c.spec_groups_per_row(),
    );
}

/// Helper: a complete lane group lies inside the scanline.
proof fn lemma_group_fits(width: int, lane: int, g: int)
    requires
        0 < lane,
        0 <= g,
        g < width / lane,
    ensures
        g * lane + lane <= width,
        0 <= g * lane,
{
    vstd::arithmetic::div_mod::lemma_fundamental_div_mod(width, lane);
    vstd::arithmetic::div_mod::lemma_mod_bound(width, lane);
    assert((g + 1) * lane <= (width / lane) * lane) by {
        vstd::arithmetic::mul::lemma_mul_inequality(g + 1, width / lane, lane);
    }
    assert((g + 1) * lane == g * lane + lane) by {
        vstd::arithmetic::mul::lemma_mul_is_distributive_add_other_way(lane, g, 1);
    }
    vstd::arithmetic::mul::lemma_mul_nonnegative(g, lane);
}

/// Helper: a pixel's 3 bytes lie inside the frame.
proof fn lemma_pixel_offset_in_frame(width: int, height: int, x: int, y: int)
    requires
        0 <= x < width,
        0 <= y < height,
    ensures
        0 <= (y * width + x) * 3,
        (y * width + x) * 3 + 3 <= width * height * 3,
{
    assert(y * width + x < width * height) by {
        assert((y + 1) * width <= height * width) by {
            vstd::arithmetic::mul::lemma_mul_inequality(y + 1, height, width);
        }
        assert((y + 1) * width == y * width + width) by {
            vstd::arithmetic::mul::lemma_mul_is_distributive_add_other_way(width, y, 1);
        }
        vstd::arithmetic::mul::lemma_mul_is_commutative(width, height);
    }
    vstd::arithmetic::mul::lemma_mul_nonnegative(y, width);
    assert((y * width + x) * 3 + 3 == (y * width + x + 1) * 3) by {
        vstd::arithmetic::mul::lemma_mul_is_distributive_add_other_way(3, y * width + x, 1);
    }
    vstd::arithmetic::mul::lemma_mul_inequality(y * width + x + 1, width * height, 3);
}

/// Helper: if `a * b * 3 <= m` and the factors are positive, each partial
/// product stays below `m` too.
proof fn lemma_mul_le_all(a: int, b: int, m: int)
    requires
        0 < a,
        0 < b,
        a * b * 3 <= m,
    ensures
        a * b <= m,
{
    assert(a * b <= a * b * 3) by {
        vstd::arithmetic::mul::lemma_mul_inequality(1, 3, a * b);
        vstd::arithmetic::mul::lemma_mul_nonnegative(a, b);
        vstd::arithmetic::mul::lemma_mul_is_commutative(a * b, 3);
    }
}

} // verus!
