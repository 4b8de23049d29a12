//! The framebuffer and the row dispatcher's write path.
//!
//! A framebuffer is a byte buffer of length `width * height * 3`,
//! row-major, 3 bytes (R, G, B) per pixel, allocated once and
//! overwritten in place every frame. Scanlines are written lane group
//! by lane group; a trailing remainder narrower than one lane group is
//! never written, so those bytes keep their prior value.
use vstd::prelude::*;

use crate::vecmath::Color;

verus! {

/// First byte of the pixel at column `x`, row `y`, in a frame that is
/// `width` pixels wide.
pub open spec fn pix_base(width: int, y: int, x: int) -> int {
    (y * width + x) * 3
}

/// Relation left by writing one lane group: in scanline `row`, the
/// `lane` pixels starting at column `start` carry the group's quantized
/// channels, and every other byte of the buffer is unchanged.
pub open spec fn group_written(
    o: Seq<u8>,
    n: Seq<u8>,
    width: int,
    row: int,
    start: int,
    lane: int,
    c: Color,
) -> bool {
    &&& n.len() == o.len()
    &&& forall|x: int|
        #![trigger pix_base(width, row, x)]
        start <= x < start + lane ==> (n[pix_base(width, row, x)] == c.r@[x - start]
            && n[pix_base(width, row, x) + 1] == c.g@[x - start] && n[pix_base(width, row, x)
            + 2] == c.b@[x - start])
    &&& forall|j: int|
        0 <= j < n.len() && !(pix_base(width, row, start) <= j < pix_base(width, row, start) + 3
            * lane) ==> n[j] == o[j]
}

/// Relation left by writing one whole scanline: every pixel covered by
/// a complete lane group carries its group's quantized channels, taken
/// from `colors` starting at index `cbase`, and every byte outside the
/// covered range — the row's trailing remainder and all other rows —
/// is unchanged.
pub open spec fn row_written(
    o: Seq<u8>,
    n: Seq<u8>,
    width: int,
    row: int,
    lane: int,
    colors: Seq<Color>,
    cbase: int,
) -> bool {
    let groups = width / lane;
    &&& n.len() == o.len()
    &&& forall|x: int|
        #![trigger pix_base(width, row, x)]
        0 <= x < groups * lane ==> (n[pix_base(width, row, x)] == colors[cbase + x / lane].r@[x
            % lane] && n[pix_base(width, row, x) + 1] == colors[cbase + x / lane].g@[x % lane]
            && n[pix_base(width, row, x) + 2] == colors[cbase + x / lane].b@[x % lane])
    &&& forall|j: int|
        0 <= j < n.len() && !(pix_base(width, row, 0) <= j < pix_base(width, row, 0) + 3 * (groups
            * lane)) ==> n[j] == o[j]
}

/// Relation left by one full-frame evaluation: every pixel covered by
/// a complete lane group carries the quantized channels of its group's
/// color (groups numbered row-major, `width / lane` per row), and every
/// byte outside the covered ranges — each row's trailing remainder —
/// keeps its prior value.
pub open spec fn frame_written(
    o: Seq<u8>,
    n: Seq<u8>,
    width: int,
    height: int,
    lane: int,
    colors: Seq<Color>,
) -> bool {
    let groups = width / lane;
    &&& o.len() == width * height * 3
    &&& n.len() == o.len()
    &&& forall|y: int, x: int|
        #![trigger pix_base(width, y, x)]
        0 <= y < height && 0 <= x < groups * lane ==> (n[pix_base(width, y, x)] == colors[y * groups
            + x / lane].r@[x % lane] && n[pix_base(width, y, x) + 1] == colors[y * groups + x
            / lane].g@[x % lane] && n[pix_base(width, y, x) + 2] == colors[y * groups + x
            / lane].b@[x % lane])
    &&& forall|j: int|
        0 <= j < n.len() && j % (width * 3) >= groups * lane * 3 ==> n[j] == o[j]
}

/// A frame's byte buffer together with its fixed dimensions.
pub struct Framebuffer {
    bytes: Vec<u8>,
    width: usize,
    height: usize,
}

impl Framebuffer {
    /// The buffer's bytes.
    pub closed spec fn view(self) -> Seq<u8> {
        self.bytes@
    }

    /// Frame width in pixels.
    pub closed spec fn spec_width(self) -> int {
        self.width as int
    }

    /// Frame height in pixels.
    pub closed spec fn spec_height(self) -> int {
        self.height as int
    }

    /// Well-formedness: positive extents and exactly 3 bytes per pixel.
    pub open spec fn wf(self) -> bool {
        &&& 0 < self.spec_width()
        &&& 0 < self.spec_height()
        &&& self.view().len() == self.spec_width() * self.spec_height() * 3
        &&& self.spec_width() * self.spec_height() * 3 <= usize::MAX
    }

    /// A zeroed frame of the given dimensions, allocated once and
    /// reused across frames.
    pub fn new(width: usize, height: usize) -> (fb: Framebuffer)
        requires
            0 < width,
            0 < height,
            width * height * 3 <= usize::MAX,
        ensures
            fb.wf(),
            fb.spec_width() == width,
            fb.spec_height() == height,
            fb@.len() == width * height * 3,
            forall|j: int| 0 <= j < fb@.len() ==> fb@[j] == 0,
    {
        proof {
            lemma_partial_products(width as int, height as int);
        }
        let n: usize = width * height * 3;
        let mut bytes: Vec<u8> = Vec::new();
        let mut k: usize = 0;
        #[verifier::loop_isolation(false)]
        while k < n
            invariant
                k <= n,
                bytes@.len() == k,
                forall|j: int| 0 <= j < k ==> #[trigger] bytes@[j] == 0,
            decreases n - k,
        {
            bytes.push(0);
            k = k + 1;
        }
        Framebuffer { bytes, width, height }
    }

    /// Frame width in pixels.
    pub fn width(&self) -> (w: usize)
        ensures
            w == self.spec_width(),
    {
        self.width
    }

    /// Frame height in pixels.
    pub fn height(&self) -> (h: usize)
        ensures
            h == self.spec_height(),
    {
        self.height
    }

    /// Length of the buffer in bytes.
    pub fn len(&self) -> (n: usize)
        ensures
            n == self@.len(),
    {
        self.bytes.len()
    }

    /// Read one byte of the buffer.
    pub fn byte_at(&self, j: usize) -> (b: u8)
        requires
            j < self@.len(),
        ensures
            b == self@[j as int],
    {
        self.bytes[j]
    }

    /// The whole buffer as bytes, for serialization.
    pub fn to_bytes(&self) -> (out: Vec<u8>)
        ensures
            out@ == self@,
    {
        let n = self.bytes.len();
        let mut out: Vec<u8> = Vec::new();
        let mut k: usize = 0;
        #[verifier::loop_isolation(false)]
        while k < n
            invariant
                k <= n,
                out@.len() == k,
                forall|j: int| 0 <= j < k ==> #[trigger] out@[j] == self@[j],
            decreases n - k,
        {
            out.push(self.bytes[k]);
            k = k + 1;
        }
        proof {
            assert(out@ =~= self@);
        }
        out
    }

    /// Write one lane group's quantized channels: `lane` adjacent
    /// pixels of scanline `row` starting at column `start_col`. Bytes
    /// outside the group's range keep their prior value.
    pub fn write_group(&mut self, start_col: usize, lane: usize, row: usize, color: &Color)
        requires
            old(self).wf(),
            1 <= lane <= 8,
            start_col + lane <= old(self).spec_width(),
            row < old(self).spec_height(),
        ensures
            final(self).wf(),
            final(self).spec_width() == old(self).spec_width(),
            final(self).spec_height() == old(self).spec_height(),
            group_written(
                old(self)@,
                final(self)@,
                old(self).spec_width(),
                row as int,
                start_col as int,
                lane as int,
                *color,
            ),
    {
        let ghost w = self.spec_width();
        let ghost orig = self@;
        proof {
            lemma_group_region_in_frame(
                w,
                self.spec_height(),
                row as int,
                start_col as int,
                lane as int,
            );
        }
        let base: usize = (row * self.width + start_col) * 3;
        let mut i: usize = 0;
        #[verifier::loop_isolation(false)]
        while i < lane
            invariant
                i <= lane,
                self.bytes@.len() == orig.len(),
                self.width == old(self).width,
                self.height == old(self).height,
                base == pix_base(w, row as int, start_col as int),
                forall|x: int|
                    #![trigger pix_base(w, row as int, x)]
                    start_col <= x < start_col + i ==> (self.bytes@[pix_base(w, row as int, x)]
                        == color.r@[x - start_col] && self.bytes@[pix_base(w, row as int, x) + 1]
                        == color.g@[x - start_col] && self.bytes@[pix_base(w, row as int, x) + 2]
                        == color.b@[x - start_col]),
                forall|j: int|
                    0 <= j < orig.len() && !(base <= j < base + 3 * i) ==> self.bytes@[j]
                        == orig[j],
            decreases lane - i,
        {
            proof {
                assert(pix_base(w, row as int, start_col + i) == base + 3 * i) by {
                    vstd::arithmetic::mul::lemma_mul_is_distributive_add(
                        3,
                        row as int * w + start_col as int,
                        i as int,
                    );
                    vstd::arithmetic::mul::lemma_mul_is_commutative(
                        3,
                        row as int * w + start_col as int + i,
                    );
                    vstd::arithmetic::mul::lemma_mul_is_commutative(
                        3,
                        row as int * w + start_col as int,
                    );
                }
            }
            let off: usize = base + 3 * i;
            self.bytes.set(off, color.r[i]);
            self.bytes.set(off + 1, color.g[i]);
            self.bytes.set(off + 2, color.b[i]);
            i = i + 1;
        }
    }
}

impl Framebuffer {
    /// Write one whole scanline: iterate the complete lane groups of
    /// `row` across increasing x, taking group `g`'s channels from
    /// `colors[cbase + g]`. The row's trailing remainder and all other
    /// rows keep their prior bytes.
    pub fn write_row(&mut self, row: usize, lane: usize, colors: &Vec<Color>, cbase: usize)
        requires
            old(self).wf(),
            1 <= lane <= 8,
            row < old(self).spec_height(),
            cbase + old(self).spec_width() / (lane as int) <= colors@.len(),
        ensures
            final(self).wf(),
            final(self).spec_width() == old(self).spec_width(),
            final(self).spec_height() == old(self).spec_height(),
            row_written(
                old(self)@,
                final(self)@,
                old(self).spec_width(),
                row as int,
                lane as int,
                colors@,
                cbase as int,
            ),
    {
        let ghost w = self.spec_width();
        let ghost orig = self@;
        proof {
            lemma_groups_cover(w, lane as int);
        }
        let groups: usize = self.width / lane;
        let mut g: usize = 0;
        #[verifier::loop_isolation(false)]
        while g < groups
            invariant
                g <= groups,
                self.wf(),
                self.width == old(self).width,
                self.height == old(self).height,
                self.bytes@.len() == orig.len(),
                forall|x: int|
                    #![trigger pix_base(w, row as int, x)]
                    0 <= x < g * lane ==> (self.bytes@[pix_base(w, row as int, x)]
                        == colors@[cbase as int + x / (lane as int)].r@[x % (lane as int)]
                        && self.bytes@[pix_base(w, row as int, x) + 1] == colors@[cbase as int + x
                        / (lane as int)].g@[x % (lane as int)] && self.bytes@[pix_base(
                        w,
                        row as int,
                        x,
                    ) + 2] == colors@[cbase as int + x / (lane as int)].b@[x % (lane as int)]),
                forall|j: int|
                    0 <= j < orig.len() && !(pix_base(w, row as int, 0) <= j < pix_base(
                        w,
                        row as int,
                        0,
                    ) + 3 * (g * lane)) ==> self.bytes@[j] == orig[j],
            decreases groups - g,
        {
            proof {
                lemma_groups_cover(w, lane as int);
                vstd::arithmetic::mul::lemma_mul_inequality(g + 1, groups as int, lane as int);
                vstd::arithmetic::mul::lemma_mul_is_distributive_add_other_way(
                    lane as int,
                    g as int,
                    1,
                );
                vstd::arithmetic::mul::lemma_mul_nonnegative(g as int, lane as int);
                lemma_group_region_in_frame(
                    w,
                    self.spec_height(),
                    row as int,
                    g as int * lane as int,
                    lane as int,
                );
                assert(cbase + g < colors@.len());
            }
            let _clen: usize = colors.len();
            let start: usize = g * lane;
            let ghost mid = self.bytes@;
            self.write_group(start, lane, row, &colors[cbase + g]);
            proof {
                lemma_row_step(
                    orig,
                    mid,
                    self.bytes@,
                    w,
                    row as int,
                    lane as int,
                    colors@,
                    cbase as int,
                    g as int,
                    colors@[cbase + g],
                );
            }
            g = g + 1;
        }
    }
}

impl Framebuffer {
    /// One full-frame evaluation: write every scanline in turn, taking
    /// row `y`'s group colors from `colors[y * groups ..]`. Each row's
    /// trailing remainder keeps its prior bytes.
    pub fn write_frame(&mut self, lane: usize, colors: &Vec<Color>)
        requires
            old(self).wf(),
            1 <= lane <= 8,
            colors@.len() == old(self).spec_height() * (old(self).spec_width() / (lane as int)),
        ensures
            final(self).wf(),
            final(self).spec_width() == old(self).spec_width(),
            final(self).spec_height() == old(self).spec_height(),
            frame_written(
                old(self)@,
                final(self)@,
                old(self).spec_width(),
                old(self).spec_height(),
                lane as int,
                colors@,
            ),
    {
        let ghost w = self.spec_width();
        let ghost h = self.spec_height();
        let ghost orig = self@;
        let groups: usize = self.width / lane;
        let height: usize = self.height;
        let _clen: usize = colors.len();
        let mut y: usize = 0;
        #[verifier::loop_isolation(false)]
        while y < height
            invariant
                y <= height,
                self.wf(),
                self.width == old(self).width,
                self.height == old(self).height,
                self.bytes@.len() == orig.len(),
                forall|yy: int, x: int|
                    #![trigger pix_base(w, yy, x)]
                    0 <= yy < y && 0 <= x < groups * lane ==> (self.bytes@[pix_base(w, yy, x)]
                        == colors@[yy * groups + x / (lane as int)].r@[x % (lane as int)]
                        && self.bytes@[pix_base(w, yy, x) + 1] == colors@[yy * groups + x / (
                        lane as int)].g@[x % (lane as int)] && self.bytes@[pix_base(w, yy, x) + 2]
                        == colors@[yy * groups + x / (lane as int)].b@[x % (lane as int)]),
                forall|j: int|
                    0 <= j < orig.len() && (j / (w * 3) >= y || j % (w * 3) >= groups * lane * 3)
                        ==> self.bytes@[j] == orig[j],
            decreases height - y,
        {
            proof {
                vstd::arithmetic::mul::lemma_mul_inequality(y + 1, height as int, groups as int);
                vstd::arithmetic::mul::lemma_mul_is_distributive_add_other_way(
                    groups as int,
                    y as int,
                    1,
                );
                vstd::arithmetic::mul::lemma_mul_nonnegative(y as int, groups as int);
                assert(y as int * groups as int + groups as int <= _clen as int);
            }
            let cbase: usize = y * groups;
            let ghost mid = self.bytes@;
            self.write_row(y, lane, colors, cbase);
            proof {
                lemma_frame_step(
                    orig,
                    mid,
                    self.bytes@,
                    w,
                    h,
                    lane as int,
                    colors@,
                    y as int,
                );
            }
            y = y + 1;
        }
    }
}

/// Writing scanline `y` extends the written rows by one and leaves
/// the other rows and every row's trailing remainder alone.
proof fn lemma_frame_step(
    orig: Seq<u8>,
    mid: Seq<u8>,
    n: Seq<u8>,
    w: int,
    h: int,
    lane: int,
    colors: Seq<Color>,
    y: int,
)
    requires
        0 < lane,
        0 < w,
        0 <= y < h,
        orig.len() == w * h * 3,
        mid.len() == orig.len(),
        row_written(mid, n, w, y, lane, colors, y * (w / lane)),
        forall|yy: int, x: int|
            #![trigger pix_base(w, yy, x)]
            0 <= yy < y && 0 <= x < (w / lane) * lane ==> (mid[pix_base(w, yy, x)] == colors[yy * (w
                / lane) + x / lane].r@[x % lane] && mid[pix_base(w, yy, x) + 1] == colors[yy * (w
                / lane) + x / lane].g@[x % lane] && mid[pix_base(w, yy, x) + 2] == colors[yy * (w
                / lane) + x / lane].b@[x % lane]),
        forall|j: int|
            0 <= j < orig.len() && (j / (w * 3) >= y || j % (w * 3) >= (w / lane) * lane * 3)
                ==> mid[j] == orig[j],
    ensures
        n.len() == orig.len(),
        forall|yy: int, x: int|
            #![trigger pix_base(w, yy, x)]
            0 <= yy < y + 1 && 0 <= x < (w / lane) * lane ==> (n[pix_base(w, yy, x)] == colors[yy
                * (w / lane) + x / lane].r@[x % lane] && n[pix_base(w, yy, x) + 1] == colors[yy * (w
                / lane) + x / lane].g@[x % lane] && n[pix_base(w, yy, x) + 2] == colors[yy * (w
                / lane) + x / lane].b@[x % lane]),
        forall|j: int|
            0 <= j < orig.len() && (j / (w * 3) >= y + 1 || j % (w * 3) >= (w / lane) * lane * 3)
                ==> n[j] == orig[j],
{
    let groups = w / lane;
    lemma_groups_cover(w, lane);
    vstd::arithmetic::mul::lemma_mul_nonnegative(y, w);
    vstd::arithmetic::mul::lemma_mul_is_associative(y, w, 3);
    assert forall|yy: int, x: int| 0 <= yy < y + 1 && 0 <= x < groups * lane implies (#[trigger] n[
        pix_base(w, yy, x)] == colors[yy * groups + x / lane].r@[x % lane] && n[pix_base(w, yy, x)
        + 1] == colors[yy * groups + x / lane].g@[x % lane] && n[pix_base(w, yy, x) + 2]
        == colors[yy * groups + x / lane].b@[x % lane]) by {
        lemma_group_region_in_frame(w, h, yy, x, 1);
        if yy < y {
            assert((yy + 1) * w <= y * w) by {
                vstd::arithmetic::mul::lemma_mul_inequality(yy + 1, y, w);
            }
            assert((yy + 1) * w == yy * w + w) by {
                vstd::arithmetic::mul::lemma_mul_is_distributive_add_other_way(w, yy, 1);
            }
            assert(pix_base(w, yy, x) + 2 < pix_base(w, y, 0));
            assert(n[pix_base(w, yy, x)] == mid[pix_base(w, yy, x)]);
            assert(n[pix_base(w, yy, x) + 1] == mid[pix_base(w, yy, x) + 1]);
            assert(n[pix_base(w, yy, x) + 2] == mid[pix_base(w, yy, x) + 2]);
        }
    }
    assert forall|j: int| 0 <= j < orig.len() && (j / (w * 3) >= y + 1 || j % (w * 3) >= groups
        * lane * 3) implies #[trigger] n[j] == orig[j] by {
        if pix_base(w, y, 0) <= j < pix_base(w, y, 0) + 3 * (groups * lane) {
            vstd::arithmetic::div_mod::lemma_fundamental_div_mod_converse(
                j,
                w * 3,
                y,
                j - y * (w * 3),
            );
            assert(false);
        }
        assert(n[j] == mid[j]);
        assert(mid[j] == orig[j]);
    }
}

/// Determinism law: full-frame evaluation is a function of the prior
/// buffer and the group colors alone. Two buffers produced by writing
/// the same colors over the same prior contents are byte-identical.
pub proof fn lemma_frame_written_deterministic(
    o: Seq<u8>,
    n1: Seq<u8>,
    n2: Seq<u8>,
    width: int,
    height: int,
    lane: int,
    colors: Seq<Color>,
)
    requires
        0 < width,
        0 < lane,
        frame_written(o, n1, width, height, lane, colors),
        frame_written(o, n2, width, height, lane, colors),
    ensures
        n1 == n2,
{
    let groups = width / lane;
    lemma_groups_cover(width, lane);
    assert forall|j: int| 0 <= j < n1.len() implies n1[j] == n2[j] by {
        let y = j / (width * 3);
        let b = j % (width * 3);
        vstd::arithmetic::div_mod::lemma_fundamental_div_mod(j, width * 3);
        vstd::arithmetic::div_mod::lemma_mod_bound(j, width * 3);
        vstd::arithmetic::div_mod::lemma_div_pos_is_pos(j, width * 3);
        if b < groups * lane * 3 {
            let x = b / 3;
            let c = b % 3;
            vstd::arithmetic::div_mod::lemma_fundamental_div_mod(b, 3);
            vstd::arithmetic::div_mod::lemma_mod_bound(b, 3);
            vstd::arithmetic::div_mod::lemma_div_pos_is_pos(b, 3);
            assert(x < groups * lane);
            assert(0 <= y < height) by {
                if y >= height {
                    vstd::arithmetic::mul::lemma_mul_inequality(height, y, width * 3);
                    vstd::arithmetic::mul::lemma_mul_is_commutative(height, width * 3);
                    vstd::arithmetic::mul::lemma_mul_is_commutative(y, width * 3);
                    vstd::arithmetic::mul::lemma_mul_is_associative(width, 3, height);
                    vstd::arithmetic::mul::lemma_mul_is_commutative(3, height);
                    vstd::arithmetic::mul::lemma_mul_is_associative(width, height, 3);
                    assert((width * 3) * height == width * height * 3);
                    assert(false);
                }
            }
            assert(j == pix_base(width, y, x) + c) by {
                vstd::arithmetic::mul::lemma_mul_is_distributive_add(3, y * width, x);
                vstd::arithmetic::mul::lemma_mul_is_commutative(3, y * width + x);
                vstd::arithmetic::mul::lemma_mul_is_commutative(3, y * width);
                vstd::arithmetic::mul::lemma_mul_is_associative(y, width, 3);
            }
            assert(n1[j] == n2[j]) by {
                assert(n1[pix_base(width, y, x)] == n2[pix_base(width, y, x)]);
                assert(n1[pix_base(width, y, x) + 1] == n2[pix_base(width, y, x) + 1]);
                assert(n1[pix_base(width, y, x) + 2] == n2[pix_base(width, y, x) + 2]);
            }
        } else {
            assert(n1[j] == o[j]);
            assert(n2[j] == o[j]);
        }
    }
    assert(n1 =~= n2);
}

/// Remainder law: when the frame width is not a multiple of the lane
/// width, the trailing pixels of every scanline lie outside all
/// complete lane groups, and full-frame evaluation leaves their bytes
/// at the prior value.
pub proof fn lemma_remainder_untouched(
    o: Seq<u8>,
    n: Seq<u8>,
    width: int,
    height: int,
    lane: int,
    colors: Seq<Color>,
    y: int,
    x: int,
)
    requires
        0 < width,
        0 < lane,
        frame_written(o, n, width, height, lane, colors),
        0 <= y < height,
        (width / lane) * lane <= x < width,
    ensures
        n[pix_base(width, y, x)] == o[pix_base(width, y, x)],
        n[pix_base(width, y, x) + 1] == o[pix_base(width, y, x) + 1],
        n[pix_base(width, y, x) + 2] == o[pix_base(width, y, x) + 2],
{
    let groups = width / lane;
    lemma_group_region_in_frame(width, height, y, x, 1);
    assert(pix_base(width, y, x) == y * (width * 3) + (3 * x)) by {
        vstd::arithmetic::mul::lemma_mul_is_distributive_add(3, y * width, x);
        vstd::arithmetic::mul::lemma_mul_is_commutative(3, y * width + x);
        vstd::arithmetic::mul::lemma_mul_is_commutative(3, y * width);
        vstd::arithmetic::mul::lemma_mul_is_associative(y, width, 3);
        vstd::arithmetic::mul::lemma_mul_is_commutative(width, 3);
    }
    lemma_remainder_byte(o, n, width, height, lane, colors, y, x, 0);
    lemma_remainder_byte(o, n, width, height, lane, colors, y, x, 1);
    lemma_remainder_byte(o, n, width, height, lane, colors, y, x, 2);
}

/// One byte of a remainder pixel keeps its prior value.
proof fn lemma_remainder_byte(
    o: Seq<u8>,
    n: Seq<u8>,
    width: int,
    height: int,
    lane: int,
    colors: Seq<Color>,
    y: int,
    x: int,
    c: int,
)
    requires
        0 < width,
        0 < lane,
        frame_written(o, n, width, height, lane, colors),
        0 <= y < height,
        (width / lane) * lane <= x < width,
        0 <= c < 3,
        pix_base(width, y, x) == y * (width * 3) + (3 * x),
        pix_base(width, y, x) + 3 <= width * height * 3,
        0 <= pix_base(width, y, x),
    ensures
        n[pix_base(width, y, x) + c] == o[pix_base(width, y, x) + c],
{
    let groups = width / lane;
    let j = pix_base(width, y, x) + c;
    vstd::arithmetic::div_mod::lemma_fundamental_div_mod_converse(j, width * 3, y, 3 * x + c);
    assert(j % (width * 3) == 3 * x + c);
    assert(3 * x + c >= groups * lane * 3);
}

/// The complete lane groups cover no more than the scanline:
/// `(width / lane) * lane <= width`.
proof fn lemma_groups_cover(width: int, lane: int)
    requires
        0 <= width,
        0 < lane,
    ensures
        0 <= (width / lane) * lane <= width,
{
    vstd::arithmetic::div_mod::lemma_fundamental_div_mod(width, lane);
    vstd::arithmetic::div_mod::lemma_mod_bound(width, lane);
    vstd::arithmetic::mul::lemma_mul_is_commutative(lane, width / lane);
}

/// Writing lane group `g` of a scanline extends the written prefix by
/// one group and leaves everything outside the enlarged prefix alone.
proof fn lemma_row_step(
    orig: Seq<u8>,
    mid: Seq<u8>,
    n: Seq<u8>,
    w: int,
    row: int,
    lane: int,
    colors: Seq<Color>,
    cbase: int,
    g: int,
    c: Color,
)
    requires
        0 < lane,
        0 <= g,
        0 <= row,
        0 <= w,
        (g + 1) * lane <= w,
        mid.len() == orig.len(),
        orig.len() >= pix_base(w, row, 0) + 3 * ((g + 1) * lane),
        0 <= cbase && cbase + g < colors.len(),
        c == colors[cbase + g],
        group_written(mid, n, w, row, g * lane, lane, c),
        forall|x: int|
            #![trigger pix_base(w, row, x)]
            0 <= x < g * lane ==> (mid[pix_base(w, row, x)] == colors[cbase + x / lane].r@[x % lane]
                && mid[pix_base(w, row, x) + 1] == colors[cbase + x / lane].g@[x % lane]
                && mid[pix_base(w, row, x) + 2] == colors[cbase + x / lane].b@[x % lane]),
        forall|j: int|
            0 <= j < orig.len() && !(pix_base(w, row, 0) <= j < pix_base(w, row, 0) + 3 * (g
                * lane)) ==> mid[j] == orig[j],
    ensures
        n.len() == orig.len(),
        forall|x: int|
            #![trigger pix_base(w, row, x)]
            0 <= x < (g + 1) * lane ==> (n[pix_base(w, row, x)] == colors[cbase + x / lane].r@[x
                % lane] && n[pix_base(w, row, x) + 1] == colors[cbase + x / lane].g@[x % lane]
                && n[pix_base(w, row, x) + 2] == colors[cbase + x / lane].b@[x % lane]),
        forall|j: int|
            0 <= j < orig.len() && !(pix_base(w, row, 0) <= j < pix_base(w, row, 0) + 3 * ((g + 1)
                * lane)) ==> n[j] == orig[j],
{
    vstd::arithmetic::mul::lemma_mul_is_distributive_add_other_way(lane, g, 1);
    vstd::arithmetic::mul::lemma_mul_nonnegative(row, w);
    vstd::arithmetic::mul::lemma_mul_nonnegative(g, lane);
    assert forall|x: int| 0 <= x < (g + 1) * lane implies (#[trigger] n[pix_base(w, row, x)]
        == colors[cbase + x / lane].r@[x % lane] && n[pix_base(w, row, x) + 1] == colors[cbase + x
        / lane].g@[x % lane] && n[pix_base(w, row, x) + 2] == colors[cbase + x / lane].b@[x
        % lane]) by {
        if x < g * lane {
            assert(pix_base(w, row, x) + 2 < pix_base(w, row, g * lane));
            assert(0 <= pix_base(w, row, x));
            assert(pix_base(w, row, x) + 2 < mid.len());
            assert(n[pix_base(w, row, x)] == mid[pix_base(w, row, x)]);
            assert(n[pix_base(w, row, x) + 1] == mid[pix_base(w, row, x) + 1]);
            assert(n[pix_base(w, row, x) + 2] == mid[pix_base(w, row, x) + 2]);
        } else {
            vstd::arithmetic::div_mod::lemma_fundamental_div_mod_converse(
                x,
                lane,
                g,
                x - g * lane,
            );
            assert(x / lane == g && x % lane == x - g * lane);
        }
    }
    assert forall|j: int| 0 <= j < orig.len() && !(pix_base(w, row, 0) <= j < pix_base(w, row, 0)
        + 3 * ((g + 1) * lane)) implies #[trigger] n[j] == orig[j] by {
        assert(pix_base(w, row, g * lane) == pix_base(w, row, 0) + 3 * (g * lane));
        assert(!(pix_base(w, row, g * lane) <= j < pix_base(w, row, g * lane) + 3 * lane));
        assert(n[j] == mid[j]);
    }
}

/// One lane group's byte range lies inside the frame.
proof fn lemma_group_region_in_frame(width: int, height: int, row: int, start: int, lane: int)
    requires
        0 <= row < height,
        0 <= start,
        0 < lane,
        start + lane <= width,
    ensures
        0 <= pix_base(width, row, start),
        pix_base(width, row, start) + 3 * lane <= width * height * 3,
{
    assert(row * width + start + lane <= width * height) by {
        assert((row + 1) * width <= height * width) by {
            vstd::arithmetic::mul::lemma_mul_inequality(row + 1, height, width);
        }
        assert((row + 1) * width == row * width + width) by {
            vstd::arithmetic::mul::lemma_mul_is_distributive_add_other_way(width, row, 1);
        }
        vstd::arithmetic::mul::lemma_mul_is_commutative(width, height);
    }
    vstd::arithmetic::mul::lemma_mul_nonnegative(row, width);
    assert(pix_base(width, row, start) + 3 * lane == (row * width + start + lane) * 3) by {
        vstd::arithmetic::mul::lemma_mul_is_distributive_add(3, row * width + start, lane);
        vstd::arithmetic::mul::lemma_mul_is_commutative(3, row * width + start + lane);
        vstd::arithmetic::mul::lemma_mul_is_commutative(3, row * width + start);
    }
    vstd::arithmetic::mul::lemma_mul_inequality(row * width + start + lane, width * height, 3);
}

/// Helper: the byte count `a * b * 3` dominates its partial products.
proof fn lemma_partial_products(a: int, b: int)
    requires
        0 <= a,
        0 <= b,
    ensures
        a * b <= a * b * 3,
        0 <= a * b,
{
    vstd::arithmetic::mul::lemma_mul_nonnegative(a, b);
    vstd::arithmetic::mul::lemma_mul_inequality(1, 3, a * b);
    vstd::arithmetic::mul::lemma_mul_is_commutative(a * b, 3);
}

} // verus!
