//! Binary PPM image serialization: the ASCII header line
//! `P6 <width> <height> 255` followed by the raw R, G, B bytes.
use vstd::prelude::*;

verus! {

/// Decimal digits of a non-negative number, most significant first,
/// as ASCII bytes.
pub open spec fn dec_digits(n: int) -> Seq<u8>
    recommends
        n >= 0,
    decreases n,
{
    if n < 10 {
        seq![(48 + n) as u8]
    } else {
        dec_digits(n / 10).push((48 + n % 10) as u8)
    }
}

/// A sequence read back to front.
pub open spec fn rev_seq(s: Seq<u8>) -> Seq<u8> {
    Seq::new(s.len(), |i: int| s[s.len() - 1 - i])
}

/// ASCII decimal digits of `n`, most significant first.
pub fn u32_to_decimal(n: u32) -> (s: Vec<u8>)
    ensures
        s@ == dec_digits(n as int),
{
    let mut digits: Vec<u8> = Vec::new();
    let mut m: u32 = n;
    #[verifier::loop_isolation(false)]
    while m >= 10
        invariant
            dec_digits(n as int) == dec_digits(m as int) + rev_seq(digits@),
        decreases m,
    {
        let d: u8 = 48 + (m % 10) as u8;
        proof {
            assert(rev_seq(digits@.push(d)) =~= seq![d] + rev_seq(digits@));
            assert(dec_digits(m as int) + rev_seq(digits@) =~= (dec_digits(m as int / 10) + seq![
                d,
            ]) + rev_seq(digits@));
            assert((dec_digits(m as int / 10) + seq![d]) + rev_seq(digits@) =~= dec_digits(
                m as int / 10,
            ) + rev_seq(digits@.push(d)));
        }
        digits.push(d);
        m = m / 10;
    }
    let ghost full = dec_digits(n as int);
    let lead: u8 = 48 + m as u8;
    proof {
        assert(dec_digits(m as int) =~= seq![lead]);
        assert(full =~= seq![lead] + rev_seq(digits@));
    }
    let mut out: Vec<u8> = Vec::new();
    out.push(lead);
    let count: usize = digits.len();
    let mut j: usize = 0;
    #[verifier::loop_isolation(false)]
    while j < count
        invariant
            j <= count,
            out@.len() == 1 + j,
            forall|t: int| 0 <= t < 1 + j ==> #[trigger] out@[t] == full[t],
        decreases count - j,
    {
        out.push(digits[count - 1 - j]);
        j = j + 1;
    }
    proof {
        assert(out@ =~= full);
    }
    out
}

/// Header line of a binary PPM image: `P6 <width> <height> 255`
/// followed by one newline.
pub open spec fn ppm_header_spec(w: int, h: int) -> Seq<u8> {
    seq![80u8, 54u8, 32u8] + dec_digits(w) + seq![32u8] + dec_digits(h) + seq![
        32u8,
        50u8,
        53u8,
        53u8,
        10u8,
    ]
}

/// Build the PPM header bytes for the given dimensions.
pub fn ppm_header(width: u32, height: u32) -> (out: Vec<u8>)
    ensures
        out@ == ppm_header_spec(width as int, height as int),
{
    let mut out: Vec<u8> = Vec::new();
    out.push(80);
    out.push(54);
    out.push(32);
    let wd = u32_to_decimal(width);
    let mut k: usize = 0;
    let wn = wd.len();
    #[verifier::loop_isolation(false)]
    while k < wn
        invariant
            k <= wn,
            out@ == seq![80u8, 54u8, 32u8] + wd@.subrange(0, k as int),
        decreases wn - k,
    {
        proof {
            assert((seq![80u8, 54u8, 32u8] + wd@.subrange(0, k as int)).push(wd@[k as int])
                =~= seq![80u8, 54u8, 32u8] + wd@.subrange(0, k as int + 1));
        }
        out.push(wd[k]);
        k = k + 1;
    }
    proof {
        assert(wd@.subrange(0, wn as int) =~= wd@);
    }
    out.push(32);
    let hd = u32_to_decimal(height);
    let ghost prefix = seq![80u8, 54u8, 32u8] + wd@ + seq![32u8];
    proof {
        assert(out@ =~= prefix);
    }
    let mut k2: usize = 0;
    let hn = hd.len();
    #[verifier::loop_isolation(false)]
    while k2 < hn
        invariant
            k2 <= hn,
            out@ == prefix + hd@.subrange(0, k2 as int),
        decreases hn - k2,
    {
        proof {
            assert((prefix + hd@.subrange(0, k2 as int)).push(hd@[k2 as int]) =~= prefix
                + hd@.subrange(0, k2 as int + 1));
        }
        out.push(hd[k2]);
        k2 = k2 + 1;
    }
    proof {
        assert(hd@.subrange(0, hn as int) =~= hd@);
    }
    out.push(32);
    out.push(50);
    out.push(53);
    out.push(53);
    out.push(10);
    proof {
        assert(out@ =~= ppm_header_spec(width as int, height as int));
    }
    out
}

/// A complete PPM image: the header for the given dimensions followed
/// by the frame's raw bytes.
pub fn ppm_image(width: u32, height: u32, pixels: &Vec<u8>) -> (out: Vec<u8>)
    ensures
        out@ == ppm_header_spec(width as int, height as int) + pixels@,
{
    let mut out = ppm_header(width, height);
    let ghost header = out@;
    let n = pixels.len();
    let mut k: usize = 0;
    #[verifier::loop_isolation(false)]
    while k < n
        invariant
            k <= n,
            out@ == header + pixels@.subrange(0, k as int),
        decreases n - k,
    {
        proof {
            assert((header + pixels@.subrange(0, k as int)).push(pixels@[k as int]) =~= header
                + pixels@.subrange(0, k as int + 1));
        }
        out.push(pixels[k]);
        k = k + 1;
    }
    proof {
        assert(pixels@.subrange(0, n as int) =~= pixels@);
        assert(out@ =~= header + pixels@);
    }
    out
}

} // verus!
