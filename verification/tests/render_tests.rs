//! Full-frame evaluation through the library: a scalar reference
//! implementation of the coloring formula feeds fixed-point intensities
//! into the verified quantizer and framebuffer assembly.
use lane_render::framebuffer::Framebuffer;
use lane_render::ppm::ppm_image;
use lane_render::vecmath::{vec4_to_rgb_arrow, Color, Lanes, Vec4};

/// Fixed-point representation (16 fractional bits) of a float.
fn to_fixed(v: f32) -> i64 {
    ((v as f64) * 65536.0).round() as i64
}

/// Hyperbolic tangent via the exponential identity used by the
/// lane-parallel evaluator.
fn tanh_via_exp(v: f32) -> f32 {
    let e2x = (2.0 * v).exp();
    (e2x - 1.0) / (e2x + 1.0)
}

/// The coloring formula for one pixel: normalized position, radial
/// envelope, 8 accumulation steps, tone map. Returns the three channel
/// intensities before quantization.
fn pixel_intensity(x: u32, y: u32, t: f32, width: u32, height: u32) -> (f32, f32, f32) {
    let xf = x as f32;
    let yf = (height - y) as f32;
    let rx = width as f32;
    let ry = height as f32;
    let px = (xf + xf - rx) / ry;
    let py = (yf + yf - ry) / ry;
    let z = (0.7 - (px * px + py * py)).abs() * (-4.0) + 4.0;
    let mut fx = px * z;
    let mut fy = py * z;
    let mut ox = 0.0f32;
    let mut oy = 0.0f32;
    let mut oz = 0.0f32;
    for step in 1..=8 {
        let iy = step as f32;
        let a = fx.sin() + 1.0;
        let b = fy.sin() + 1.0;
        let s = (fx - fy).abs();
        ox += a * s;
        oy += b * s;
        oz += b * s;
        let nx = (fy * iy + t).cos() / iy + 0.7;
        let ny = (fx * iy + iy + t).cos() / iy + 0.7;
        fx += nx;
        fy += ny;
    }
    let r = tanh_via_exp((z - 4.0 + py).exp() * 7.0 / ox);
    let g = tanh_via_exp((z - 4.0 - py).exp() * 7.0 / oy);
    let b = tanh_via_exp((z - 4.0 - py * 2.0).exp() * 7.0 / oz);
    (r, g, b)
}

/// Quantized channels for the `lane` pixels starting at `(x0, y)`.
fn group_color(x0: usize, y: usize, t: f32, width: u32, height: u32, lane: usize) -> Color {
    let mut xs = vec![0i64; 8];
    let mut ys = vec![0i64; 8];
    let mut zs = vec![0i64; 8];
    for i in 0..lane {
        let (r, g, b) = pixel_intensity((x0 + i) as u32, y as u32, t, width, height);
        xs[i] = to_fixed(r);
        ys[i] = to_fixed(g);
        zs[i] = to_fixed(b);
    }
    let v = Vec4::new(
        Lanes { vals: xs },
        Lanes { vals: ys },
        Lanes { vals: zs },
        Lanes { vals: vec![0i64; 8] },
    );
    vec4_to_rgb_arrow(&v)
}

/// Evaluate one full frame through the verified assembly path.
fn render_frame(width: u32, height: u32, lane: usize, t: f32) -> Framebuffer {
    let groups = width as usize / lane;
    let mut colors: Vec<Color> = Vec::new();
    for y in 0..height as usize {
        for g in 0..groups {
            colors.push(group_color(g * lane, y, t, width, height, lane));
        }
    }
    let mut fb = Framebuffer::new(width as usize, height as usize);
    fb.write_frame(lane, &colors);
    fb
}

fn checksum(bytes: &[u8]) -> u64 {
    let mut acc: u64 = 1469598103934665603;
    for &b in bytes {
        acc = (acc ^ b as u64).wrapping_mul(1099511628211);
    }
    acc
}

#[test]
fn full_frame_is_deterministic() {
    let a = render_frame(160, 120, 8, 0.0);
    let b = render_frame(160, 120, 8, 0.0);
    assert_eq!(a.to_bytes(), b.to_bytes());
}

#[test]
fn reference_raster_at_800_by_600() {
    let fb = render_frame(800, 600, 8, 0.0);
    let bytes = fb.to_bytes();
    assert_eq!(bytes.len(), 800 * 600 * 3);
    let off = (300 * 800 + 400) * 3;
    let center = (bytes[off], bytes[off + 1], bytes[off + 2]);
    let corner = (bytes[0], bytes[1], bytes[2]);
    let cs = checksum(&bytes);
    let actual = (center, corner, cs);
    let expected = ((48, 42, 42), (0, 0, 0), 653141324693134007u64);
    assert_eq!(actual, expected, "raster fingerprint (center, corner, checksum) was {actual:?}");
}

#[test]
fn image_serialization_prepends_header() {
    let fb = render_frame(16, 8, 4, 0.0);
    let img = ppm_image(16, 8, &fb.to_bytes());
    assert_eq!(&img[..11], b"P6 16 8 255".as_slice());
    assert_eq!(img.len(), 11 + 1 + 16 * 8 * 3);
}
