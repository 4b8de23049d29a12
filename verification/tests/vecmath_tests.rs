use lane_render::kernel::{envelope_at, lane_coords};
use lane_render::quantize::FP_ONE;
use lane_render::vecmath::{vec4_to_rgb_arrow, Lanes, Vec2, Vec4};

fn lanes(vals: &[i64]) -> Lanes {
    Lanes { vals: vals.to_vec() }
}

#[test]
fn lane_arithmetic_is_elementwise() {
    let a = lanes(&[1, -2, 30, 400]);
    let b = lanes(&[10, 20, -30, 4]);
    assert_eq!(a.add(&b).vals, vec![11, 18, 0, 404]);
    assert_eq!(a.sub(&b).vals, vec![-9, -22, 60, 396]);
    assert_eq!(a.abs().vals, vec![1, 2, 30, 400]);
    assert_eq!(a.duplicate().vals, a.vals);
    assert_eq!(Lanes::splat(3, 7).vals, vec![7, 7, 7]);
}

#[test]
fn lane_product_stays_on_the_fixed_point_scale() {
    // 2.0 * 0.5 = 1.0, (-3.0) * 1.0 = -3.0, 1.5 * 1.5 = 2.25.
    let a = lanes(&[2 * FP_ONE, -3 * FP_ONE, FP_ONE + FP_ONE / 2]);
    let b = lanes(&[FP_ONE / 2, FP_ONE, FP_ONE + FP_ONE / 2]);
    assert_eq!(
        a.mul(&b).vals,
        vec![FP_ONE, -3 * FP_ONE, 2 * FP_ONE + FP_ONE / 4]
    );
    // Sub-unit products floor toward negative infinity.
    let tiny = lanes(&[1, -1]).mul(&lanes(&[1, 1]));
    assert_eq!(tiny.vals, vec![0, -1]);
}

#[test]
fn multiplying_by_one_is_the_identity() {
    let v = lanes(&[0, FP_ONE, -FP_ONE, 12345, -98765, 7 * FP_ONE + 3]);
    let one = Lanes::splat(6, FP_ONE);
    assert_eq!(v.mul(&one).vals, v.vals);
    let p = Vec2::new(lanes(&[FP_ONE, -31415]), lanes(&[-2 * FP_ONE, 27183]));
    let scaled = p.mul(&Lanes::splat(2, FP_ONE));
    assert_eq!(scaled.x.vals, p.x.vals);
    assert_eq!(scaled.y.vals, p.y.vals);
}

#[test]
fn dot_product_sums_component_products() {
    // (2.0, 0.5) . (3.0, 4.0) = 8.0 and (-1.0, 1.0) . (1.0, 1.0) = 0.
    let p = Vec2::new(lanes(&[2 * FP_ONE, -FP_ONE]), lanes(&[FP_ONE / 2, FP_ONE]));
    let q = Vec2::new(lanes(&[3 * FP_ONE, FP_ONE]), lanes(&[4 * FP_ONE, FP_ONE]));
    assert_eq!(p.dot(&q).vals, vec![8 * FP_ONE, 0]);
}

#[test]
fn swizzles_rearrange_components() {
    let p = Vec2::new(lanes(&[1, 2]), lanes(&[3, 4]));
    let s = p.xyyx();
    assert_eq!(s.x.vals, vec![1, 2]);
    assert_eq!(s.y.vals, vec![3, 4]);
    assert_eq!(s.z.vals, vec![3, 4]);
    assert_eq!(s.w.vals, vec![1, 2]);
    let t = p.yx();
    assert_eq!(t.x.vals, vec![3, 4]);
    assert_eq!(t.y.vals, vec![1, 2]);
}

#[test]
fn vec2_scaling_and_splat() {
    // Scale (1.0, 3.0) and (2.0, 4.0) by 10.0 and -1.0 lane-wise.
    let p = Vec2::new(
        lanes(&[FP_ONE, 2 * FP_ONE]),
        lanes(&[3 * FP_ONE, 4 * FP_ONE]),
    );
    let s = lanes(&[10 * FP_ONE, -FP_ONE]);
    let m = p.mul(&s);
    assert_eq!(m.x.vals, vec![10 * FP_ONE, -2 * FP_ONE]);
    assert_eq!(m.y.vals, vec![30 * FP_ONE, -4 * FP_ONE]);
    let sp = Vec2::splat_float(2, 9);
    assert_eq!(sp.x.vals, vec![9, 9]);
    assert_eq!(sp.y.vals, vec![9, 9]);
}

#[test]
fn vec4_arithmetic_is_componentwise() {
    let a = Vec4::new(lanes(&[1]), lanes(&[2]), lanes(&[3]), lanes(&[4]));
    let b = Vec4::new(lanes(&[10]), lanes(&[20]), lanes(&[30]), lanes(&[40]));
    let s = a.add(&b);
    assert_eq!(
        (s.x.vals[0], s.y.vals[0], s.z.vals[0], s.w.vals[0]),
        (11, 22, 33, 44)
    );
    let d = b.sub(&a);
    assert_eq!(
        (d.x.vals[0], d.y.vals[0], d.z.vals[0], d.w.vals[0]),
        (9, 18, 27, 36)
    );
    let m = a.mul(&lanes(&[5 * FP_ONE]));
    assert_eq!(
        (m.x.vals[0], m.y.vals[0], m.z.vals[0], m.w.vals[0]),
        (5, 10, 15, 20)
    );
    let sp = Vec4::splat_f32x8(&lanes(&[6, 7]));
    assert_eq!(sp.x.vals, vec![6, 7]);
    assert_eq!(sp.w.vals, vec![6, 7]);
}

#[test]
fn fixed_point_division_keeps_fractional_bits() {
    // 1.0 / 1.0 = 1.0 and 2.0 / 0.5 = 4.0 in 16-fractional-bit form.
    let a = lanes(&[FP_ONE, 2 * FP_ONE]);
    let b = lanes(&[FP_ONE, FP_ONE / 2]);
    assert_eq!(a.div(&b).vals, vec![FP_ONE, 4 * FP_ONE]);
    // Truncation toward zero: 1.0 / 3.0.
    let c = lanes(&[FP_ONE]).div(&lanes(&[3 * FP_ONE]));
    assert_eq!(c.vals, vec![(FP_ONE as i64 * 65536) / (3 * FP_ONE)]);
}

#[test]
fn vec4_division_is_componentwise() {
    let a = Vec4::new(
        lanes(&[FP_ONE]),
        lanes(&[2 * FP_ONE]),
        lanes(&[3 * FP_ONE]),
        lanes(&[0]),
    );
    let b = Vec4::new(
        lanes(&[FP_ONE]),
        lanes(&[FP_ONE]),
        lanes(&[2 * FP_ONE]),
        lanes(&[FP_ONE]),
    );
    let q = a.div(&b);
    assert_eq!(q.x.vals, vec![FP_ONE]);
    assert_eq!(q.y.vals, vec![2 * FP_ONE]);
    assert_eq!(q.z.vals, vec![FP_ONE + FP_ONE / 2]);
    assert_eq!(q.w.vals, vec![0]);
}

#[test]
fn lane_coordinates_are_consecutive_columns() {
    // Group starting at column 16 of the flipped row 600, lane width 8.
    let p = lane_coords(16, 600, 8);
    assert_eq!(p.x.vals.len(), 8);
    for i in 0..8 {
        assert_eq!(p.x.vals[i], ((16 + i) as i64) << 16);
        assert_eq!(p.y.vals[i], 600i64 << 16);
    }
}

#[test]
fn envelope_matches_formula_at_origin() {
    // At the origin the squared distance is 0, so the deviation from
    // the 0.7 radius term is 0.7 and z = 4 - 4*0.7 = 1.2.
    let p = Vec2::new(lanes(&[0]), lanes(&[0]));
    let z = envelope_at(&p);
    assert_eq!(z.vals, vec![262144 - 4 * 45875]);
}

#[test]
fn envelope_is_symmetric_under_axis_swap() {
    let p = Vec2::new(lanes(&[40000, -30000, 123]), lanes(&[-7000, 65536, 456]));
    let z = envelope_at(&p);
    let z_swapped = envelope_at(&p.yx());
    assert_eq!(z.vals, z_swapped.vals);
}

#[test]
fn color_conversion_quantizes_each_lane() {
    let full = FP_ONE;
    let x = lanes(&[0, full, 32768, -5, full * 2, 0, 0, 0]);
    let y = lanes(&[full, 0, 0, 0, 0, 0, 0, 0]);
    let z = lanes(&[0, 0, full, 0, 0, 0, 0, 0]);
    let w = lanes(&[0, 0, 0, 0, 0, 0, 0, 0]);
    let c = vec4_to_rgb_arrow(&Vec4::new(x, y, z, w));
    assert_eq!(c.r, [0, 255, 128, 0, 255, 0, 0, 0]);
    assert_eq!(c.g, [255, 0, 0, 0, 0, 0, 0, 0]);
    assert_eq!(c.b, [0, 0, 255, 0, 0, 0, 0, 0]);
}
