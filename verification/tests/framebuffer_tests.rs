use lane_render::framebuffer::Framebuffer;
use lane_render::vecmath::Color;

fn solid(r: u8, g: u8, b: u8) -> Color {
    Color { r: [r; 8], g: [g; 8], b: [b; 8] }
}

#[test]
fn new_frame_is_zeroed() {
    let fb = Framebuffer::new(4, 2);
    assert_eq!(fb.len(), 24);
    for j in 0..fb.len() {
        assert_eq!(fb.byte_at(j), 0);
    }
}

#[test]
fn write_group_touches_only_its_pixels() {
    let mut fb = Framebuffer::new(8, 2);
    fb.write_group(2, 4, 1, &solid(10, 20, 30));
    for x in 0..8usize {
        for y in 0..2usize {
            let off = (y * 8 + x) * 3;
            if y == 1 && (2..6).contains(&x) {
                assert_eq!(fb.byte_at(off), 10);
                assert_eq!(fb.byte_at(off + 1), 20);
                assert_eq!(fb.byte_at(off + 2), 30);
            } else {
                assert_eq!(fb.byte_at(off), 0);
                assert_eq!(fb.byte_at(off + 1), 0);
                assert_eq!(fb.byte_at(off + 2), 0);
            }
        }
    }
}

#[test]
fn write_row_fills_complete_groups_in_order() {
    // Width 9, lane 4: two complete groups and one remainder column.
    let mut fb = Framebuffer::new(9, 1);
    let colors = vec![solid(1, 2, 3), solid(4, 5, 6)];
    fb.write_row(0, 4, &colors, 0);
    for x in 0..4usize {
        assert_eq!(fb.byte_at(x * 3), 1);
    }
    for x in 4..8usize {
        assert_eq!(fb.byte_at(x * 3), 4);
    }
    // The trailing remainder column keeps its prior bytes.
    assert_eq!(fb.byte_at(8 * 3), 0);
    assert_eq!(fb.byte_at(8 * 3 + 1), 0);
    assert_eq!(fb.byte_at(8 * 3 + 2), 0);
}

#[test]
fn write_frame_covers_all_rows_and_skips_remainders() {
    // Width 6, lane 4: one complete group per row, columns 4 and 5
    // are never written.
    let mut fb = Framebuffer::new(6, 3);
    let colors = vec![solid(11, 0, 0), solid(22, 0, 0), solid(33, 0, 0)];
    fb.write_frame(4, &colors);
    for y in 0..3usize {
        let level = [11u8, 22, 33][y];
        for x in 0..6usize {
            let off = (y * 6 + x) * 3;
            if x < 4 {
                assert_eq!(fb.byte_at(off), level);
            } else {
                assert_eq!(fb.byte_at(off), 0);
                assert_eq!(fb.byte_at(off + 1), 0);
                assert_eq!(fb.byte_at(off + 2), 0);
            }
        }
    }
}

#[test]
fn remainder_keeps_prior_values_across_frames() {
    // Fill everything once with lane 2 (no remainder), then write a
    // second frame with lane 4 that cannot cover the last 2 columns:
    // those columns must still show the first frame's bytes.
    let mut fb = Framebuffer::new(6, 1);
    let first = vec![solid(9, 9, 9), solid(9, 9, 9), solid(9, 9, 9)];
    fb.write_frame(2, &first);
    let second = vec![solid(77, 0, 0)];
    fb.write_frame(4, &second);
    for x in 0..4usize {
        assert_eq!(fb.byte_at(x * 3), 77);
    }
    for x in 4..6usize {
        assert_eq!(fb.byte_at(x * 3), 9);
        assert_eq!(fb.byte_at(x * 3 + 1), 9);
        assert_eq!(fb.byte_at(x * 3 + 2), 9);
    }
}

#[test]
fn identical_frames_give_identical_bytes() {
    // Two freshly zeroed buffers, the same colors: every byte equal.
    let colors: Vec<Color> = (0..6u8).map(|k| solid(k, 2 * k, 3 * k)).collect();
    let mut fb1 = Framebuffer::new(17, 2);
    let mut fb2 = Framebuffer::new(17, 2);
    fb1.write_frame(5, &colors);
    fb2.write_frame(5, &colors);
    assert_eq!(fb1.to_bytes(), fb2.to_bytes());
}
