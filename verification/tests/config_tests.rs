use lane_render::config::RenderConfig;

#[test]
fn eight_hundred_wide_lane_eight_has_complete_groups_only() {
    let c = RenderConfig { width: 800, height: 600, lane_width: 8 };
    assert_eq!(c.groups_per_row(), 100);
    assert_eq!(c.remainder_cols(), 0);
}

#[test]
fn six_hundred_two_wide_lane_four_leaves_two_columns() {
    let c = RenderConfig { width: 602, height: 600, lane_width: 4 };
    assert_eq!(c.groups_per_row(), 150);
    assert_eq!(c.remainder_cols(), 2);
}

#[test]
fn frame_len_counts_three_bytes_per_pixel() {
    let c = RenderConfig { width: 800, height: 600, lane_width: 8 };
    assert_eq!(c.frame_len(), 800 * 600 * 3);
}

#[test]
fn group_start_columns_step_by_lane_width() {
    let c = RenderConfig { width: 800, height: 600, lane_width: 8 };
    assert_eq!(c.group_start_col(0), 0);
    assert_eq!(c.group_start_col(1), 8);
    assert_eq!(c.group_start_col(99), 792);
    let starts = c.row_group_starts();
    assert_eq!(starts.len(), 100);
    assert_eq!(starts[0], 0);
    assert_eq!(starts[42], 336);
    assert_eq!(starts[99], 792);
}

#[test]
fn rows_are_flipped_from_the_bottom() {
    let c = RenderConfig { width: 800, height: 600, lane_width: 8 };
    assert_eq!(c.flipped_row(0), 600);
    assert_eq!(c.flipped_row(599), 1);
}

#[test]
fn pixel_offsets_are_row_major() {
    let c = RenderConfig { width: 800, height: 600, lane_width: 8 };
    assert_eq!(c.pixel_offset(0, 0), 0);
    assert_eq!(c.pixel_offset(1, 0), 3);
    assert_eq!(c.pixel_offset(0, 1), 2400);
    assert_eq!(c.pixel_offset(400, 300), (300 * 800 + 400) * 3);
}
