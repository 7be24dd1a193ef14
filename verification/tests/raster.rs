use quat_render::fixed::SCALE;
use quat_render::quat::Quat;
use quat_render::raster::{fill_buf, render_frame, reset_buffers, BG_CH, S_MAX};

fn fresh_buffers() -> (Vec<char>, Vec<i64>) {
    let mut screen: Vec<char> = Vec::new();
    let mut depth: Vec<i64> = Vec::new();
    reset_buffers(&mut screen, &mut depth);
    (screen, depth)
}

fn identity() -> Quat {
    Quat::new(SCALE, 0, 0, 0)
}

#[test]
fn reset_fills_background() {
    let (screen, depth) = fresh_buffers();
    assert_eq!(screen.len(), S_MAX);
    assert_eq!(depth.len(), S_MAX);
    assert!(screen.iter().all(|&c| c == BG_CH));
    assert!(depth.iter().all(|&d| d == 0));
}

#[test]
fn projection_of_origin_hits_screen_center() {
    // Source point (0, 0, 0), identity orientation, S_DIST 20, object
    // distance 80, 100 x 50 screen: exactly cell (50, 25).
    let (mut screen, mut depth) = fresh_buffers();
    let p = Quat::new(0, 0, 0, 0);
    fill_buf(p, &identity(), &mut screen, &mut depth, '@');
    let idx = 25 * 100 + 50;
    assert_eq!(screen[idx], '@');
    assert!(depth[idx] > 0);
    for n in 0..S_MAX {
        if n != idx {
            assert_eq!(screen[n], BG_CH);
            assert_eq!(depth[n], 0);
        }
    }
}

#[test]
fn whole_coordinate_truncates_toward_zero() {
    // Source point (-0.5, 0, 0) under the identity orientation: the screen
    // column is 50 - 0.25 = 49.75, and the whole coordinate truncates to
    // cell (49, 25) — not the centre column.
    let (mut screen, mut depth) = fresh_buffers();
    let p = Quat::new(0, -SCALE / 2, 0, 0);
    fill_buf(p, &identity(), &mut screen, &mut depth, '@');
    assert_eq!(screen[25 * 100 + 49], '@');
    assert_eq!(screen[25 * 100 + 50], BG_CH);
}

#[test]
fn out_of_range_index_never_written() {
    // A point one raw unit in front of the camera plane: the huge inverse
    // depth throws the column far outside the grid, the linear index falls
    // outside [0, 5000), and nothing is written.
    let (mut screen, mut depth) = fresh_buffers();
    let p = Quat::new(0, 10 * SCALE, 0, 1 - 80 * SCALE);
    fill_buf(p, &identity(), &mut screen, &mut depth, '@');
    assert!(screen.iter().all(|&c| c == BG_CH));
    assert!(depth.iter().all(|&d| d == 0));
}

#[test]
fn plotting_twice_is_plotting_once() {
    let p = Quat::new(0, 3 * SCALE, -2 * SCALE, 5 * SCALE);
    let (mut screen_once, mut depth_once) = fresh_buffers();
    fill_buf(p, &identity(), &mut screen_once, &mut depth_once, '+');

    let (mut screen_twice, mut depth_twice) = fresh_buffers();
    fill_buf(p, &identity(), &mut screen_twice, &mut depth_twice, '+');
    fill_buf(p, &identity(), &mut screen_twice, &mut depth_twice, '+');

    assert_eq!(screen_once, screen_twice);
    assert_eq!(depth_once, depth_twice);
}

#[test]
fn nearer_point_wins_either_order() {
    // Both points project to the centre cell; the one at z == 0 is nearer
    // (depth 80) than the one at z == 10 (depth 90).
    let near = Quat::new(0, 0, 0, 0);
    let far = Quat::new(0, 0, 0, 10 * SCALE);
    let idx = 25 * 100 + 50;

    let (mut s1, mut d1) = fresh_buffers();
    fill_buf(near, &identity(), &mut s1, &mut d1, '@');
    fill_buf(far, &identity(), &mut s1, &mut d1, '+');
    assert_eq!(s1[idx], '@');

    let (mut s2, mut d2) = fresh_buffers();
    fill_buf(far, &identity(), &mut s2, &mut d2, '+');
    fill_buf(near, &identity(), &mut s2, &mut d2, '@');
    assert_eq!(s2[idx], '@');

    assert_eq!(d1[idx], d2[idx]);
}

#[test]
fn render_frame_draws_nearest_face_at_center() {
    let (mut screen, mut depth) = fresh_buffers();
    render_frame(&identity(), &mut screen, &mut depth);
    assert_eq!(screen.len(), S_MAX);
    // The face at z == -15 is nearest to the camera and owns the centre.
    assert_eq!(screen[25 * 100 + 50], '@');
}
