use softrender::color::Color;
use softrender::framebuffer::Framebuffer;
use softrender::raster::clip_bbox;

fn idx(fb: &Framebuffer, x: usize, y: usize) -> usize {
    y * fb.width + x
}

#[test]
fn test_new_dimensions() {
    let fb = Framebuffer::new(7, 5);
    assert_eq!(fb.width, 7);
    assert_eq!(fb.height, 5);
    assert_eq!(fb.buffer.len(), 35);
    assert_eq!(fb.zbuffer.len(), 35);
    assert!(fb.buffer.iter().all(|&c| c == 0));
    assert!(fb.zbuffer.iter().all(|&d| d == u32::MAX));
}

#[test]
fn test_clear_resets() {
    let mut fb = Framebuffer::new(4, 3);
    fb.set_current_color(0xABCDEF);
    fb.point(1, 1, 100);
    fb.clear(0x112233);
    assert!(fb.buffer.iter().all(|&c| c == 0x112233));
    assert!(fb.zbuffer.iter().all(|&d| d == u32::MAX));
    // After a clear, a depth-tested write at any in-bounds cell succeeds.
    fb.set_current_color(0xFF0000);
    fb.point(2, 2, 10);
    assert_eq!(fb.buffer[idx(&fb, 2, 2)], 0xFF0000);
    assert_eq!(fb.zbuffer[idx(&fb, 2, 2)], 10);
}

#[test]
fn test_point_depth_sequence_keeps_minimum() {
    // An ordered sequence of depth-tested writes at one pixel: the stored
    // depth ends at the minimum, the color at the first write reaching it.
    let mut fb = Framebuffer::new(4, 4);
    fb.clear(0);
    let writes = [(0x111111u32, 50u32), (0x222222, 30), (0x333333, 60), (0x444444, 30)];
    for &(c, d) in writes.iter() {
        fb.set_current_color(c);
        fb.point(1, 2, d);
    }
    assert_eq!(fb.zbuffer[idx(&fb, 1, 2)], 30);
    // The later write at the same depth 30 never overwrites.
    assert_eq!(fb.buffer[idx(&fb, 1, 2)], 0x222222);
}

#[test]
fn test_point_out_of_bounds_ignored() {
    let mut fb = Framebuffer::new(3, 3);
    fb.clear(7);
    fb.set_current_color(0xFF0000);
    fb.point(-1, 0, 1);
    fb.point(0, -1, 1);
    fb.point(3, 0, 1);
    fb.point(0, 3, 1);
    assert!(fb.buffer.iter().all(|&c| c == 7));
    assert!(fb.zbuffer.iter().all(|&d| d == u32::MAX));
}

#[test]
fn test_point_no_depth_ignores_depth() {
    let mut fb = Framebuffer::new(3, 3);
    fb.clear(0);
    fb.set_current_color(0x00FF00);
    fb.point(1, 1, 5);
    // A depth-ignoring write lands even though the cell is claimed nearer.
    fb.set_current_color(0x0000FF);
    fb.point_no_depth(1, 1);
    assert_eq!(fb.buffer[idx(&fb, 1, 1)], 0x0000FF);
    assert_eq!(fb.zbuffer[idx(&fb, 1, 1)], 5);
    fb.point_no_depth(-2, 1);
    fb.point_no_depth(1, 9);
    assert_eq!(fb.buffer[idx(&fb, 1, 1)], 0x0000FF);
}

#[test]
fn test_draw_line_diagonal_visits_lattice() {
    let mut fb = Framebuffer::new(10, 10);
    fb.clear(0);
    fb.set_current_color(0xFFFFFF);
    fb.draw_line(0, 0, 3, 3);
    for y in 0..10 {
        for x in 0..10 {
            let expected = if x == y && x <= 3 { 0xFFFFFF } else { 0 };
            assert_eq!(fb.buffer[idx(&fb, x, y)], expected, "cell ({}, {})", x, y);
        }
    }
    // No depth test was applied: the depth plane is untouched.
    assert!(fb.zbuffer.iter().all(|&d| d == u32::MAX));
}

#[test]
fn test_draw_line_horizontal_and_single_point() {
    let mut fb = Framebuffer::new(8, 8);
    fb.clear(0);
    fb.set_current_color(0xAA00AA);
    fb.draw_line(5, 2, 1, 2);
    for x in 1..=5 {
        assert_eq!(fb.buffer[idx(&fb, x, 2)], 0xAA00AA);
    }
    assert_eq!(fb.buffer[idx(&fb, 0, 2)], 0);
    assert_eq!(fb.buffer[idx(&fb, 6, 2)], 0);
    fb.set_current_color(0x123456);
    fb.draw_line(7, 7, 7, 7);
    assert_eq!(fb.buffer[idx(&fb, 7, 7)], 0x123456);
}

#[test]
fn test_draw_line_clipped_off_screen() {
    let mut fb = Framebuffer::new(4, 4);
    fb.clear(0);
    fb.set_current_color(0xFFFFFF);
    // A steep line that starts above the screen: only its in-bounds lattice
    // points are written, out-of-range ones are silently ignored.
    fb.draw_line(2, -2, 2, 2);
    for y in 0..=2 {
        assert_eq!(fb.buffer[idx(&fb, 2, y)], 0xFFFFFF);
    }
    assert_eq!(fb.buffer[idx(&fb, 2, 3)], 0);
}

#[test]
fn test_add_color_blends_and_saturates() {
    let mut fb = Framebuffer::new(2, 2);
    fb.clear(0xF0F010);
    fb.add_color(1, 0, Color::new(0x20, 0x0F, 0x05));
    assert_eq!(fb.buffer[idx(&fb, 1, 0)], 0xFFFF15);
    // Other cells untouched; out-of-range blends ignored.
    assert_eq!(fb.buffer[idx(&fb, 0, 0)], 0xF0F010);
    fb.add_color(5, 5, Color::new(1, 1, 1));
    assert_eq!(fb.buffer[idx(&fb, 0, 0)], 0xF0F010);
    assert!(fb.zbuffer.iter().all(|&d| d == u32::MAX));
}

#[test]
fn test_peek_depth_and_commit() {
    let mut fb = Framebuffer::new(4, 4);
    fb.clear(0);
    assert_eq!(fb.peek_depth(2, 1), u32::MAX);
    fb.commit(2, 1, 40, 0x00FF00);
    assert_eq!(fb.peek_depth(2, 1), 40);
    assert_eq!(fb.buffer[idx(&fb, 2, 1)], 0x00FF00);
    // A farther commit loses against the stored depth.
    fb.commit(2, 1, 41, 0xFF0000);
    assert_eq!(fb.peek_depth(2, 1), 40);
    assert_eq!(fb.buffer[idx(&fb, 2, 1)], 0x00FF00);
    // A nearer one wins.
    fb.commit(2, 1, 39, 0x0000FF);
    assert_eq!(fb.peek_depth(2, 1), 39);
    assert_eq!(fb.buffer[idx(&fb, 2, 1)], 0x0000FF);
}

#[test]
fn test_clip_bbox_clamps() {
    assert_eq!(clip_bbox(-5, -5, 100, 2, 10, 10), Some((0, 0, 9, 2)));
    assert_eq!(clip_bbox(3, 4, 5, 6, 10, 10), Some((3, 4, 5, 6)));
}

#[test]
fn test_clip_bbox_rejects_disjoint() {
    assert_eq!(clip_bbox(-5, 0, -1, 9, 10, 10), None);
    assert_eq!(clip_bbox(0, 10, 9, 12, 10, 10), None);
    assert_eq!(clip_bbox(10, 0, 12, 9, 10, 10), None);
    assert_eq!(clip_bbox(0, -3, 9, -1, 10, 10), None);
    // An inverted box is empty.
    assert_eq!(clip_bbox(5, 5, 4, 9, 10, 10), None);
}
