use softrender::framebuffer::Framebuffer;
use softrender::skybox::Skybox;

#[test]
fn test_skybox_gradient_rows() {
    let sky = Skybox::new(4, 5, 0, 7);
    let mut fb = Framebuffer::new(4, 5);
    fb.clear(0xDEADBE);
    sky.render(&mut fb);
    // (5, 5, 12) at the top fading linearly to black at the bottom.
    let rows = [(5u32, 12u32), (3, 9), (2, 6), (1, 3), (0, 0)];
    for (y, &(rg, b)) in rows.iter().enumerate() {
        let expected = (rg << 16) | (rg << 8) | b;
        for x in 0..4 {
            assert_eq!(fb.buffer[y * 4 + x], expected, "cell ({}, {})", x, y);
        }
    }
    // The depth plane is untouched by the background pass.
    assert!(fb.zbuffer.iter().all(|&d| d == u32::MAX));
}

#[test]
fn test_skybox_single_row() {
    let sky = Skybox::new(3, 1, 0, 7);
    let mut fb = Framebuffer::new(3, 1);
    fb.clear(0);
    sky.render(&mut fb);
    for x in 0..3 {
        assert_eq!(fb.buffer[x], 0x05050C);
    }
}

#[test]
fn test_skybox_stars_are_grey_and_in_bounds() {
    // A one-pixel sky: every star must land on (0, 0) with a starlight
    // grey, so the single cell ends as a grey in [180, 255).
    let sky = Skybox::new(1, 1, 10, 99);
    let mut fb = Framebuffer::new(1, 1);
    fb.clear(0);
    sky.render(&mut fb);
    let px = fb.buffer[0];
    let r = (px >> 16) & 0xFF;
    let g = (px >> 8) & 0xFF;
    let b = px & 0xFF;
    assert_eq!(r, g);
    assert_eq!(g, b);
    assert!((180..255).contains(&r), "channel {} outside the starlight band", r);
}

#[test]
fn test_skybox_larger_than_framebuffer() {
    // Stars and gradient rows outside the framebuffer are silently clipped.
    let sky = Skybox::new(64, 64, 200, 5);
    let mut fb = Framebuffer::new(8, 4);
    fb.clear(0);
    sky.render(&mut fb);
    assert_eq!(fb.buffer.len(), 32);
    assert!(fb.zbuffer.iter().all(|&d| d == u32::MAX));
}

#[test]
fn test_skybox_deterministic_for_seed() {
    let a = Skybox::new(32, 32, 40, 1234);
    let b = Skybox::new(32, 32, 40, 1234);
    let mut fa = Framebuffer::new(32, 32);
    let mut fob = Framebuffer::new(32, 32);
    fa.clear(0);
    fob.clear(0);
    a.render(&mut fa);
    b.render(&mut fob);
    assert_eq!(fa.buffer, fob.buffer);
}
