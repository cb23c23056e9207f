use softrender::color::Color;
use softrender::scene::{planet_color, Lcg};

#[test]
fn test_color_new_fields() {
    let c = Color::new(1, 2, 3);
    assert_eq!(c.r, 1);
    assert_eq!(c.g, 2);
    assert_eq!(c.b, 3);
}

#[test]
fn test_color_add_saturates() {
    let sum = Color::new(250, 10, 0).add(Color::new(10, 5, 0));
    assert_eq!(sum, Color::new(255, 15, 0));
}

#[test]
fn test_color_add_plain() {
    let sum = Color::new(1, 2, 3).add(Color::new(10, 20, 30));
    assert_eq!(sum, Color::new(11, 22, 33));
}

#[test]
fn test_color_add_all_channels_cap() {
    let sum = Color::new(255, 255, 255).add(Color::new(255, 255, 255));
    assert_eq!(sum, Color::new(255, 255, 255));
}

#[test]
fn test_color_to_hex() {
    assert_eq!(Color::new(0x11, 0x22, 0x33).to_hex(), 0x112233);
    assert_eq!(Color::new(255, 0, 128).to_hex(), 0xFF0080);
    assert_eq!(Color::new(0, 0, 0).to_hex(), 0);
}

#[test]
fn test_planet_palette() {
    assert_eq!(planet_color(1), Color::new(153, 137, 117));
    assert_eq!(planet_color(2), Color::new(237, 214, 158));
    assert_eq!(planet_color(3), Color::new(63, 140, 71));
    assert_eq!(planet_color(4), Color::new(198, 107, 71));
    assert_eq!(planet_color(5), Color::new(219, 188, 147));
    assert_eq!(planet_color(6), Color::new(234, 219, 183));
    assert_eq!(planet_color(7), Color::new(142, 214, 224));
    assert_eq!(planet_color(8), Color::new(25, 91, 204));
    assert_eq!(planet_color(0), Color::new(178, 178, 178));
    assert_eq!(planet_color(99), Color::new(178, 178, 178));
}

#[test]
fn test_lcg_known_sequence() {
    let mut l = Lcg::new(0xC0FFEE12);
    assert_eq!(l.next_u32(), 0x9954b0ad);
    assert_eq!(l.next_u32(), 0x197c9d91);
    assert_eq!(l.next_u32(), 0xe4249e06);
    let mut l1 = Lcg::new(1);
    assert_eq!(l1.next_u32(), 0x5851f42d);
}

#[test]
fn test_lcg_deterministic() {
    let mut a = Lcg::new(42);
    let mut b = Lcg::new(42);
    for _ in 0..100 {
        assert_eq!(a.next_u32(), b.next_u32());
    }
}
