use chip8::display::Display;

#[test]
fn fresh_screen_is_black() {
    let mut d = Display::new();
    for y in 0..32 {
        for x in 0..64 {
            assert_eq!(d.get_pixel(x, y), 0);
        }
    }
}

#[test]
fn draw_then_cls_clears_everything() {
    let mut d = Display::new();
    let sprite = vec![0xFF, 0x81, 0xFF];
    let collided = d.draw(10, 5, &sprite);
    assert!(!collided);
    assert_eq!(d.get_pixel(10, 5), 1);
    d.cls();
    for y in 0..32 {
        for x in 0..64 {
            assert_eq!(d.get_pixel(x, y), 0);
        }
    }
}

#[test]
fn second_identical_draw_collides_and_erases() {
    let mut d = Display::new();
    let sprite = vec![0x3C, 0x42, 0x42, 0x3C];
    let first = d.draw(20, 10, &sprite);
    assert!(!first);
    let second = d.draw(20, 10, &sprite);
    assert!(second);
    for y in 0..32 {
        for x in 0..64 {
            assert_eq!(d.get_pixel(x, y), 0);
        }
    }
}

#[test]
fn draw_wraps_both_axes() {
    let mut d = Display::new();
    let sprite = vec![0xFF; 5];
    let collided = d.draw(60, 30, &sprite);
    assert!(!collided);
    let rows = [30usize, 31, 0, 1, 2];
    let cols = [60usize, 61, 62, 63, 0, 1, 2, 3];
    for y in 0..32 {
        for x in 0..64 {
            let expected = if rows.contains(&y) && cols.contains(&x) { 1 } else { 0 };
            assert_eq!(d.get_pixel(x, y), expected, "pixel ({}, {})", x, y);
        }
    }
}

#[test]
fn draw_bits_are_most_significant_first() {
    let mut d = Display::new();
    let sprite = vec![0x80];
    d.draw(0, 0, &sprite);
    assert_eq!(d.get_pixel(0, 0), 1);
    for x in 1..8 {
        assert_eq!(d.get_pixel(x, 0), 0);
    }
    let sprite2 = vec![0x01];
    d.draw(0, 1, &sprite2);
    assert_eq!(d.get_pixel(7, 1), 1);
    for x in 0..7 {
        assert_eq!(d.get_pixel(x, 1), 0);
    }
}

#[test]
fn overlapping_draw_reports_collision_only_on_erasure() {
    let mut d = Display::new();
    d.draw(0, 0, &vec![0xF0]);
    // disjoint bits on the same row: no pixel goes 1 -> 0
    let c1 = d.draw(0, 0, &vec![0x0F]);
    assert!(!c1);
    // overlapping bit: erases
    let c2 = d.draw(0, 0, &vec![0x10]);
    assert!(c2);
    assert_eq!(d.get_pixel(3, 0), 0);
}

#[test]
fn snapshot_matches_pixels() {
    let mut d = Display::new();
    d.draw(1, 2, &vec![0xC0]);
    let shot = d.snapshot();
    assert_eq!(shot.len(), 2048);
    assert_eq!(shot[2 * 64 + 1], 1);
    assert_eq!(shot[2 * 64 + 2], 1);
    assert_eq!(shot[2 * 64 + 3], 0);
    assert_eq!(shot[0], 0);
}

#[test]
fn empty_sprite_draws_nothing() {
    let mut d = Display::new();
    let collided = d.draw(0, 0, &Vec::new());
    assert!(!collided);
    for y in 0..32 {
        for x in 0..64 {
            assert_eq!(d.get_pixel(x, y), 0);
        }
    }
}
