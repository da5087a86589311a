use color_evolution_sim::renderer::{pack_rgb, Renderer, Sprite, PIXEL_SCALE};

#[test]
fn new_display_is_black() {
    let r = Renderer::new(3);
    assert_eq!(r.get_framebuffer().len(), 30 * 30);
    assert!(r.get_framebuffer().iter().all(|&p| p == 0));
    assert_eq!(PIXEL_SCALE, 10);
}

#[test]
fn sprites_fill_their_squares_last_one_wins() {
    let mut r = Renderer::new(3);
    r.render(&vec![
        Sprite { px: 1, py: 2, rgb: 0xff0000 },
        Sprite { px: 0, py: 0, rgb: 0x00ff00 },
        Sprite { px: 1, py: 2, rgb: 0x0000ff },
    ]);
    let fb = r.get_framebuffer();
    let ds = 30;
    for y in 0..ds {
        for x in 0..ds {
            let expected = if (10..20).contains(&x) && (20..30).contains(&y) {
                0x0000ff
            } else if x < 10 && y < 10 {
                0x00ff00
            } else {
                0
            };
            assert_eq!(fb[y * ds + x], expected, "pixel ({}, {})", x, y);
        }
    }
    assert_eq!(fb.iter().filter(|&&p| p != 0).count(), 200);
}

#[test]
fn render_clears_previous_frame_and_skips_off_grid_sprites() {
    let mut r = Renderer::new(2);
    r.render(&vec![Sprite { px: 1, py: 1, rgb: 7 }]);
    r.render(&vec![Sprite { px: 2, py: 0, rgb: 9 }, Sprite { px: 0, py: 5, rgb: 9 }]);
    assert!(r.get_framebuffer().iter().all(|&p| p == 0));
}

#[test]
fn channels_are_packed_as_rrggbb() {
    assert_eq!(pack_rgb(0x12, 0x34, 0x56), 0x123456);
    assert_eq!(pack_rgb(255, 0, 0), 0xff0000);
    assert_eq!(pack_rgb(0, 0, 0), 0);
}

#[test]
fn active_pixels_counts_lit_pixels() {
    let mut r = Renderer::new(3);
    assert_eq!(r.active_pixels(), 0);
    r.render(&vec![Sprite { px: 1, py: 2, rgb: 0xff0000 }, Sprite { px: 0, py: 0, rgb: 0 }]);
    assert_eq!(r.active_pixels(), 100);
    r.render(&vec![Sprite { px: 1, py: 2, rgb: 1 }, Sprite { px: 2, py: 2, rgb: 2 }]);
    assert_eq!(r.active_pixels(), 200);
}
