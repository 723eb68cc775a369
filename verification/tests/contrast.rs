use bitsy_dialog::contrast::{
    contrast, is_contrast, luminance, pick_dialog_colors, Rgb, CONTRAST_ONE, CONTRAST_THRESHOLD,
};

const BLACK: Rgb = Rgb { r: 0, g: 0, b: 0 };
const WHITE: Rgb = Rgb { r: 255, g: 255, b: 255 };

#[test]
fn luminance_of_black_and_white() {
    assert_eq!(luminance(BLACK), 0);
    assert_eq!(luminance(WHITE), 1_000_000);
}

#[test]
fn luminance_of_a_dark_gray_uses_the_linear_segment() {
    // 10/255 is under the linear cutoff: 10 * 10_000_000 / 32946 = 3035.
    assert_eq!(luminance(Rgb { r: 10, g: 10, b: 10 }), 3035);
}

#[test]
fn contrast_of_black_against_white_is_twenty_one() {
    assert_eq!(contrast(BLACK, WHITE), 21 * CONTRAST_ONE);
}

#[test]
fn contrast_is_symmetric() {
    let a = Rgb { r: 12, g: 200, b: 50 };
    let b = Rgb { r: 240, g: 3, b: 190 };
    assert_eq!(contrast(a, b), contrast(b, a));
    assert_eq!(is_contrast(a, b), is_contrast(b, a));
}

#[test]
fn contrast_of_a_color_with_itself_is_one() {
    for c in [BLACK, WHITE, Rgb { r: 33, g: 99, b: 7 }] {
        assert_eq!(contrast(c, c), CONTRAST_ONE);
        assert!(!is_contrast(c, c));
    }
}

#[test]
fn threshold_agrees_with_the_ratio() {
    let pairs = [
        (BLACK, WHITE),
        (Rgb { r: 30, g: 30, b: 30 }, Rgb { r: 200, g: 200, b: 200 }),
        (Rgb { r: 100, g: 100, b: 100 }, Rgb { r: 140, g: 140, b: 140 }),
    ];
    for (a, b) in pairs {
        assert_eq!(is_contrast(a, b), contrast(a, b) >= CONTRAST_THRESHOLD);
    }
}

#[test]
fn black_and_white_are_contrast_enough() {
    assert!(is_contrast(BLACK, WHITE));
}

#[test]
fn nearby_grays_are_not_contrast_enough() {
    assert!(!is_contrast(
        Rgb { r: 100, g: 100, b: 100 },
        Rgb { r: 140, g: 140, b: 140 }
    ));
}

#[test]
fn contrasting_palette_is_reused_for_the_dialog_box() {
    let palette = vec![Rgb { r: 10, g: 10, b: 10 }, Rgb { r: 250, g: 250, b: 250 }];
    let (bg, fg) = pick_dialog_colors(&palette);
    assert_eq!(bg, palette[0]);
    assert_eq!(fg, palette[1]);
}

#[test]
fn flat_palette_falls_back_to_the_neutral_pair() {
    let palette = vec![Rgb { r: 100, g: 100, b: 100 }, Rgb { r: 120, g: 120, b: 120 }];
    let (bg, fg) = pick_dialog_colors(&palette);
    assert_eq!(bg, Rgb { r: 0x21, g: 0x1e, b: 0x20 });
    assert_eq!(fg, Rgb { r: 0xe9, g: 0xef, b: 0xec });
}

#[test]
fn short_palette_falls_back_to_the_neutral_pair() {
    let palette = vec![Rgb { r: 0, g: 0, b: 0 }];
    let (bg, fg) = pick_dialog_colors(&palette);
    assert_eq!(bg, Rgb { r: 0x21, g: 0x1e, b: 0x20 });
    assert_eq!(fg, Rgb { r: 0xe9, g: 0xef, b: 0xec });
}

#[test]
fn default_fallback_pair_is_itself_contrast_enough() {
    assert!(is_contrast(
        Rgb { r: 0x21, g: 0x1e, b: 0x20 },
        Rgb { r: 0xe9, g: 0xef, b: 0xec }
    ));
}
