use recolor::color::{luminance, Rgba};
use recolor::palette::extract_palette;

fn px(r: u8, g: u8, b: u8, a: u8) -> Rgba {
    Rgba { r, g, b, a }
}

fn buffer_of(colors: &[Rgba]) -> Vec<u8> {
    let mut v = Vec::new();
    for c in colors {
        v.push(c.r);
        v.push(c.g);
        v.push(c.b);
        v.push(c.a);
    }
    v
}

#[test]
fn luminance_white_is_full_scale() {
    assert_eq!(luminance(px(255, 255, 255, 255)), 2_550_000);
}

#[test]
fn luminance_black_is_zero() {
    assert_eq!(luminance(px(0, 0, 0, 255)), 0);
}

#[test]
fn luminance_of_pure_channels() {
    assert_eq!(luminance(px(255, 0, 0, 255)), 2126 * 255);
    assert_eq!(luminance(px(0, 255, 0, 255)), 7152 * 255);
    assert_eq!(luminance(px(0, 0, 255, 255)), 722 * 255);
}

#[test]
fn palette_dedups_and_sorts_brightest_first() {
    let black = px(0, 0, 0, 255);
    let white = px(255, 255, 255, 255);
    let gray = px(128, 128, 128, 255);
    let pixels = buffer_of(&[black, white, black, gray, white]);
    let palette = extract_palette(&pixels);
    assert_eq!(palette.len(), 3);
    assert_eq!(palette[0], white);
    assert_eq!(palette[1], gray);
    assert_eq!(palette[2], black);
}

#[test]
fn palette_of_empty_buffer_is_empty() {
    let pixels: Vec<u8> = Vec::new();
    let palette = extract_palette(&pixels);
    assert!(palette.is_empty());
}

#[test]
fn palette_of_uniform_image_has_one_color() {
    let c = px(10, 20, 30, 40);
    let pixels = buffer_of(&[c, c, c, c]);
    let palette = extract_palette(&pixels);
    assert_eq!(palette.len(), 1);
    assert_eq!(palette[0], c);
}

#[test]
fn colors_of_equal_brightness_both_stay() {
    // Same RGB but different alpha: equal brightness, distinct colors.
    let solid = px(5, 5, 5, 255);
    let faint = px(5, 5, 5, 0);
    let pixels = buffer_of(&[solid, faint, solid]);
    let palette = extract_palette(&pixels);
    assert_eq!(palette.len(), 2);
    assert!(palette.contains(&solid));
    assert!(palette.contains(&faint));
}

#[test]
fn palette_orders_by_perceived_brightness_not_sum() {
    // Green counts far more than blue in perceived brightness.
    let green = px(0, 200, 0, 255);
    let blue = px(0, 0, 255, 255);
    let pixels = buffer_of(&[blue, green]);
    let palette = extract_palette(&pixels);
    assert_eq!(palette[0], green);
    assert_eq!(palette[1], blue);
}
