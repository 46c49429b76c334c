use recolor::color::Rgba;
use recolor::labels::{decimal_digits, find_color_by_label, label_text};

fn px(r: u8, g: u8, b: u8, a: u8) -> Rgba {
    Rgba { r, g, b, a }
}

#[test]
fn decimal_digits_of_zero() {
    assert_eq!(decimal_digits(0), b"0".to_vec());
}

#[test]
fn decimal_digits_of_a_large_number() {
    assert_eq!(decimal_digits(12345), b"12345".to_vec());
}

#[test]
fn vocabulary_labels_in_order() {
    assert_eq!(label_text(0), b"white".to_vec());
    assert_eq!(label_text(1), b"bright_highlight".to_vec());
    assert_eq!(label_text(2), b"dark_highlight".to_vec());
    assert_eq!(label_text(3), b"midtone".to_vec());
    assert_eq!(label_text(4), b"bright_shade".to_vec());
    assert_eq!(label_text(5), b"dark_shade".to_vec());
    assert_eq!(label_text(6), b"outline".to_vec());
    assert_eq!(label_text(7), b"black".to_vec());
}

#[test]
fn positions_past_the_vocabulary_get_synthesized_labels() {
    assert_eq!(label_text(8), b"Extra 8".to_vec());
    assert_eq!(label_text(12), b"Extra 12".to_vec());
    assert_eq!(label_text(105), b"Extra 105".to_vec());
}

#[test]
fn labels_find_their_palette_color() {
    let white = px(255, 255, 255, 255);
    let gray = px(128, 128, 128, 255);
    let black = px(0, 0, 0, 255);
    let palette = vec![white, gray, black];
    assert_eq!(find_color_by_label(&palette, &b"white".to_vec()), Some(white));
    assert_eq!(
        find_color_by_label(&palette, &b"bright_highlight".to_vec()),
        Some(gray)
    );
    assert_eq!(
        find_color_by_label(&palette, &b"dark_highlight".to_vec()),
        Some(black)
    );
}

#[test]
fn a_label_past_the_palette_is_not_found() {
    let white = px(255, 255, 255, 255);
    let palette = vec![white];
    assert_eq!(find_color_by_label(&palette, &b"black".to_vec()), None);
    assert_eq!(find_color_by_label(&palette, &b"no_such_label".to_vec()), None);
}

#[test]
fn synthesized_labels_are_found_in_long_palettes() {
    let mut palette = Vec::new();
    for i in 0..10u8 {
        palette.push(px(i, i, i, 255));
    }
    assert_eq!(
        find_color_by_label(&palette, &b"Extra 9".to_vec()),
        Some(px(9, 9, 9, 255))
    );
}
