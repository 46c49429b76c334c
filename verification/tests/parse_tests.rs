use recolor::color::Rgba;
use recolor::parse::{parse_rgba, parse_u8_bytes, split_bytes, trim_bytes};
use recolor::protocol::{parse_mode, single_reply, walk_reply, Mode};

fn px(r: u8, g: u8, b: u8, a: u8) -> Rgba {
    Rgba { r, g, b, a }
}

#[test]
fn trim_removes_margins_only() {
    assert_eq!(trim_bytes(&b"  10 \r\n".to_vec()), b"10".to_vec());
    assert_eq!(trim_bytes(&b"a b".to_vec()), b"a b".to_vec());
    assert_eq!(trim_bytes(&b"   ".to_vec()), b"".to_vec());
    assert_eq!(trim_bytes(&b"".to_vec()), b"".to_vec());
}

#[test]
fn trim_strips_unicode_whitespace_as_str_trim_does() {
    let padded = "\u{00A0}\u{2003} 7 \u{3000}\u{0085}";
    assert_eq!(
        trim_bytes(&padded.as_bytes().to_vec()),
        padded.trim().as_bytes().to_vec()
    );
    assert_eq!(trim_bytes(&padded.as_bytes().to_vec()), b"7".to_vec());
    let ogham = "\u{1680}x\u{1680}";
    assert_eq!(trim_bytes(&ogham.as_bytes().to_vec()), b"x".to_vec());
    // A non-whitespace multi-byte character is kept whole.
    let kept = "\u{00A1}";
    assert_eq!(
        trim_bytes(&kept.as_bytes().to_vec()),
        kept.as_bytes().to_vec()
    );
}

#[test]
fn split_keeps_empty_fields() {
    let fields = split_bytes(&b"1,,2".to_vec());
    assert_eq!(fields, vec![b"1".to_vec(), b"".to_vec(), b"2".to_vec()]);
    let lone = split_bytes(&b"".to_vec());
    assert_eq!(lone, vec![b"".to_vec()]);
}

#[test]
fn byte_values_parse_as_rust_does() {
    assert_eq!(parse_u8_bytes(&b"0".to_vec()), Some(0));
    assert_eq!(parse_u8_bytes(&b"255".to_vec()), Some(255));
    assert_eq!(parse_u8_bytes(&b"+17".to_vec()), Some(17));
    assert_eq!(parse_u8_bytes(&b"007".to_vec()), Some(7));
    assert_eq!(parse_u8_bytes(&b"256".to_vec()), None);
    assert_eq!(parse_u8_bytes(&b"99999999999999999999".to_vec()), None);
    assert_eq!(parse_u8_bytes(&b"-1".to_vec()), None);
    assert_eq!(parse_u8_bytes(&b"".to_vec()), None);
    assert_eq!(parse_u8_bytes(&b"+".to_vec()), None);
    assert_eq!(parse_u8_bytes(&b"1 2".to_vec()), None);
}

#[test]
fn four_valid_fields_make_a_color() {
    assert_eq!(parse_rgba(&b"1,2,3,4".to_vec()), Some(px(1, 2, 3, 4)));
    assert_eq!(
        parse_rgba(&b" 10 , 20 , 30 , 40 ".to_vec()),
        Some(px(10, 20, 30, 40))
    );
    assert_eq!(
        parse_rgba(&b"255,255,255,0\n".to_vec()),
        Some(px(255, 255, 255, 0))
    );
}

#[test]
fn wrong_arity_is_rejected() {
    assert_eq!(parse_rgba(&b"1,2,3".to_vec()), None);
    assert_eq!(parse_rgba(&b"1,2,3,4,5".to_vec()), None);
    assert_eq!(parse_rgba(&b"".to_vec()), None);
}

#[test]
fn any_failed_field_rejects_the_whole_reply() {
    assert_eq!(parse_rgba(&b"x,1,2,3,4".to_vec()), None);
    assert_eq!(parse_rgba(&b"256,0,0,0".to_vec()), None);
    assert_eq!(parse_rgba(&b"1,,2,3,4".to_vec()), None);
    assert_eq!(parse_rgba(&b"1,2,3,x".to_vec()), None);
}

#[test]
fn modes_are_chosen_by_trimmed_digit() {
    assert_eq!(parse_mode(&b"1\n".to_vec()), Some(Mode::Single));
    assert_eq!(parse_mode(&b" 2 ".to_vec()), Some(Mode::All));
    assert_eq!(parse_mode(&b"3".to_vec()), None);
    assert_eq!(parse_mode(&b"12".to_vec()), None);
    assert_eq!(parse_mode(&b"".to_vec()), None);
    let padded = "\u{00A0}1\u{2028}";
    assert_eq!(
        parse_mode(&padded.as_bytes().to_vec()),
        Some(Mode::Single)
    );
}

#[test]
fn replies_warn_exactly_on_malformed_input() {
    // Any parse failure, a dropped or extra field included, keeps the
    // color and warns.
    let current = px(9, 9, 9, 9);
    assert_eq!(walk_reply(current, &b"1,,2,3,4".to_vec()), (current, true));
    assert_eq!(
        single_reply(current, &b"x,1,2,3,4".to_vec()),
        (current, true)
    );
}

#[test]
fn walk_replies_keep_skip_or_replace() {
    let current = px(9, 9, 9, 9);
    assert_eq!(walk_reply(current, &b"  \n".to_vec()), (current, false));
    assert_eq!(
        walk_reply(current, &b"1,2,3,4".to_vec()),
        (px(1, 2, 3, 4), false)
    );
    assert_eq!(walk_reply(current, &b"bogus".to_vec()), (current, true));
}

#[test]
fn single_replies_replace_or_warn() {
    let current = px(9, 9, 9, 9);
    assert_eq!(
        single_reply(current, &b"5,6,7,8".to_vec()),
        (px(5, 6, 7, 8), false)
    );
    assert_eq!(single_reply(current, &b"".to_vec()), (current, true));
    assert_eq!(single_reply(current, &b"1,2".to_vec()), (current, true));
}
