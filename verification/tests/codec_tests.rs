use recolor::codec::{decode_rgba, recolor_image, DecodeError};
use recolor::color::Rgba;
use recolor::remap::RemapTable;
use std::io::Cursor;

fn png_bytes_of(width: u32, height: u32, raw: Vec<u8>) -> Vec<u8> {
    let img = image::RgbaImage::from_raw(width, height, raw).unwrap();
    let mut bytes = Vec::new();
    img.write_to(&mut Cursor::new(&mut bytes), image::ImageFormat::Png)
        .unwrap();
    bytes
}

#[test]
fn decoding_recovers_the_encoded_pixels() {
    let raw = vec![
        255, 0, 0, 255, // red
        0, 255, 0, 255, // green
        0, 0, 255, 255, // blue
        0, 0, 0, 0, // transparent black
    ];
    let bytes = png_bytes_of(2, 2, raw.clone());
    let bm = decode_rgba(&bytes).unwrap();
    assert_eq!(bm.width, 2);
    assert_eq!(bm.height, 2);
    assert_eq!(bm.pixels, raw);
}

#[test]
fn garbage_bytes_do_not_decode() {
    let bytes = vec![1, 2, 3, 4, 5, 6, 7, 8];
    assert_eq!(decode_rgba(&bytes).err(), Some(DecodeError));
}

#[test]
fn recoloring_an_image_rewrites_the_mapped_color() {
    let raw = vec![
        255, 0, 0, 255, // red
        7, 7, 7, 7, // untouched
        255, 0, 0, 255, // red
        0, 255, 0, 255, // green
    ];
    let bytes = png_bytes_of(4, 1, raw);
    let mut table = RemapTable::new();
    table.set_mapping(
        Rgba { r: 255, g: 0, b: 0, a: 255 },
        Rgba { r: 0, g: 0, b: 255, a: 255 },
    );
    let out = recolor_image(&bytes, &table).unwrap();
    assert_eq!(out.width, 4);
    assert_eq!(out.height, 1);
    assert_eq!(
        out.pixels,
        vec![
            0, 0, 255, 255, //
            7, 7, 7, 7, //
            0, 0, 255, 255, //
            0, 255, 0, 255, //
        ]
    );
}

#[test]
fn recoloring_fails_exactly_when_decoding_fails() {
    let table = RemapTable::new();
    assert!(recolor_image(&vec![0, 1, 2], &table).is_err());
}
