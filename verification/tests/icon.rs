use frankenstein::icon::{icon_from_pixels, load_icon};

/// A PNG of 2 by 1 pixels with transparency.
const COLOUR_PNG: [u8; 74] = [
    0x89, 0x50, 0x4e, 0x47, 0x0d, 0x0a, 0x1a, 0x0a, 0x00, 0x00, 0x00, 0x0d,
    0x49, 0x48, 0x44, 0x52, 0x00, 0x00, 0x00, 0x02, 0x00, 0x00, 0x00, 0x01,
    0x08, 0x06, 0x00, 0x00, 0x00, 0xf4, 0x22, 0x7f, 0x8a, 0x00, 0x00, 0x00,
    0x11, 0x49, 0x44, 0x41, 0x54, 0x78, 0x9c, 0x63, 0xb0, 0xfc, 0x2f, 0xf2,
    0xff, 0xa0, 0x0b, 0x5f, 0x03, 0x00, 0x12, 0xa9, 0x03, 0xdf, 0xb4, 0x58,
    0x66, 0x3f, 0x00, 0x00, 0x00, 0x00, 0x49, 0x45, 0x4e, 0x44, 0xae, 0x42,
    0x60, 0x82,
];

/// A greyscale PNG of 1 by 2 pixels.
const GREY_PNG: [u8; 69] = [
    0x89, 0x50, 0x4e, 0x47, 0x0d, 0x0a, 0x1a, 0x0a, 0x00, 0x00, 0x00, 0x0d,
    0x49, 0x48, 0x44, 0x52, 0x00, 0x00, 0x00, 0x01, 0x00, 0x00, 0x00, 0x02,
    0x08, 0x00, 0x00, 0x00, 0x00, 0xbc, 0xea, 0xe9, 0xfb, 0x00, 0x00, 0x00,
    0x0c, 0x49, 0x44, 0x41, 0x54, 0x78, 0x9c, 0x63, 0x60, 0x67, 0x38, 0x01,
    0x00, 0x00, 0xe1, 0x00, 0xd0, 0x79, 0x49, 0xb5, 0x30, 0x00, 0x00, 0x00,
    0x00, 0x49, 0x45, 0x4e, 0x44, 0xae, 0x42, 0x60, 0x82,
];

#[test]
fn icon_keeps_rgba_pixels() {
    let icon = load_icon(&COLOUR_PNG).unwrap();
    assert_eq!((icon.width, icon.height), (2, 1));
    assert_eq!(icon.rgba, vec![57, 255, 20, 255, 193, 68, 14, 128]);
}

#[test]
fn icon_expands_grey_to_rgba() {
    let icon = load_icon(&GREY_PNG).unwrap();
    assert_eq!((icon.width, icon.height), (1, 2));
    assert_eq!(icon.rgba, vec![7, 7, 7, 255, 200, 200, 200, 255]);
}

#[test]
fn icon_refuses_what_is_no_image() {
    assert!(load_icon(b"").is_none());
    assert!(load_icon(b"not an image").is_none());
    assert!(load_icon(&COLOUR_PNG[..30]).is_none());
}

#[test]
fn icon_is_made_of_the_pixels_given() {
    let icon = icon_from_pixels(Some((vec![1, 2, 3, 4], 1, 1))).unwrap();
    assert_eq!(icon.rgba, vec![1, 2, 3, 4]);
    assert_eq!((icon.width, icon.height), (1, 1));
    assert!(icon_from_pixels(None).is_none());
}
