use pathtracer::color::Color;
use pathtracer::fixed::{Fixed, ONE_RAW};
use pathtracer::image::{bitmap_header, channel_byte, frame_bytes, pixel_bytes, HEADER_LEN};

fn fx(x: f64) -> Fixed {
    Fixed::from_raw((x * 4294967296.0).round() as i64)
}

#[test]
fn channel_bytes_are_rounded() {
    assert_eq!(channel_byte(fx(0.0)), 0);
    assert_eq!(channel_byte(fx(1.0)), 255);
    assert_eq!(channel_byte(fx(0.5)), 128);
    assert_eq!(channel_byte(fx(0.2)), 51);
    assert_eq!(channel_byte(fx(0.4)), 102);
    assert_eq!(channel_byte(fx(0.8)), 204);
    assert_eq!(channel_byte(Fixed::ratio(1, 255)), 1);
    assert_eq!(channel_byte(Fixed::ratio(1, 510)), 0);
    assert_eq!(channel_byte(Fixed::from_raw(ONE_RAW / 510 + 1)), 1);
}

#[test]
fn channel_bytes_are_clamped() {
    assert_eq!(channel_byte(fx(2.5)), 255);
    assert_eq!(channel_byte(fx(1.0000001)), 255);
    assert_eq!(channel_byte(Fixed::from_raw(i64::MAX)), 255);
    assert_eq!(channel_byte(fx(-0.3)), 0);
    assert_eq!(channel_byte(Fixed::from_raw(-1)), 0);
    assert_eq!(channel_byte(Fixed { raw: i64::MIN }), 0);
}

#[test]
fn channel_bytes_grow_with_the_channel() {
    let mut last = 0u8;
    for k in 0..=1024i64 {
        let byte = channel_byte(Fixed::from_raw(k * (ONE_RAW / 1024)));
        assert!(byte >= last);
        last = byte;
    }
    assert_eq!(last, 255);
}

#[test]
fn pixel_has_red_green_blue_and_a_zero() {
    let color = Color::new(fx(1.0), fx(0.5), fx(0.0), fx(1.0));
    assert_eq!(pixel_bytes(&color), [255, 128, 0, 0]);
    let bright = Color::new(fx(2.5), fx(-1.0), fx(0.2), fx(0.7));
    assert_eq!(pixel_bytes(&bright), [255, 0, 51, 0]);
}

#[test]
fn frame_has_four_bytes_for_each_pixel() {
    let pixels = vec![
        Color::new(fx(1.0), fx(0.5), fx(0.0), fx(1.0)),
        Color::new(fx(0.2), fx(0.4), fx(0.8), fx(1.0)),
        Color::black(),
    ];
    assert_eq!(frame_bytes(&pixels), vec![255, 128, 0, 0, 51, 102, 204, 0, 0, 0, 0, 0]);
    assert!(frame_bytes(&Vec::new()).is_empty());
}

#[test]
fn header_of_a_large_frame() {
    let header = bitmap_header(1280, 720).expect("the image fits");
    assert_eq!(HEADER_LEN, 66);
    let expected: Vec<u8> = vec![
        0x42, 0x4d, 0x42, 0x40, 0x38, 0x00, 0x00, 0x00, 0x00, 0x00, 0x42, 0x00, 0x00, 0x00, 0x28,
        0x00, 0x00, 0x00, 0x00, 0x05, 0x00, 0x00, 0xd0, 0x02, 0x00, 0x00, 0x01, 0x00, 0x20, 0x00,
        0x03, 0x00, 0x00, 0x00, 0x00, 0x00, 0x00, 0x00, 0x00, 0x00, 0x00, 0x00, 0x00, 0x00, 0x00,
        0x00, 0x00, 0x00, 0x00, 0x00, 0x00, 0x00, 0x00, 0x00, 0xff, 0x00, 0x00, 0x00, 0x00, 0xff,
        0x00, 0x00, 0x00, 0x00, 0xff, 0x00,
    ];
    assert_eq!(header, expected);
}

#[test]
fn header_of_an_empty_frame() {
    let header = bitmap_header(0, 0).expect("the image fits");
    assert_eq!(header.len(), 66);
    assert_eq!(&header[2..6], &[66, 0, 0, 0]);
}

#[test]
fn header_is_refused_where_the_image_does_not_fit() {
    assert!(bitmap_header(0x8000_0000, 1).is_none());
    assert!(bitmap_header(1, 0x8000_0000).is_none());
    assert!(bitmap_header(40000, 40000).is_none());
    assert!(bitmap_header(u32::MAX, u32::MAX).is_none());
    assert!(bitmap_header(0x7fff_ffff, 0).is_some());
    assert!(bitmap_header(32768, 32767).is_some());
    assert!(bitmap_header(32768, 32768).is_none());
}
