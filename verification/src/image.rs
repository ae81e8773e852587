//! Conversion of a frame buffer to bytes, and the header of the bitmap file
//! that holds them.

use crate::color::Color;
use crate::fixed::{Fixed, ONE_RAW};
use crate::trig::unit_clamp;
use vstd::prelude::*;

verus! {

/// Length of the bitmap header in bytes.
pub const HEADER_LEN: u32 = 66;

/// The byte for a channel of raw value `v`: the value clamped to the unit
/// interval, multiplied by 255 and rounded to the nearest whole number.
pub open spec fn channel_byte_of(v: int) -> int {
    (unit_clamp(v) * 255 + ONE_RAW / 2) / (ONE_RAW as int)
}

/// The four bytes of a pixel: red, green, blue, and a zero.
pub open spec fn spec_pixel_bytes(color: Color) -> Seq<u8> {
    seq![
        channel_byte_of(color.r@) as u8,
        channel_byte_of(color.g@) as u8,
        channel_byte_of(color.b@) as u8,
        0u8,
    ]
}

/// The bytes of a frame buffer: four for each pixel, in the order of the
/// pixels.
pub open spec fn spec_frame_bytes(pixels: Seq<Color>) -> Seq<u8> {
    Seq::new(4 * pixels.len(), |i: int| spec_pixel_bytes(pixels[i / 4])[i % 4])
}

/// The `count` low bytes of `value`, least significant first.
pub open spec fn le_bytes(value: int, count: nat) -> Seq<u8>
    decreases count,
{
    if count == 0 {
        Seq::empty()
    } else {
        seq![(value % 256) as u8] + le_bytes(value / 256, (count - 1) as nat)
    }
}

/// The size in bytes of a bitmap file of `width` by `height` pixels.
pub open spec fn file_size(width: int, height: int) -> int {
    HEADER_LEN + width * height * 4
}

/// The image fits a bitmap file: the dimensions fit signed 32-bit fields and
/// the size of the file an unsigned one.
pub open spec fn fits_bitmap(width: int, height: int) -> bool {
    &&& 0 <= width <= i32::MAX
    &&& 0 <= height <= i32::MAX
    &&& file_size(width, height) <= u32::MAX
}

/// The header of an uncompressed bitmap file of `width` by `height` pixels
/// with 32 bits per pixel and one byte each for red, green and blue, in this
/// order.
pub open spec fn spec_bitmap_header(width: int, height: int) -> Seq<u8> {
    seq![0x42u8, 0x4du8] + le_bytes(file_size(width, height), 4) + le_bytes(0, 2) + le_bytes(0, 2)
        + le_bytes(HEADER_LEN as int, 4) + le_bytes(40, 4) + le_bytes(width, 4) + le_bytes(
        height,
        4,
    ) + le_bytes(1, 2) + le_bytes(32, 2) + le_bytes(3, 4) + le_bytes(0, 4) + le_bytes(0, 4)
        + le_bytes(0, 4) + le_bytes(0, 4) + le_bytes(0, 4) + le_bytes(0xff, 4) + le_bytes(0xff00, 4)
        + le_bytes(0xff_0000, 4)
}

/// A channel byte grows with the channel, is 0 for a channel of zero or
/// less and 255 for a channel of one or more.
pub proof fn lemma_channel_byte(v: int, w: int)
    ensures
        0 <= channel_byte_of(v) <= 255,
        v <= 0 ==> channel_byte_of(v) == 0,
        v >= ONE_RAW ==> channel_byte_of(v) == 255,
        v <= w ==> channel_byte_of(v) <= channel_byte_of(w),
{
}

/// Converts a channel to a byte, clamping it to the unit interval first.
pub fn channel_byte(value: Fixed) -> (byte: u8)
    ensures
        byte == channel_byte_of(value@),
{
    let clamped: i64 = if value.raw < 0 {
        0
    } else if value.raw > ONE_RAW {
        ONE_RAW
    } else {
        value.raw
    };
    ((clamped * 255 + ONE_RAW / 2) / ONE_RAW) as u8
}

/// Converts a pixel to its four bytes.
pub fn pixel_bytes(color: &Color) -> (bytes: [u8; 4])
    ensures
        bytes@ == spec_pixel_bytes(*color),
{
    let bytes = [channel_byte(color.r), channel_byte(color.g), channel_byte(color.b), 0u8];
    assert(bytes@ =~= spec_pixel_bytes(*color));
    bytes
}

/// Converts a frame buffer to bytes, pixel by pixel.
pub fn frame_bytes(pixels: &Vec<Color>) -> (bytes: Vec<u8>)
    ensures
        bytes@ == spec_frame_bytes(pixels@),
        bytes.len() == 4 * pixels.len(),
{
    let mut bytes: Vec<u8> = Vec::new();
    let mut k: usize = 0;
    while k < pixels.len()
        invariant
            k <= pixels.len(),
            bytes.len() == 4 * k,
            forall|i: int|
                0 <= i < 4 * k ==> bytes[i] == spec_pixel_bytes(#[trigger] pixels[i / 4])[i % 4],
        decreases pixels.len() - k,
    {
        let pixel = pixel_bytes(&pixels[k]);
        bytes.push(pixel[0]);
        bytes.push(pixel[1]);
        bytes.push(pixel[2]);
        bytes.push(pixel[3]);
        k += 1;
    }
    assert(bytes@ =~= spec_frame_bytes(pixels@));
    bytes
}

/// Appends the two low bytes of `value`, least significant first.
fn push_le16(bytes: &mut Vec<u8>, value: u32)
    ensures
        final(bytes)@ == old(bytes)@ + le_bytes(value as int, 2),
{
    bytes.push((value % 256) as u8);
    bytes.push(((value / 256) % 256) as u8);
    proof {
        reveal_with_fuel(le_bytes, 3);
        assert(bytes@ =~= old(bytes)@ + le_bytes(value as int, 2));
    }
}

/// Appends the four bytes of `value`, least significant first.
fn push_le32(bytes: &mut Vec<u8>, value: u32)
    ensures
        final(bytes)@ == old(bytes)@ + le_bytes(value as int, 4),
{
    bytes.push((value % 256) as u8);
    bytes.push(((value / 256) % 256) as u8);
    bytes.push(((value / 65536) % 256) as u8);
    bytes.push(((value / 16777216) % 256) as u8);
    proof {
        reveal_with_fuel(le_bytes, 5);
        assert(bytes@ =~= old(bytes)@ + le_bytes(value as int, 4));
    }
}

/// Builds the header of the bitmap file for an image of `width` by `height`
/// pixels, or nothing where the image does not fit such a file.
pub fn bitmap_header(width: u32, height: u32) -> (header: Option<Vec<u8>>)
    ensures
        header is Some <==> fits_bitmap(width as int, height as int),
        header matches Some(bytes) ==> bytes@ == spec_bitmap_header(width as int, height as int)
            && bytes.len() == HEADER_LEN,
{
    if width > 0x7fff_ffff || height > 0x7fff_ffff {
        return None;
    }
    assert(width * height <= 0x7fff_ffff * 0x7fff_ffff) by (nonlinear_arith)
        requires
            width <= 0x7fff_ffff,
            height <= 0x7fff_ffff,
    ;
    let size: u64 = HEADER_LEN as u64 + (width as u64) * (height as u64) * 4;
    if size > 0xffff_ffff {
        return None;
    }
    let mut bytes: Vec<u8> = Vec::new();
    bytes.push(0x42);
    bytes.push(0x4d);
    assert(bytes@ =~= seq![0x42u8, 0x4du8]);
    push_le32(&mut bytes, size as u32);
    push_le16(&mut bytes, 0);
    push_le16(&mut bytes, 0);
    push_le32(&mut bytes, HEADER_LEN);
    push_le32(&mut bytes, 40);
    push_le32(&mut bytes, width);
    push_le32(&mut bytes, height);
    push_le16(&mut bytes, 1);
    push_le16(&mut bytes, 32);
    push_le32(&mut bytes, 3);
    push_le32(&mut bytes, 0);
    push_le32(&mut bytes, 0);
    push_le32(&mut bytes, 0);
    push_le32(&mut bytes, 0);
    push_le32(&mut bytes, 0);
    push_le32(&mut bytes, 0xff);
    push_le32(&mut bytes, 0xff00);
    push_le32(&mut bytes, 0xff_0000);
    proof {
        lemma_le_bytes_len(size as int, 4);
        lemma_le_bytes_len(0, 2);
        lemma_le_bytes_len(HEADER_LEN as int, 4);
        lemma_le_bytes_len(40, 4);
        lemma_le_bytes_len(width as int, 4);
        lemma_le_bytes_len(height as int, 4);
        lemma_le_bytes_len(1, 2);
        lemma_le_bytes_len(32, 2);
        lemma_le_bytes_len(3, 4);
        lemma_le_bytes_len(0, 4);
        lemma_le_bytes_len(0xff, 4);
        lemma_le_bytes_len(0xff00, 4);
        lemma_le_bytes_len(0xff_0000, 4);
    }
    Some(bytes)
}

/// `le_bytes` yields as many bytes as it is asked for.
pub proof fn lemma_le_bytes_len(value: int, count: nat)
    ensures
        le_bytes(value, count).len() == count,
    decreases count,
{
    if count > 0 {
        lemma_le_bytes_len(value / 256, (count - 1) as nat);
    }
}

} // verus!
