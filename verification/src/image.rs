//! Image helpers for the host renderer: encode a cell image into the raw
//! framebuffer format, and pick the animation frame for a counter.

use vstd::prelude::*;

verus! {

/// Size of the raw image header: five fixed bytes and eight color-swap
/// bytes.
pub const IMAGE_HEADER_SIZE: usize = 13;

/// One packed body byte: the first pixel in the high nibble, the second in
/// the low nibble.
pub open spec fn spec_pack_pixels(p1: u8, p2: u8) -> u8 {
    (p1 << 4) | p2
}

/// Encode a cell image (one byte per pixel, 64 or 256 pixels) into a raw
/// image: a fixed header, eight color-swap bytes, then two pixels per byte,
/// each multiplied by the primary color index.
pub fn parse_image(pixels: &Vec<u8>, primary: u8) -> (raw: Vec<u8>)
    requires
        pixels@.len() == 64 || pixels@.len() == 256,
        forall|i: int| 0 <= i < pixels@.len() ==> pixels@[i] * primary <= 255,
    ensures
        raw@.len() == IMAGE_HEADER_SIZE + pixels@.len() / 2,
        raw@[0] == 0x21u8,
        raw@[1] == 4u8,
        raw@[2] == (if pixels@.len() == 256 {
            16u8
        } else {
            8u8
        }),
        raw@[3] == 0u8,
        raw@[4] == 255u8,
        forall|i: int| 0 <= i < 8 ==> #[trigger] raw@[5 + i] == (34 * i + 1) as u8,
        forall|j: int|
            0 <= j < pixels@.len() / 2 ==> #[trigger] raw@[IMAGE_HEADER_SIZE + j] == spec_pack_pixels(
                (pixels@[2 * j] * primary) as u8,
                (pixels@[2 * j + 1] * primary) as u8,
            ),
{
    let n = pixels.len();
    let width: u8 = if n == 256 {
        16
    } else {
        8
    };
    let mut raw: Vec<u8> = Vec::new();
    raw.push(0x21);
    raw.push(4);
    raw.push(width);
    raw.push(0);
    raw.push(255);
    let mut i: usize = 0;
    while i < 8
        invariant
            i <= 8,
            raw@.len() == 5 + i,
            raw@[0] == 0x21u8,
            raw@[1] == 4u8,
            raw@[2] == width,
            raw@[3] == 0u8,
            raw@[4] == 255u8,
            forall|k: int| 0 <= k < i ==> #[trigger] raw@[5 + k] == (34 * k + 1) as u8,
        decreases 8 - i,
    {
        let b: u8 = ((i as u8 * 2) << 4) | (i as u8 * 2 + 1);
        proof {
            let iu = i as u8;
            assert(((((iu * 2) as u8) << 4) | ((iu * 2 + 1) as u8)) == (34 * iu + 1) as u8)
                by (bit_vector)
                requires
                    iu < 8,
            ;
            assert(b == (34 * (i as int) + 1) as u8);
        }
        raw.push(b);
        i = i + 1;
    }
    let half = n / 2;
    let mut j: usize = 0;
    while j < half
        invariant
            j <= half,
            half == pixels@.len() / 2,
            n == pixels@.len(),
            n == 64 || n == 256,
            forall|k: int| 0 <= k < pixels@.len() ==> pixels@[k] * primary <= 255,
            raw@.len() == IMAGE_HEADER_SIZE + j,
            raw@[0] == 0x21u8,
            raw@[1] == 4u8,
            raw@[2] == width,
            raw@[3] == 0u8,
            raw@[4] == 255u8,
            forall|k: int| 0 <= k < 8 ==> #[trigger] raw@[5 + k] == (34 * k + 1) as u8,
            forall|k: int|
                0 <= k < j ==> #[trigger] raw@[IMAGE_HEADER_SIZE + k] == spec_pack_pixels(
                    (pixels@[2 * k] * primary) as u8,
                    (pixels@[2 * k + 1] * primary) as u8,
                ),
        decreases half - j,
    {
        let p1 = pixels[2 * j] * primary;
        let p2 = pixels[2 * j + 1] * primary;
        raw.push((p1 << 4) | p2);
        j = j + 1;
    }
    raw
}

/// Pick the animation frame a counter lands on: frames cycle in order.
pub fn pick_raw_frame<'a>(frames: &'a Vec<Vec<u8>>, frame: u16) -> (r: &'a Vec<u8>)
    requires
        frames@.len() > 0,
    ensures
        *r == frames@[(frame as int) % (frames@.len() as int)],
{
    let idx = (frame as usize) % frames.len();
    &frames[idx]
}

/// The index of the animation frame a counter lands on, for a cycle of
/// `len` frames.
pub fn pick_frame_index(len: usize, frame: u16) -> (idx: usize)
    requires
        len > 0,
    ensures
        idx == (frame as int) % (len as int),
        idx < len,
{
    (frame as usize) % len
}

} // verus!
