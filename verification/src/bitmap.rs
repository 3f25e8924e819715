//! The device's raw bitmap resource: an eight-byte header and 24-bit pixels.
//!
//! The header holds four little-endian 16-bit numbers: width, height, bits
//! per pixel (always 24) and the length of a scanline in bytes. The pixels
//! follow row by row from the top, three bytes each: red, green, blue.

use vstd::prelude::*;
use crate::error::EncodeError;

verus! {

/// A decoded image as plain values: `channels` bytes for every pixel, row by
/// row from the top, each row from the left. The first three channels of a
/// pixel are its red, green and blue.
pub struct ImageModel {
    pub width: nat,
    pub height: nat,
    pub channels: nat,
    pub data: Seq<u8>,
}

/// Whether an image has at least three channels and as many bytes as its
/// width, height and channel count ask for.
pub open spec fn well_formed(m: ImageModel) -> bool {
    m.channels >= 3 && m.data.len() == m.width * m.height * m.channels
}

/// Channel `c` of the pixel in column `x` of row `y`.
pub open spec fn channel(m: ImageModel, x: int, y: int, c: int) -> u8 {
    m.data[(y * m.width + x) * m.channels + c]
}

/// A decoded image. Every value of this type is well formed.
pub struct DecodedImage {
    width: u32,
    height: u32,
    channels: u8,
    data: Vec<u8>,
}

impl View for DecodedImage {
    type V = ImageModel;

    closed spec fn view(&self) -> ImageModel {
        ImageModel {
            width: self.width as nat,
            height: self.height as nat,
            channels: self.channels as nat,
            data: self.data@,
        }
    }
}

/// The two bytes of a 16-bit number, lowest byte first.
pub open spec fn u16_le(v: int) -> Seq<u8> {
    seq![(v % 256) as u8, (v / 256 % 256) as u8]
}

/// The header of the bitmap resource of an image `width` wide and `height`
/// high. The scanline field holds the low sixteen bits of `3 * width`: above
/// a width of 21845 the product itself does not fit the field.
pub open spec fn bitmap_header(width: int, height: int) -> Seq<u8> {
    u16_le(width) + u16_le(height) + u16_le(24) + u16_le((3 * width) % 0x1_0000)
}

/// The pixels of an image as the bitmap resource holds them: of every pixel
/// the first three channels, pixel after pixel in the order of the image.
pub open spec fn bitmap_pixels(m: ImageModel) -> Seq<u8> {
    Seq::new(m.width * m.height * 3, |i: int| m.data[(i / 3) * m.channels + i % 3])
}

/// The bitmap resource of an image: header, then pixels.
pub open spec fn bitmap_bytes(m: ImageModel) -> Seq<u8> {
    bitmap_header(m.width as int, m.height as int) + bitmap_pixels(m)
}

/// Where the bitmap resource holds what: it is eight bytes longer than three
/// times the number of pixels, and channel `c` of the pixel in column `x` of
/// row `y` stands at `8 + (y * width + x) * 3 + c`.
pub proof fn lemma_bitmap_layout(m: ImageModel, x: int, y: int, c: int)
    requires
        well_formed(m),
        0 <= x < m.width,
        0 <= y < m.height,
        0 <= c < 3,
    ensures
        bitmap_bytes(m).len() == 8 + m.width * m.height * 3,
        8 + (y * m.width + x) * 3 + c < bitmap_bytes(m).len(),
        bitmap_bytes(m)[8 + (y * m.width + x) * 3 + c] == channel(m, x, y, c),
{
    let k = y * m.width + x;
    assert(0 <= k < m.width * m.height) by (nonlinear_arith)
        requires
            k == y * m.width + x,
            0 <= x < m.width,
            0 <= y < m.height,
    ;
    let i = k * 3 + c;
    assert(i / 3 == k && i % 3 == c);
    assert(0 <= i < m.width * m.height * 3) by (nonlinear_arith)
        requires
            i == k * 3 + c,
            0 <= c < 3,
            0 <= k < m.width * m.height,
    ;
    assert(bitmap_header(m.width as int, m.height as int).len() == 8);
    assert(bitmap_pixels(m)[i] == m.data[(i / 3) * m.channels + i % 3]);
}

/// The header of a bitmap resource, field by field: width, height, 24 bits
/// per pixel, and the low sixteen bits of three times the width.
pub proof fn lemma_bitmap_header(m: ImageModel)
    requires
        m.width <= 32767,
        m.height <= 32767,
    ensures
        bitmap_bytes(m).len() >= 8,
        bitmap_bytes(m)[0] + 256 * bitmap_bytes(m)[1] == m.width,
        bitmap_bytes(m)[2] + 256 * bitmap_bytes(m)[3] == m.height,
        bitmap_bytes(m)[4] + 256 * bitmap_bytes(m)[5] == 24,
        bitmap_bytes(m)[6] + 256 * bitmap_bytes(m)[7] == (3 * m.width) % 0x1_0000,
        m.width <= 21845 ==> bitmap_bytes(m)[6] + 256 * bitmap_bytes(m)[7] == 3 * m.width,
{
    assert(bitmap_header(m.width as int, m.height as int).len() == 8);
}

/// `a * c <= b * c` for `a <= b` and `c` not negative.
proof fn lemma_mul_le(a: int, b: int, c: int)
    requires
        a <= b,
        0 <= c,
    ensures
        a * c <= b * c,
{
    assert(a * c <= b * c) by (nonlinear_arith)
        requires
            a <= b,
            0 <= c,
    ;
}

/// Appends the two bytes of `v`, lowest byte first.
fn push_u16_le(out: &mut Vec<u8>, v: u16)
    ensures
        final(out)@ == old(out)@ + u16_le(v as int),
{
    out.push((v % 256) as u8);
    out.push((v / 256) as u8);
    assert(final(out)@ =~= old(out)@ + u16_le(v as int));
}

impl DecodedImage {
    #[verifier::type_invariant]
    spec fn valid(&self) -> bool {
        well_formed(self@)
    }

    /// An image of the given width and height from `data`, which holds
    /// `channels` bytes for every pixel, row by row from the top. `None`
    /// where there are fewer than three channels or where `data` is not
    /// `width * height * channels` bytes long.
    pub fn new(width: u32, height: u32, channels: u8, data: Vec<u8>) -> (made: Option<
        DecodedImage,
    >)
        ensures
            made is Some <==> well_formed(
                (ImageModel {
                    width: width as nat,
                    height: height as nat,
                    channels: channels as nat,
                    data: data@,
                }),
            ),
            made matches Some(image) ==> image@ == (ImageModel {
                width: width as nat,
                height: height as nat,
                channels: channels as nat,
                data: data@,
            }),
    {
        assert(width * height <= 0xffff_ffff * 0xffff_ffff) by (nonlinear_arith)
            requires
                0 <= width <= 0xffff_ffff,
                0 <= height <= 0xffff_ffff,
        ;
        let pixels: u128 = width as u128 * height as u128;
        assert(pixels * channels <= 0xffff_ffff * 0xffff_ffff * 255) by (nonlinear_arith)
            requires
                0 <= pixels <= 0xffff_ffff * 0xffff_ffff,
                0 <= channels <= 255,
        ;
        let wanted: u128 = pixels * channels as u128;
        if channels >= 3 && data.len() as u128 == wanted {
            Some(DecodedImage { width, height, channels, data })
        } else {
            None
        }
    }

    /// The width in pixels.
    pub fn width(&self) -> (width: u32)
        ensures
            width == self@.width,
            well_formed(self@),
    {
        proof {
            use_type_invariant(self);
        }
        self.width
    }

    /// The height in pixels.
    pub fn height(&self) -> (height: u32)
        ensures
            height == self@.height,
            well_formed(self@),
    {
        proof {
            use_type_invariant(self);
        }
        self.height
    }

    /// The number of channels of every pixel.
    pub fn channels(&self) -> (channels: u8)
        ensures
            channels == self@.channels,
            well_formed(self@),
    {
        proof {
            use_type_invariant(self);
        }
        self.channels
    }

    /// Encodes the image as a raw bitmap resource. An image more than 32767
    /// wide or high is refused, and nothing is produced for it.
    pub fn convert(&self) -> (made: Result<Vec<u8>, EncodeError>)
        ensures
            match made {
                Ok(out) => {
                    &&& self@.width <= 32767
                    &&& self@.height <= 32767
                    &&& out@ == bitmap_bytes(self@)
                },
                Err(e) => {
                    &&& self@.width > 32767 || self@.height > 32767
                    &&& e == (EncodeError::DimensionsTooLarge {
                        width: self@.width as u32,
                        height: self@.height as u32,
                    })
                },
            },
    {
        proof {
            use_type_invariant(self);
        }
        let w: u32 = self.width;
        let h: u32 = self.height;
        if w > 0x7fff || h > 0x7fff {
            return Err(EncodeError::DimensionsTooLarge { width: w, height: h });
        }
        let mut out: Vec<u8> = Vec::new();
        push_u16_le(&mut out, w as u16);
        push_u16_le(&mut out, h as u16);
        push_u16_le(&mut out, 24);
        push_u16_le(&mut out, ((3 * w) % 0x1_0000) as u16);
        assert(out@ =~= bitmap_header(w as int, h as int));
        assert(w * h <= 0x7fff * 0x7fff) by (nonlinear_arith)
            requires
                0 <= w <= 0x7fff,
                0 <= h <= 0x7fff,
        ;
        let pixels: usize = (w as usize) * (h as usize);
        let step: usize = self.channels as usize;
        let len: usize = self.data.len();
        let ghost m = self@;
        let ghost header = bitmap_header(w as int, h as int);
        let mut k: usize = 0;
        let mut base: usize = 0;
        while k < pixels
            invariant
                k <= pixels,
                pixels == m.width * m.height,
                step == m.channels,
                step >= 3,
                m.data == self.data@,
                len == pixels * step,
                len == m.data.len(),
                base == k * step,
                out@ == header + Seq::new(
                    (3 * k) as nat,
                    |i: int| m.data[(i / 3) * m.channels + i % 3],
                ),
            decreases pixels - k,
        {
            proof {
                lemma_mul_le(k + 1, pixels as int, step as int);
                assert((k + 1) * step == k * step + step) by (nonlinear_arith);
            }
            let ghost before = out@;
            out.push(self.data[base]);
            out.push(self.data[base + 1]);
            out.push(self.data[base + 2]);
            k += 1;
            base += step;
            proof {
                assert(out@ =~= header + Seq::new(
                    (3 * k) as nat,
                    |i: int| m.data[(i / 3) * m.channels + i % 3],
                ));
            }
        }
        proof {
            assert(3 * k == m.width * m.height * 3) by (nonlinear_arith)
                requires
                    k == m.width * m.height,
            ;
        }
        Ok(out)
    }
}

} // verus!
