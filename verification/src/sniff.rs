//! Guessing what a payload holds from its name and its first bytes.
//!
//! Every answer but `Configuration` is a guess: the checks are cheap and
//! validate nothing. What a `Bitmap` answer reports of the width, the height
//! and the bits per pixel is exactly what the payload's first six bytes say.

use vstd::prelude::*;
use vstd::string::StringExecFns;
use crate::container::ResourceHeader;
use crate::reader::le_u16;
use crate::text::{decimal, push_decimal};

verus! {

/// What a resource seems to be.
#[derive(Clone, Copy, Debug, PartialEq, Eq, Structural)]
pub enum ResourceKind {
    /// The unnamed resource: the theme's configuration text.
    Configuration,
    /// A bitmap of the device, with the numbers of its header.
    Bitmap { width: u16, height: u16, bits_per_pixel: u16, transparent: bool },
    /// A TrueType font.
    TrueTypeFont,
    /// An OpenType font.
    OpenTypeFont,
    /// JSON text.
    Json,
    /// None of the above.
    Unknown,
}

/// The width that a payload claims, read as a bitmap header.
pub open spec fn claimed_width(payload: Seq<u8>) -> int {
    le_u16(payload.subrange(0, 2))
}

/// The height that a payload claims, read as a bitmap header.
pub open spec fn claimed_height(payload: Seq<u8>) -> int {
    le_u16(payload.subrange(2, 4))
}

/// The third field of a payload read as a bitmap header: the bits per pixel
/// in its low fifteen bits, the transparency flag in its top bit.
pub open spec fn claimed_flags(payload: Seq<u8>) -> int {
    le_u16(payload.subrange(4, 6))
}

/// Whether a payload passes for a bitmap: more than eight bytes, a width and
/// a height above 0 and below 4096, and bits per pixel above 0 and below 256.
pub open spec fn looks_like_bitmap(payload: Seq<u8>) -> bool {
    &&& payload.len() > 8
    &&& 0 < claimed_width(payload) < 4096
    &&& 0 < claimed_height(payload) < 4096
    &&& 0 < claimed_flags(payload) % 0x8000 < 256
}

/// Whether a payload passes for JSON: more than two bytes, the first two
/// being `{"`.
pub open spec fn looks_like_json(payload: Seq<u8>) -> bool {
    payload.len() > 2 && payload[0] == 0x7b && payload[1] == 0x22
}

/// Whether a payload passes for an OpenType font: more than four bytes, the
/// first four being `OTTO`.
pub open spec fn looks_like_opentype(payload: Seq<u8>) -> bool {
    payload.len() > 4 && payload[0] == 0x4f && payload[1] == 0x54 && payload[2] == 0x54
        && payload[3] == 0x4f
}

/// Whether a payload passes for a TrueType font: more than four bytes, the
/// first four being 0, 1, 0, 0.
pub open spec fn looks_like_truetype(payload: Seq<u8>) -> bool {
    payload.len() > 4 && payload[0] == 0 && payload[1] == 1 && payload[2] == 0 && payload[3] == 0
}

/// What the resource called `name` with the inflated bytes `payload` seems to
/// be. The checks are made in this order, and the first that holds decides.
pub open spec fn classify(name: Seq<char>, payload: Seq<u8>) -> ResourceKind {
    if name.len() == 0 {
        ResourceKind::Configuration
    } else if looks_like_bitmap(payload) {
        ResourceKind::Bitmap {
            width: claimed_width(payload) as u16,
            height: claimed_height(payload) as u16,
            bits_per_pixel: (claimed_flags(payload) % 0x8000) as u16,
            transparent: claimed_flags(payload) >= 0x8000,
        }
    } else if looks_like_json(payload) {
        ResourceKind::Json
    } else if looks_like_opentype(payload) {
        ResourceKind::OpenTypeFont
    } else if looks_like_truetype(payload) {
        ResourceKind::TrueTypeFont
    } else {
        ResourceKind::Unknown
    }
}

/// When the answer is `Bitmap`: for a named resource whose payload passes for
/// a bitmap, and for no other. The numbers of the answer are then within
/// their bounds, and they are the numbers of the payload's first six bytes.
pub proof fn lemma_bitmap_answer(name: Seq<char>, payload: Seq<u8>)
    ensures
        classify(name, payload) is Bitmap <==> name.len() > 0 && looks_like_bitmap(payload),
        classify(name, payload) matches ResourceKind::Bitmap {
            width,
            height,
            bits_per_pixel,
            transparent,
        } ==> {
            &&& 0 < width < 4096
            &&& 0 < height < 4096
            &&& 0 < bits_per_pixel < 256
            &&& width == payload[0] + 256 * payload[1]
            &&& height == payload[2] + 256 * payload[3]
            &&& bits_per_pixel + (if transparent {
                0x8000int
            } else {
                0int
            }) == payload[4] + 256 * payload[5]
        },
{
}

/// The unnamed resource is the configuration, whatever its payload holds.
pub proof fn lemma_unnamed_is_configuration(payload: Seq<u8>)
    ensures
        classify(Seq::empty(), payload) == ResourceKind::Configuration,
{
}

/// The line that describes a kind to a reader. A question mark marks a guess.
pub open spec fn summary(kind: ResourceKind) -> Seq<char> {
    match kind {
        ResourceKind::Configuration => "Configuration"@,
        ResourceKind::Bitmap { width, height, bits_per_pixel, transparent } => "Bitmap "@
            + decimal(width as nat) + " x "@ + decimal(height as nat) + " "@ + decimal(
            bits_per_pixel as nat,
        ) + "bpp"@ + (if transparent {
            " *"@
        } else {
            Seq::empty()
        }),
        ResourceKind::TrueTypeFont => "TrueType font?"@,
        ResourceKind::OpenTypeFont => "OpenType font?"@,
        ResourceKind::Json => "JSON?"@,
        ResourceKind::Unknown => "Unknown"@,
    }
}

/// The 16-bit number at `at` in `bytes`, lowest byte first.
fn u16_at(bytes: &[u8], at: usize) -> (value: u16)
    requires
        at + 2 <= bytes@.len(),
    ensures
        value == le_u16(bytes@.subrange(at as int, at + 2)),
{
    let low: u16 = bytes[at] as u16;
    let high: u16 = bytes[at + 1] as u16;
    low + 256 * high
}

impl ResourceKind {
    /// Guesses what the resource of `header` is from its name and its
    /// inflated bytes. The same name and bytes always give the same answer.
    pub fn kind_of(header: &ResourceHeader, bytes: &[u8]) -> (kind: ResourceKind)
        ensures
            kind == classify(header.name@, bytes@),
    {
        if header.name.as_str().is_empty() {
            return ResourceKind::Configuration;
        }
        if bytes.len() > 8 {
            let w: u16 = u16_at(bytes, 0);
            let h: u16 = u16_at(bytes, 2);
            let rawbpp: u16 = u16_at(bytes, 4);
            let bpp: u16 = rawbpp & 0x7fff;
            assert(bpp == rawbpp % 0x8000) by (bit_vector)
                requires
                    bpp == rawbpp & 0x7fff,
            ;
            if w > 0 && w < 4096 && h > 0 && h < 4096 && bpp > 0 && bpp < 256 {
                return ResourceKind::Bitmap {
                    width: w,
                    height: h,
                    bits_per_pixel: bpp,
                    transparent: rawbpp >= 0x8000,
                };
            }
        }
        if bytes.len() > 2 && bytes[0] == 0x7b && bytes[1] == 0x22 {
            return ResourceKind::Json;
        }
        if bytes.len() > 4 && bytes[0] == 0x4f && bytes[1] == 0x54 && bytes[2] == 0x54 && bytes[3]
            == 0x4f {
            return ResourceKind::OpenTypeFont;
        }
        if bytes.len() > 4 && bytes[0] == 0 && bytes[1] == 1 && bytes[2] == 0 && bytes[3] == 0 {
            return ResourceKind::TrueTypeFont;
        }
        ResourceKind::Unknown
    }

    /// The line that describes this kind to a reader.
    pub fn to_string(&self) -> (line: String)
        ensures
            line@ == summary(*self),
    {
        match *self {
            ResourceKind::Configuration => String::from_str("Configuration"),
            ResourceKind::Bitmap { width, height, bits_per_pixel, transparent } => {
                let mut line = String::from_str("Bitmap ");
                push_decimal(&mut line, width as u64);
                line.append(" x ");
                push_decimal(&mut line, height as u64);
                line.append(" ");
                push_decimal(&mut line, bits_per_pixel as u64);
                line.append("bpp");
                if transparent {
                    line.append(" *");
                }
                assert(line@ =~= summary(*self));
                line
            },
            ResourceKind::TrueTypeFont => String::from_str("TrueType font?"),
            ResourceKind::OpenTypeFont => String::from_str("OpenType font?"),
            ResourceKind::Json => String::from_str("JSON?"),
            ResourceKind::Unknown => String::from_str("Unknown"),
        }
    }
}

} // verus!
