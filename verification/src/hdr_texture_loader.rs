//! Textures made of Radiance HDR files.
//!
//! The file is decoded to pixels of three 32-bit floats. The texture holds pixels of
//! four: red, green, blue, and an alpha of one. The library handles the floats as the
//! four bytes each is stored in.
//!
//! The header is read here. The pixels are decoded by the embedding program: the decoder
//! of the `image` crate can fail to return on files that no test of this library leaves
//! out, and this library does not panic. The library says beforehand whether the pixels
//! fit in memory, and makes the texture of what the decoder gave.

use vstd::prelude::*;
use vstd::slice::slice_subrange;

verus! {

/// The error of the `image` crate.
#[verifier::external_type_specification]
#[verifier::external_body]
pub struct ExImageError(image::error::ImageError);

/// The width and height that `image::codecs::hdr::HdrDecoder::new` reads from the header
/// of a file: none where it refuses the file.
pub uninterp spec fn hdr_size(bytes: Seq<u8>) -> Option<(u32, u32)>;

/// `image::codecs::hdr::HdrDecoder::new` reads the header of a Radiance HDR file, and
/// `metadata` gives the width and height read. The outcome depends on the bytes alone.
#[verifier::external_body]
fn read_hdr_size(bytes: &[u8]) -> (r: Result<(u32, u32), image::error::ImageError>)
    ensures
        hdr_size(bytes@) == (match r {
            Ok(size) => Some(size),
            Err(_) => None,
        }),
{
    let decoder = image::codecs::hdr::HdrDecoder::new(bytes)?;
    let meta = decoder.metadata();
    Ok((meta.width, meta.height))
}

/// The bytes of `x` from the lowest to the highest.
pub open spec fn le_bytes(x: u32) -> Seq<u8> {
    seq![
        (x & 0xff) as u8,
        ((x >> 8) & 0xff) as u8,
        ((x >> 16) & 0xff) as u8,
        ((x >> 24) & 0xff) as u8,
    ]
}

/// `u32::to_ne_bytes` gives the bytes of an integer in the byte order of the machine:
/// from the lowest to the highest, or from the highest to the lowest.
#[verifier::external_body]
fn native_bytes(x: u32) -> (r: [u8; 4])
    ensures
        r@ == le_bytes(x) || r@ == le_bytes(x).reverse(),
{
    x.to_ne_bytes()
}

/// The bits of the float one.
pub const ONE_BITS: u32 = 0x3f80_0000;

/// Whether `a` is the float one as it is stored on a machine of either byte order.
pub open spec fn is_one(a: Seq<u8>) -> bool {
    a == seq![0u8, 0u8, 0x80u8, 0x3fu8] || a == seq![0x3fu8, 0x80u8, 0u8, 0u8]
}

/// The format of the pixels of a texture.
#[derive(Clone, Copy, Debug, PartialEq, Eq, Structural)]
pub enum TextureFormat {
    /// Red, green, blue and alpha, each a 32-bit float.
    Rgba32Float,
}

impl TextureFormat {
    /// The size of one pixel in bytes.
    pub fn pixel_size(&self) -> (n: usize)
        ensures
            n == 16,
    {
        match self {
            TextureFormat::Rgba32Float => 16,
        }
    }
}

/// A texture of two dimensions with its pixels.
#[derive(Debug)]
pub struct Image {
    pub width: u32,
    pub height: u32,
    pub data: Vec<u8>,
    pub format: TextureFormat,
}

/// The pixels of `rgb` with `alpha` after each: every twelve bytes of `rgb` become
/// sixteen. Bytes at the end of `rgb` that make no whole pixel are left out.
pub open spec fn rgba_of(rgb: Seq<u8>, alpha: Seq<u8>) -> Seq<u8> {
    Seq::new(
        (rgb.len() / 12 * 16) as nat,
        |i: int|
            if i % 16 < 12 {
                rgb[i / 16 * 12 + i % 16]
            } else {
                alpha[i % 16 - 12]
            },
    )
}

/// The pixels of `rgb`, each of three floats, as pixels of four: `alpha` is put after
/// every pixel.
pub fn rgb_to_rgba(rgb: &[u8], alpha: [u8; 4]) -> (rgba: Vec<u8>)
    ensures
        rgba@ == rgba_of(rgb@, alpha@),
{
    let total = rgb.len();
    let pixels = total / 12;
    let mut rgba: Vec<u8> = Vec::new();
    let mut p: usize = 0;
    while p < pixels
        invariant
            p <= pixels,
            total == rgb@.len(),
            pixels == rgb@.len() / 12,
            rgba@.len() == p * 16,
            forall|i: int| 0 <= i < rgba@.len() ==> rgba@[i] == rgba_of(rgb@, alpha@)[i],
        decreases pixels - p,
    {
        let ghost before = rgba@;
        let start = p * 12;
        rgba.extend_from_slice(slice_subrange(rgb, start, start + 12));
        rgba.push(alpha[0]);
        rgba.push(alpha[1]);
        rgba.push(alpha[2]);
        rgba.push(alpha[3]);
        proof {
            assert forall|i: int| 0 <= i < rgba@.len() implies rgba@[i] == rgba_of(
                rgb@,
                alpha@,
            )[i] by {
                if i >= before.len() {
                    let k = i - p * 16;
                    assert(0 <= k < 16);
                    assert(i / 16 == p && i % 16 == k);
                    if k < 12 {
                        assert(rgba@[i] == rgb@[start + k]);
                    }
                } else {
                    assert(rgba@[i] == before[i]);
                }
            }
        }
        p = p + 1;
    }
    assert(rgba@ =~= rgba_of(rgb@, alpha@));
    rgba
}

/// Why no texture could be made of a file.
pub enum HdrError {
    /// The file could not be decoded.
    Decode(image::error::ImageError),
    /// The pixels of the texture would not fit in memory.
    TooLarge,
    /// The decoder gave another number of pixels than the header names.
    WrongLength,
}

/// The float one as it is stored on this machine.
pub fn one() -> (alpha: [u8; 4])
    ensures
        is_one(alpha@),
        alpha@ == le_bytes(ONE_BITS) || alpha@ == le_bytes(ONE_BITS).reverse(),
{
    let alpha = native_bytes(ONE_BITS);
    proof {
        assert(ONE_BITS & 0xff == 0) by (bit_vector)
            requires
                ONE_BITS == 0x3f80_0000u32,
        ;
        assert((ONE_BITS >> 8) & 0xff == 0) by (bit_vector)
            requires
                ONE_BITS == 0x3f80_0000u32,
        ;
        assert((ONE_BITS >> 16) & 0xff == 0x80) by (bit_vector)
            requires
                ONE_BITS == 0x3f80_0000u32,
        ;
        assert((ONE_BITS >> 24) & 0xff == 0x3f) by (bit_vector)
            requires
                ONE_BITS == 0x3f80_0000u32,
        ;
        assert(le_bytes(ONE_BITS) =~= seq![0u8, 0u8, 0x80u8, 0x3fu8]);
        assert(le_bytes(ONE_BITS).reverse() =~= seq![0x3fu8, 0x80u8, 0u8, 0u8]);
    }
    alpha
}

/// Whether a texture of `size` fits in memory: its sixteen bytes for each pixel are no
/// more than an allocation can hold.
pub open spec fn fits(size: (u32, u32)) -> bool {
    size.0 * size.1 * 16 <= isize::MAX
}

/// Makes textures of Radiance HDR files.
#[derive(Clone, Debug, Default)]
pub struct HdrTextureLoader;

impl HdrTextureLoader {
    /// The version of the loader.
    pub fn version_static() -> (v: u32)
        ensures
            v == 1,
    {
        1
    }

    /// The version of the loader.
    pub fn version(&self) -> (v: u32)
        ensures
            v == 1,
    {
        HdrTextureLoader::version_static()
    }

    /// The first step of an import: the size of the texture, read from the header of the
    /// file. A file whose header is refused gives the error of the decoder; one whose
    /// pixels would not fit in memory is too large, and its pixels are not to be
    /// decoded.
    pub fn begin_import(&self, bytes: &[u8]) -> (r: Result<(u32, u32), HdrError>)
        ensures
            match hdr_size(bytes@) {
                None => r is Err && r->Err_0 is Decode,
                Some(size) => if fits(size) {
                    r is Ok && r->Ok_0 == size
                } else {
                    r is Err && r->Err_0 is TooLarge
                },
            },
    {
        let size = match read_hdr_size(bytes) {
            Ok(size) => size,
            Err(e) => {
                return Err(HdrError::Decode(e));
            },
        };
        let limit: u128 = isize::MAX as u128;
        let width: u128 = size.0 as u128;
        let height: u128 = size.1 as u128;
        assert(width * height <= 0xffff_ffff * 0xffff_ffff) by (nonlinear_arith)
            requires
                width <= 0xffff_ffff,
                height <= 0xffff_ffff,
        ;
        if width * height * 16 > limit {
            return Err(HdrError::TooLarge);
        }
        Ok(size)
    }

    /// The last step of an import: the texture of `size` made of what the decoder gave,
    /// the pixels of three floats each as bytes, or its error. The error of the decoder
    /// is handed on. Pixels that do not fill the size are refused. Otherwise the texture
    /// holds the pixels with the float one, as this machine stores it, after each.
    pub fn finish_import(
        &self,
        size: (u32, u32),
        pixels: Result<Vec<u8>, image::error::ImageError>,
    ) -> (r: Result<Image, HdrError>)
        ensures
            match pixels {
                Ok(rgb) => if rgb@.len() == size.0 * size.1 * 12 {
                    &&& r is Ok
                    &&& r->Ok_0.width == size.0
                    &&& r->Ok_0.height == size.1
                    &&& r->Ok_0.format == TextureFormat::Rgba32Float
                    &&& r->Ok_0.data@.len() == size.0 * size.1 * 16
                    &&& (r->Ok_0.data@ == rgba_of(rgb@, le_bytes(ONE_BITS)) || r->Ok_0.data@
                        == rgba_of(rgb@, le_bytes(ONE_BITS).reverse()))
                } else {
                    r is Err && r->Err_0 is WrongLength
                },
                Err(e) => r is Err && r->Err_0 == HdrError::Decode(e),
            },
    {
        match pixels {
            Ok(rgb) => {
                let width: u128 = size.0 as u128;
                let height: u128 = size.1 as u128;
                assert(width * height <= 0xffff_ffff * 0xffff_ffff) by (nonlinear_arith)
                    requires
                        width <= 0xffff_ffff,
                        height <= 0xffff_ffff,
                ;
                if rgb.len() as u128 != width * height * 12 {
                    return Err(HdrError::WrongLength);
                }
                let data = rgb_to_rgba(rgb.as_slice(), one());
                proof {
                    let n = size.0 * size.1;
                    assert(n * 12 / 12 * 16 == n * 16);
                }
                Ok(Image { width: size.0, height: size.1, data, format: TextureFormat::Rgba32Float })
            },
            Err(e) => Err(HdrError::Decode(e)),
        }
    }
}

} // verus!
