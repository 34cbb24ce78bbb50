//! Textures made of image files, and the file extensions by which the format of an
//! image file is known.

use crate::component::str_eq;
use vstd::prelude::*;

verus! {

/// The format of an image file.
#[derive(Clone, Copy, Debug, PartialEq, Eq, Structural)]
pub enum ImageFormat {
    Png,
    Dds,
    Tga,
    Jpeg,
    Bmp,
}

/// Makes textures of image files of one format.
#[derive(Clone, Debug)]
pub struct ImageTextureLoader(pub ImageFormat);

impl ImageTextureLoader {
    /// The version of the loader.
    pub fn version_static() -> (v: u32)
        ensures
            v == 1,
    {
        1
    }

    /// The version of the loader.
    pub fn version(&self) -> (v: u32)
        ensures
            v == 1,
    {
        ImageTextureLoader::version_static()
    }

    /// The format of the files that the loader reads.
    pub fn format(&self) -> (f: ImageFormat)
        ensures
            f == self.0,
    {
        self.0
    }

    /// The last step of an import: the image made of what the decoder gave, the width,
    /// the height and the pixels of four bytes each, or its error. The error of the
    /// decoder is handed on, and pixels that do not fill the size are refused.
    ///
    /// The file is decoded by the embedding program: the decoders of the `image` crate
    /// can fail to return on files that no test of this library leaves out.
    pub fn finish_import(
        &self,
        decoded: Result<(u32, u32, Vec<u8>), image::error::ImageError>,
    ) -> (r: Result<DecodedImage, ImageLoadError>)
        ensures
            match decoded {
                Ok(d) => if d.2@.len() == d.0 * d.1 * 4 {
                    &&& r is Ok
                    &&& r->Ok_0.width == d.0
                    &&& r->Ok_0.height == d.1
                    &&& r->Ok_0.rgba == d.2
                } else {
                    r is Err && r->Err_0 is WrongLength
                },
                Err(e) => r is Err && r->Err_0 == ImageLoadError::Decode(e),
            },
    {
        match decoded {
            Ok((width, height, rgba)) => {
                let w: u128 = width as u128;
                let h: u128 = height as u128;
                assert(w * h <= 0xffff_ffff * 0xffff_ffff) by (nonlinear_arith)
                    requires
                        w <= 0xffff_ffff,
                        h <= 0xffff_ffff,
                ;
                if rgba.len() as u128 != w * h * 4 {
                    return Err(ImageLoadError::WrongLength);
                }
                Ok(DecodedImage { width, height, rgba })
            },
            Err(e) => Err(ImageLoadError::Decode(e)),
        }
    }
}

/// An image decoded to pixels of four bytes: red, green, blue and alpha.
#[derive(Debug)]
pub struct DecodedImage {
    pub width: u32,
    pub height: u32,
    pub rgba: Vec<u8>,
}

/// Why no image could be made of a file.
pub enum ImageLoadError {
    /// The file could not be decoded.
    Decode(image::error::ImageError),
    /// The decoder gave another number of pixels than the size it named.
    WrongLength,
}

/// The file extensions of a format.
pub struct FormatExtensions {
    pub extensions: Vec<&'static str>,
    pub format: ImageFormat,
}

/// The format of the files with extension `ext`, in lower case.
pub open spec fn format_of(ext: Seq<char>) -> Option<ImageFormat> {
    if ext == "png"@ {
        Some(ImageFormat::Png)
    } else if ext == "dds"@ {
        Some(ImageFormat::Dds)
    } else if ext == "tga"@ {
        Some(ImageFormat::Tga)
    } else if ext == "jpg"@ || ext == "jpeg"@ {
        Some(ImageFormat::Jpeg)
    } else if ext == "bmp"@ {
        Some(ImageFormat::Bmp)
    } else {
        None
    }
}

/// The extensions of `entry`, as character sequences.
pub open spec fn extensions_of(entry: FormatExtensions) -> Seq<Seq<char>> {
    Seq::new(entry.extensions@.len(), |j: int| entry.extensions@[j]@)
}

/// The supported formats with their file extensions: `png`, `dds`, `tga`, `jpg` and
/// `jpeg`, and `bmp`.
pub fn file_extensions() -> (table: Vec<FormatExtensions>)
    ensures
        table@.len() == 5,
        table@[0].format == ImageFormat::Png && extensions_of(table@[0]) == seq!["png"@],
        table@[1].format == ImageFormat::Dds && extensions_of(table@[1]) == seq!["dds"@],
        table@[2].format == ImageFormat::Tga && extensions_of(table@[2]) == seq!["tga"@],
        table@[3].format == ImageFormat::Jpeg && extensions_of(table@[3]) == seq![
            "jpg"@,
            "jpeg"@,
        ],
        table@[4].format == ImageFormat::Bmp && extensions_of(table@[4]) == seq!["bmp"@],
        forall|i: int, j: int|
            0 <= i < table@.len() && 0 <= j < table@[i].extensions@.len() ==> format_of(
                (#[trigger] table@[i].extensions@[j])@,
            ) == Some(table@[i].format),
{
    let mut table: Vec<FormatExtensions> = Vec::new();
    let mut png: Vec<&'static str> = Vec::new();
    png.push("png");
    table.push(FormatExtensions { extensions: png, format: ImageFormat::Png });
    let mut dds: Vec<&'static str> = Vec::new();
    dds.push("dds");
    table.push(FormatExtensions { extensions: dds, format: ImageFormat::Dds });
    let mut tga: Vec<&'static str> = Vec::new();
    tga.push("tga");
    table.push(FormatExtensions { extensions: tga, format: ImageFormat::Tga });
    let mut jpeg: Vec<&'static str> = Vec::new();
    jpeg.push("jpg");
    jpeg.push("jpeg");
    table.push(FormatExtensions { extensions: jpeg, format: ImageFormat::Jpeg });
    let mut bmp: Vec<&'static str> = Vec::new();
    bmp.push("bmp");
    table.push(FormatExtensions { extensions: bmp, format: ImageFormat::Bmp });
    proof {
        lemma_extensions_differ();
        assert(extensions_of(table@[0]) =~= seq!["png"@]);
        assert(extensions_of(table@[1]) =~= seq!["dds"@]);
        assert(extensions_of(table@[2]) =~= seq!["tga"@]);
        assert(extensions_of(table@[3]) =~= seq!["jpg"@, "jpeg"@]);
        assert(extensions_of(table@[4]) =~= seq!["bmp"@]);
    }
    table
}

/// The extensions of the table are six different strings.
proof fn lemma_extensions_differ()
    ensures
        "png"@ != "dds"@,
        "png"@ != "tga"@,
        "png"@ != "jpg"@,
        "png"@ != "jpeg"@,
        "png"@ != "bmp"@,
        "dds"@ != "tga"@,
        "dds"@ != "jpg"@,
        "dds"@ != "jpeg"@,
        "dds"@ != "bmp"@,
        "tga"@ != "jpg"@,
        "tga"@ != "jpeg"@,
        "tga"@ != "bmp"@,
        "jpg"@ != "jpeg"@,
        "jpg"@ != "bmp"@,
        "jpeg"@ != "bmp"@,
{
    reveal_strlit("png");
    reveal_strlit("dds");
    reveal_strlit("tga");
    reveal_strlit("jpg");
    reveal_strlit("jpeg");
    reveal_strlit("bmp");
    assert("png"@[0] == 'p' && "dds"@[0] == 'd' && "tga"@[0] == 't' && "jpg"@[0] == 'j'
        && "jpeg"@[0] == 'j' && "bmp"@[0] == 'b');
    assert("jpg"@.len() == 3 && "jpeg"@.len() == 4);
}

/// The format of the files with extension `ext`, in lower case; none where the
/// extension is of no supported format.
pub fn format_of_extension(ext: &str) -> (r: Option<ImageFormat>)
    ensures
        r == format_of(ext@),
{
    if str_eq(ext, "png") {
        Some(ImageFormat::Png)
    } else if str_eq(ext, "dds") {
        Some(ImageFormat::Dds)
    } else if str_eq(ext, "tga") {
        Some(ImageFormat::Tga)
    } else if str_eq(ext, "jpg") || str_eq(ext, "jpeg") {
        Some(ImageFormat::Jpeg)
    } else if str_eq(ext, "bmp") {
        Some(ImageFormat::Bmp)
    } else {
        None
    }
}

} // verus!
