use bevy_world::audio_source::{AudioSource, Decodable, Mp3Loader};
use bevy_world::hdr_texture_loader::{
    one, rgb_to_rgba, HdrError, HdrTextureLoader, Image, TextureFormat,
};
use bevy_world::image_texture_loader::{
    file_extensions, format_of_extension, ImageFormat, ImageLoadError, ImageTextureLoader,
};
use bevy_world::shader::{
    finish_reflection, parsed_module, ParseRequest, Parsed, Shader, ShaderReflectError,
    ShaderReflection, ShaderStage, SourceForm, SpvShaderLoader, WgslShaderLoader,
    ADJUST_COORDINATE_SPACE, WRITER_FLAGS,
};

fn outside_format(format: ImageFormat) -> image::ImageFormat {
    match format {
        ImageFormat::Png => image::ImageFormat::Png,
        ImageFormat::Dds => image::ImageFormat::Dds,
        ImageFormat::Tga => image::ImageFormat::Tga,
        ImageFormat::Jpeg => image::ImageFormat::Jpeg,
        ImageFormat::Bmp => image::ImageFormat::Bmp,
    }
}

#[test]
fn test_supported_file_extensions() {
    let table = file_extensions();
    assert_eq!(table.len(), 5);
    let mut count = 0;
    for entry in &table {
        for ext in &entry.extensions {
            assert!(image::ImageFormat::from_extension(ext).is_some());
            assert_eq!(image::ImageFormat::from_extension(ext), Some(outside_format(entry.format)));
            assert_eq!(format_of_extension(ext), Some(entry.format));
            count += 1;
        }
    }
    assert_eq!(count, 6);
}

#[test]
fn extensions_are_looked_up_exactly() {
    assert_eq!(format_of_extension("png"), Some(ImageFormat::Png));
    assert_eq!(format_of_extension("dds"), Some(ImageFormat::Dds));
    assert_eq!(format_of_extension("tga"), Some(ImageFormat::Tga));
    assert_eq!(format_of_extension("jpg"), Some(ImageFormat::Jpeg));
    assert_eq!(format_of_extension("jpeg"), Some(ImageFormat::Jpeg));
    assert_eq!(format_of_extension("bmp"), Some(ImageFormat::Bmp));
    assert_eq!(format_of_extension("gif"), None);
    assert_eq!(format_of_extension("PNG"), None);
    assert_eq!(format_of_extension(""), None);
    assert_eq!(format_of_extension("jpe"), None);
    let loader = ImageTextureLoader(ImageFormat::Tga);
    assert_eq!(loader.format(), ImageFormat::Tga);
    assert_eq!(loader.version(), 1);
    assert_eq!(ImageTextureLoader::version_static(), 1);
}

#[test]
fn audio_sources_keep_the_bytes_of_the_file() {
    let loader = Mp3Loader::default();
    assert_eq!(Mp3Loader::version_static(), 1);
    assert_eq!(loader.version(), 1);
    let source = loader.import(vec![0xff, 0xfb, 0x90, 0x00]);
    assert_eq!(source.bytes, vec![0xff, 0xfb, 0x90, 0x00]);
    assert_eq!(source.as_ref(), &[0xff, 0xfb, 0x90, 0x00]);
    let copy: AudioSource = source.clone();
    assert_eq!(copy.bytes, source.bytes);
    assert_eq!(loader.import(Vec::new()).as_ref().len(), 0);
}

struct Beep(u8);

impl Decodable for Beep {
    type Decoder = Vec<u8>;

    fn decoder(&self) -> Vec<u8> {
        vec![self.0; 2]
    }
}

#[test]
fn a_decodable_type_makes_its_decoder() {
    assert_eq!(Beep(3).decoder(), vec![3, 3]);
}

#[test]
fn three_floats_become_four() {
    let rgb: Vec<u8> = (0u8..24).collect();
    let rgba = rgb_to_rgba(&rgb, [100, 101, 102, 103]);
    let mut expected: Vec<u8> = (0u8..12).collect();
    expected.extend_from_slice(&[100, 101, 102, 103]);
    expected.extend(12u8..24);
    expected.extend_from_slice(&[100, 101, 102, 103]);
    assert_eq!(rgba, expected);
    assert!(rgb_to_rgba(&[], [1, 2, 3, 4]).is_empty());
    // Bytes that make no whole pixel are left out.
    assert_eq!(rgb_to_rgba(&rgb[..23], [9, 9, 9, 9]).len(), 16);
    assert!(rgb_to_rgba(&rgb[..11], [9, 9, 9, 9]).is_empty());
}

fn hdr_file(dimensions: &str, pixels: &[u8]) -> Vec<u8> {
    let mut file = Vec::new();
    file.extend_from_slice(b"#?RADIANCE\nFORMAT=32-bit_rle_rgbe\n\n");
    file.extend_from_slice(dimensions.as_bytes());
    file.extend_from_slice(b"\n");
    file.extend_from_slice(pixels);
    file
}

fn decode_pixels(bytes: &[u8]) -> Result<Vec<u8>, image::error::ImageError> {
    let pixels = image::codecs::hdr::HdrDecoder::new(bytes)?.read_image_hdr()?;
    Ok(pixels.iter().flat_map(|p| p.0.iter().flat_map(|c| c.to_ne_bytes())).collect())
}

fn import_hdr(bytes: &[u8]) -> Result<Image, HdrError> {
    let loader = HdrTextureLoader::default();
    let size = loader.begin_import(bytes)?;
    loader.finish_import(size, decode_pixels(bytes))
}

#[test]
fn an_hdr_file_becomes_a_texture_of_four_floats() {
    let file = hdr_file("-Y 1 +X 2", &[128, 128, 128, 129, 64, 128, 0, 129]);
    let loader = HdrTextureLoader::default();
    assert_eq!(HdrTextureLoader::version_static(), 1);
    assert_eq!(loader.version(), 1);
    assert!(matches!(loader.begin_import(&file), Ok((2, 1))));
    let image = match import_hdr(&file) {
        Ok(image) => image,
        Err(_) => panic!("the file is a valid HDR file"),
    };
    assert_eq!(image.width, 2);
    assert_eq!(image.height, 1);
    assert_eq!(image.format, TextureFormat::Rgba32Float);
    assert_eq!(image.format.pixel_size(), 16);
    let mut expected = Vec::new();
    for value in [1.0f32, 1.0, 1.0, 1.0, 0.5, 1.0, 0.0, 1.0] {
        expected.extend_from_slice(&value.to_ne_bytes());
    }
    assert_eq!(image.data, expected);
    assert_eq!(one(), 1.0f32.to_ne_bytes());
}

#[test]
fn files_that_are_no_hdr_files_are_refused() {
    let loader = HdrTextureLoader::default();
    assert!(matches!(loader.begin_import(b"not an image"), Err(HdrError::Decode(_))));
    assert!(matches!(loader.begin_import(&[]), Err(HdrError::Decode(_))));
    // The header promises two pixels and the file holds one.
    let short = hdr_file("-Y 1 +X 2", &[128, 128, 128, 129]);
    assert!(matches!(loader.begin_import(&short), Ok((2, 1))));
    assert!(matches!(import_hdr(&short), Err(HdrError::Decode(_))));
    let huge = hdr_file("-Y 2147483648 +X 2147483648", &[]);
    assert!(matches!(loader.begin_import(&huge), Err(HdrError::TooLarge)));
    let empty = hdr_file("-Y 0 +X 0", &[]);
    match import_hdr(&empty) {
        Ok(image) => {
            assert_eq!((image.width, image.height), (0, 0));
            assert!(image.data.is_empty());
        }
        Err(_) => panic!("an empty image is an image"),
    }
}

#[test]
fn a_decoded_file_is_finished_as_the_decoder_left_it() {
    let loader = HdrTextureLoader::default();
    let image = match loader.finish_import((1, 1), Ok(vec![7; 12])) {
        Ok(image) => image,
        Err(_) => panic!("decoded pixels make a texture"),
    };
    assert_eq!((image.width, image.height), (1, 1));
    let mut expected = vec![7; 12];
    expected.extend_from_slice(&1.0f32.to_ne_bytes());
    assert_eq!(image.data, expected);
    assert!(matches!(loader.finish_import((1, 2), Ok(vec![7; 12])), Err(HdrError::WrongLength)));
    assert!(matches!(loader.finish_import((1, 1), Ok(vec![7; 13])), Err(HdrError::WrongLength)));
    assert!(matches!(loader.finish_import((0, 5), Ok(Vec::new())), Ok(_)));
    let error = image::error::ImageError::IoError(std::io::Error::new(
        std::io::ErrorKind::UnexpectedEof,
        "end",
    ));
    assert!(matches!(loader.finish_import((1, 1), Err(error)), Err(HdrError::Decode(_))));
}

#[test]
fn a_decoded_image_is_finished_as_the_decoder_left_it() {
    let loader = ImageTextureLoader(ImageFormat::Png);
    let mut file = Vec::new();
    image::DynamicImage::ImageRgba8(image::RgbaImage::from_raw(2, 1, vec![1, 2, 3, 4, 5, 6, 7, 8]).unwrap())
        .write_to(&mut file, image::ImageOutputFormat::Png)
        .unwrap();
    let decoded = image::load_from_memory_with_format(&file, outside_format(loader.format()))
        .map(|image| {
            let pixels = image.to_rgba8();
            (pixels.width(), pixels.height(), pixels.into_raw())
        });
    match loader.finish_import(decoded) {
        Ok(image) => {
            assert_eq!((image.width, image.height), (2, 1));
            assert_eq!(image.rgba, vec![1, 2, 3, 4, 5, 6, 7, 8]);
        }
        Err(_) => panic!("the file is a PNG file"),
    }
    assert!(matches!(
        loader.finish_import(Ok((2, 2, vec![0; 15]))),
        Err(ImageLoadError::WrongLength)
    ));
    assert!(matches!(
        loader.finish_import(image::load_from_memory_with_format(b"no", image::ImageFormat::Png)
            .map(|_| (0, 0, Vec::new()))),
        Err(ImageLoadError::Decode(_))
    ));
}

const WGSL: &str = "[[stage(fragment)]]\nfn main() -> [[location(0)]] vec4<f32> {\n    return vec4<f32>(1.0, 0.0, 0.0, 1.0);\n}\n";

const GLSL: &str = "#version 450\nvoid main() {\n    gl_Position = vec4(0.0, 0.0, 0.0, 1.0);\n}\n";

fn parse(request: ParseRequest) -> Parsed {
    match request {
        ParseRequest::Wgsl(source) => Parsed::Wgsl(naga::front::wgsl::parse_str(source)),
        ParseRequest::Glsl(source, stage) => {
            let stage = match stage {
                ShaderStage::Vertex => naga::ShaderStage::Vertex,
                ShaderStage::Fragment => naga::ShaderStage::Fragment,
                ShaderStage::Compute => naga::ShaderStage::Compute,
            };
            Parsed::Glsl(
                naga::front::glsl::Parser::default()
                    .parse(&naga::front::glsl::Options::from(stage), source),
            )
        }
        ParseRequest::SpirV(data, adjust_coordinate_space) => {
            let options = naga::front::spv::Options {
                adjust_coordinate_space,
                ..naga::front::spv::Options::default()
            };
            Parsed::SpirV(naga::front::spv::parse_u8_slice(data, &options))
        }
    }
}

fn reflect(shader: &Shader) -> Result<ShaderReflection, ShaderReflectError> {
    let module = parsed_module(parse(shader.parse_request()))?;
    let validated = naga::valid::Validator::new(
        naga::valid::ValidationFlags::default(),
        naga::valid::Capabilities::default(),
    )
    .validate(&module);
    finish_reflection(module, validated)
}

fn spirv_of(reflection: &ShaderReflection) -> Vec<u32> {
    let options = naga::back::spv::Options {
        flags: naga::back::spv::WriterFlags::from_bits_truncate(WRITER_FLAGS),
        ..naga::back::spv::Options::default()
    };
    naga::back::spv::write_vec(&reflection.module, &reflection.module_info, &options, None).unwrap()
}

#[test]
fn shaders_are_made_of_their_sources() {
    assert!(matches!(Shader::from_wgsl(WGSL.to_string()), Shader::Wgsl(s) if s == WGSL));
    assert!(matches!(
        Shader::from_glsl(GLSL.to_string(), ShaderStage::Vertex),
        Shader::Glsl(s, ShaderStage::Vertex) if s == GLSL
    ));
    assert!(matches!(Shader::from_spirv(vec![1, 2, 3]), Shader::SpirV(d) if d == vec![1, 2, 3]));
    let spv = SpvShaderLoader::default();
    assert_eq!(SpvShaderLoader::version_static(), 1);
    assert_eq!(spv.version(), 1);
    assert!(matches!(spv.import(vec![9, 8]), Shader::SpirV(d) if d == vec![9, 8]));
    let wgsl = WgslShaderLoader::default();
    assert_eq!(WgslShaderLoader::version_static(), 1);
    assert_eq!(wgsl.version(), 1);
    assert!(matches!(wgsl.import(WGSL.as_bytes()), Some(Shader::Wgsl(s)) if s == WGSL));
    assert!(wgsl.import(&[b'f', 0xff]).is_none());
}

#[test]
fn a_shader_asks_for_the_parser_of_its_language() {
    assert!(!ADJUST_COORDINATE_SPACE);
    assert_eq!(WRITER_FLAGS, 0);
    assert!(matches!(
        Shader::from_wgsl("a".to_string()).parse_request(),
        ParseRequest::Wgsl("a")
    ));
    assert!(matches!(
        Shader::from_glsl("b".to_string(), ShaderStage::Compute).parse_request(),
        ParseRequest::Glsl("b", ShaderStage::Compute)
    ));
    assert!(matches!(
        Shader::from_spirv(vec![1, 2]).parse_request(),
        ParseRequest::SpirV(&[1, 2], false)
    ));
    assert_eq!(Shader::from_wgsl("a".to_string()).source_form(), SourceForm::AsIs);
    assert_eq!(
        Shader::from_glsl("b".to_string(), ShaderStage::Vertex).source_form(),
        SourceForm::WrittenAsWgsl
    );
    assert_eq!(Shader::from_spirv(vec![]).source_form(), SourceForm::WrittenAsSpirV);
}

#[test]
fn a_shader_is_reflected_by_the_parser_of_its_language() {
    let wgsl = Shader::from_wgsl(WGSL.to_string());
    let reflection = match reflect(&wgsl) {
        Ok(r) => r,
        Err(_) => panic!("the WGSL shader is valid"),
    };
    // SPIR-V starts with its magic number.
    assert_eq!(spirv_of(&reflection)[0], 0x0723_0203);

    let glsl = Shader::from_glsl(GLSL.to_string(), ShaderStage::Vertex);
    assert!(reflect(&glsl).is_ok());

    assert!(matches!(
        reflect(&Shader::from_wgsl("fn".to_string())),
        Err(ShaderReflectError::WgslParse(_))
    ));
    assert!(matches!(
        reflect(&Shader::from_glsl("void main() {".to_string(), ShaderStage::Fragment)),
        Err(ShaderReflectError::GlslParse(_))
    ));
    assert!(matches!(
        reflect(&Shader::from_spirv(vec![1, 2, 3])),
        Err(ShaderReflectError::SpirVParse(_))
    ));
    assert!(matches!(
        reflect(&Shader::from_spirv(vec![0, 0, 0, 0])),
        Err(ShaderReflectError::SpirVParse(_))
    ));
}

#[test]
fn spirv_written_of_a_reflection_is_read_again() {
    let reflection = match reflect(&Shader::from_wgsl(WGSL.to_string())) {
        Ok(r) => r,
        Err(_) => panic!("the WGSL shader is valid"),
    };
    let mut bytes = Vec::new();
    for word in &spirv_of(&reflection) {
        bytes.extend_from_slice(&word.to_le_bytes());
    }
    let shader = SpvShaderLoader::default().import(bytes);
    assert!(reflect(&shader).is_ok());
}

#[test]
fn a_parse_outcome_becomes_the_module_or_the_error_of_its_language() {
    assert!(parsed_module(Parsed::Wgsl(Ok(naga::Module::default()))).is_ok());
    assert!(parsed_module(Parsed::Glsl(Ok(naga::Module::default()))).is_ok());
    assert!(parsed_module(Parsed::SpirV(Ok(naga::Module::default()))).is_ok());
    assert!(matches!(
        parsed_module(Parsed::Glsl(Err(Vec::new()))),
        Err(ShaderReflectError::GlslParse(e)) if e.is_empty()
    ));
    assert!(matches!(
        parsed_module(Parsed::SpirV(Err(naga::front::spv::Error::IncompleteData))),
        Err(ShaderReflectError::SpirVParse(naga::front::spv::Error::IncompleteData))
    ));
    assert!(matches!(
        parsed_module(parse(ParseRequest::Wgsl("?"))),
        Err(ShaderReflectError::WgslParse(_))
    ));
}

#[test]
fn a_validation_error_ends_the_reflection() {
    let module = naga::Module::default();
    let info = naga::valid::Validator::new(
        naga::valid::ValidationFlags::default(),
        naga::valid::Capabilities::default(),
    )
    .validate(&module);
    assert!(finish_reflection(module, info).is_ok());
    // The result of the entry point has no location.
    let source = "[[stage(fragment)]]\nfn main() -> vec4<f32> {\n    return vec4<f32>(1.0, 0.0, 0.0, 1.0);\n}\n";
    assert!(matches!(
        reflect(&Shader::from_wgsl(source.to_string())),
        Err(ShaderReflectError::Validation(_))
    ));
}

#[derive(Clone)]
struct Sound(AudioSource);

impl AsRef<[u8]> for Sound {
    fn as_ref(&self) -> &[u8] {
        self.0.as_ref()
    }
}

impl Decodable for Sound {
    type Decoder = Result<rodio::Decoder<std::io::Cursor<Sound>>, rodio::decoder::DecoderError>;

    fn decoder(&self) -> Self::Decoder {
        rodio::Decoder::new(std::io::Cursor::new(self.clone()))
    }
}

fn wav_file(samples: &[i16]) -> Vec<u8> {
    let data_len = (samples.len() * 2) as u32;
    let mut file = Vec::new();
    file.extend_from_slice(b"RIFF");
    file.extend_from_slice(&(36 + data_len).to_le_bytes());
    file.extend_from_slice(b"WAVEfmt ");
    file.extend_from_slice(&16u32.to_le_bytes());
    file.extend_from_slice(&1u16.to_le_bytes());
    file.extend_from_slice(&1u16.to_le_bytes());
    file.extend_from_slice(&8000u32.to_le_bytes());
    file.extend_from_slice(&16000u32.to_le_bytes());
    file.extend_from_slice(&2u16.to_le_bytes());
    file.extend_from_slice(&16u16.to_le_bytes());
    file.extend_from_slice(b"data");
    file.extend_from_slice(&data_len.to_le_bytes());
    for sample in samples {
        file.extend_from_slice(&sample.to_le_bytes());
    }
    file
}

#[test]
fn an_audio_source_is_decoded_from_its_bytes() {
    let source = Mp3Loader::default().import(wav_file(&[0, 1000, -1000, 0]));
    let decoder = match Sound(source).decoder() {
        Ok(decoder) => decoder,
        Err(_) => panic!("the bytes are a sound file"),
    };
    assert_eq!(decoder.count(), 4);
    let noise = Mp3Loader::default().import(vec![1, 2, 3, 4, 5]);
    assert!(Sound(noise).decoder().is_err());
}
