//! Shaders in the languages they are written in, and the steps by which a shader is
//! reflected: parsed, then validated.
//!
//! The parsers, the validator and the writers of `naga` are not called here. They can
//! fail to return on sources that no test of this library leaves out, and this library
//! does not panic. The embedding program makes each call and hands the outcome to this
//! module, which says what is to be parsed and how, and what each outcome means.

use crate::ffi::{decode_name, name_of};
use vstd::prelude::*;

verus! {

/// The module that `naga` makes of a shader, of which nothing is read here.
#[verifier::external_type_specification]
#[verifier::external_body]
pub struct ExModule(naga::Module);

/// What `naga` learns of a module by validating it, of which nothing is read here.
#[verifier::external_type_specification]
#[verifier::external_body]
pub struct ExModuleInfo(naga::valid::ModuleInfo);

/// The error of the WGSL parser of `naga`.
#[verifier::external_type_specification]
#[verifier::external_body]
pub struct ExWgslParseError(naga::front::wgsl::ParseError);

/// An error of the GLSL parser of `naga`.
#[verifier::external_type_specification]
#[verifier::external_body]
pub struct ExGlslError(naga::front::glsl::Error);

/// The error of the SPIR-V parser of `naga`.
#[verifier::external_type_specification]
#[verifier::external_body]
pub struct ExSpvParseError(naga::front::spv::Error);

/// The error of the validator of `naga`.
#[verifier::external_type_specification]
#[verifier::external_body]
pub struct ExValidationError(naga::valid::ValidationError);

/// An error of `naga` together with the places in the source that it is about.
#[verifier::external_type_specification]
#[verifier::external_body]
#[verifier::reject_recursive_types(E)]
pub struct ExWithSpan<E>(naga::WithSpan<E>);

/// The stage of the pipeline that a shader is written for.
#[derive(Clone, Copy, Debug, PartialEq, Eq, Structural)]
pub enum ShaderStage {
    Vertex,
    Fragment,
    Compute,
}

/// Whether the SPIR-V parser adjusts the coordinate space of a shader: it does not.
pub const ADJUST_COORDINATE_SPACE: bool = false;

/// The flags with which a reflected shader is written as SPIR-V or WGSL: none.
pub const WRITER_FLAGS: u32 = 0;

/// Why a shader could not be reflected.
pub enum ShaderReflectError {
    WgslParse(naga::front::wgsl::ParseError),
    GlslParse(Vec<naga::front::glsl::Error>),
    SpirVParse(naga::front::spv::Error),
    Validation(naga::WithSpan<naga::valid::ValidationError>),
}

/// A shader as a mathematical value.
pub enum ShaderView {
    Wgsl(Seq<char>),
    Glsl(Seq<char>, ShaderStage),
    SpirV(Seq<u8>),
}

/// A shader, in the language it is written in.
#[derive(Debug)]
pub enum Shader {
    Wgsl(String),
    Glsl(String, ShaderStage),
    SpirV(Vec<u8>),
}

impl View for Shader {
    type V = ShaderView;

    open spec fn view(&self) -> ShaderView {
        match self {
            Shader::Wgsl(source) => ShaderView::Wgsl(source@),
            Shader::Glsl(source, stage) => ShaderView::Glsl(source@, *stage),
            Shader::SpirV(data) => ShaderView::SpirV(data@),
        }
    }
}

/// What is handed to a parser.
pub enum ParseRequest<'a> {
    /// A source for the WGSL parser.
    Wgsl(&'a str),
    /// A source for the GLSL parser, with the stage that the options are made of.
    Glsl(&'a str, ShaderStage),
    /// Bytes for the SPIR-V parser, and whether it adjusts the coordinate space.
    SpirV(&'a [u8], bool),
}

/// A parse request as a mathematical value.
pub enum ParseRequestView {
    Wgsl(Seq<char>),
    Glsl(Seq<char>, ShaderStage),
    SpirV(Seq<u8>, bool),
}

impl<'a> View for ParseRequest<'a> {
    type V = ParseRequestView;

    open spec fn view(&self) -> ParseRequestView {
        match self {
            ParseRequest::Wgsl(source) => ParseRequestView::Wgsl(source@),
            ParseRequest::Glsl(source, stage) => ParseRequestView::Glsl(source@, *stage),
            ParseRequest::SpirV(data, adjust) => ParseRequestView::SpirV(data@, *adjust),
        }
    }
}

/// What a parser made of a request.
pub enum Parsed {
    Wgsl(Result<naga::Module, naga::front::wgsl::ParseError>),
    Glsl(Result<naga::Module, Vec<naga::front::glsl::Error>>),
    SpirV(Result<naga::Module, naga::front::spv::Error>),
}

/// A parsed and validated shader.
pub struct ShaderReflection {
    pub module: naga::Module,
    pub module_info: naga::valid::ModuleInfo,
}

/// What becomes of a shader on its way to the graphics device.
#[derive(Clone, Copy, Debug, PartialEq, Eq, Structural)]
pub enum SourceForm {
    /// The source is handed on as it is.
    AsIs,
    /// The shader is reflected and written as WGSL.
    WrittenAsWgsl,
    /// The shader is reflected and written as SPIR-V.
    WrittenAsSpirV,
}

/// The module to validate, or the error of the shader's reflection, given what the
/// parser made of the shader: the module that was parsed, or the parse error of the
/// language.
pub fn parsed_module(parsed: Parsed) -> (r: Result<naga::Module, ShaderReflectError>)
    ensures
        r == (match parsed {
            Parsed::Wgsl(Ok(module)) => Ok::<naga::Module, ShaderReflectError>(module),
            Parsed::Wgsl(Err(e)) => Err(ShaderReflectError::WgslParse(e)),
            Parsed::Glsl(Ok(module)) => Ok(module),
            Parsed::Glsl(Err(e)) => Err(ShaderReflectError::GlslParse(e)),
            Parsed::SpirV(Ok(module)) => Ok(module),
            Parsed::SpirV(Err(e)) => Err(ShaderReflectError::SpirVParse(e)),
        }),
{
    match parsed {
        Parsed::Wgsl(Ok(module)) => Ok(module),
        Parsed::Wgsl(Err(e)) => Err(ShaderReflectError::WgslParse(e)),
        Parsed::Glsl(Ok(module)) => Ok(module),
        Parsed::Glsl(Err(e)) => Err(ShaderReflectError::GlslParse(e)),
        Parsed::SpirV(Ok(module)) => Ok(module),
        Parsed::SpirV(Err(e)) => Err(ShaderReflectError::SpirVParse(e)),
    }
}

/// The reflection made of a parsed module and of what its validation gave: the module
/// with what was learnt of it, or the error of the validation.
pub fn finish_reflection(
    module: naga::Module,
    validated: Result<naga::valid::ModuleInfo, naga::WithSpan<naga::valid::ValidationError>>,
) -> (r: Result<ShaderReflection, ShaderReflectError>)
    ensures
        match validated {
            Ok(info) => r is Ok && r->Ok_0.module == module && r->Ok_0.module_info == info,
            Err(e) => r is Err && r->Err_0 == ShaderReflectError::Validation(e),
        },
{
    match validated {
        Ok(module_info) => Ok(ShaderReflection { module, module_info }),
        Err(e) => Err(ShaderReflectError::Validation(e)),
    }
}

impl Shader {
    /// What is handed to the parser of the shader's language: the source, with the
    /// stage for GLSL; and for SPIR-V the bytes, parsed without the adjustment of the
    /// coordinate space.
    pub fn parse_request(&self) -> (r: ParseRequest<'_>)
        ensures
            r@ == (match self@ {
                ShaderView::Wgsl(source) => ParseRequestView::Wgsl(source),
                ShaderView::Glsl(source, stage) => ParseRequestView::Glsl(source, stage),
                ShaderView::SpirV(data) => ParseRequestView::SpirV(data, ADJUST_COORDINATE_SPACE),
            }),
    {
        match self {
            Shader::Wgsl(source) => ParseRequest::Wgsl(source.as_str()),
            Shader::Glsl(source, stage) => ParseRequest::Glsl(source.as_str(), *stage),
            Shader::SpirV(data) => ParseRequest::SpirV(data.as_slice(), ADJUST_COORDINATE_SPACE),
        }
    }

    /// What becomes of the shader on its way to the graphics device: WGSL is handed on
    /// as it is, GLSL is reflected and written as WGSL, and SPIR-V is reflected and
    /// written as SPIR-V.
    pub fn source_form(&self) -> (form: SourceForm)
        ensures
            form == (match self@ {
                ShaderView::Wgsl(_) => SourceForm::AsIs,
                ShaderView::Glsl(_, _) => SourceForm::WrittenAsWgsl,
                ShaderView::SpirV(_) => SourceForm::WrittenAsSpirV,
            }),
    {
        match self {
            Shader::Wgsl(_) => SourceForm::AsIs,
            Shader::Glsl(_, _) => SourceForm::WrittenAsWgsl,
            Shader::SpirV(_) => SourceForm::WrittenAsSpirV,
        }
    }

    /// The shader made of a WGSL source.
    pub fn from_wgsl(source: String) -> (s: Shader)
        ensures
            s@ == ShaderView::Wgsl(source@),
    {
        Shader::Wgsl(source)
    }

    /// The shader made of a GLSL source for `stage`.
    pub fn from_glsl(source: String, stage: ShaderStage) -> (s: Shader)
        ensures
            s@ == ShaderView::Glsl(source@, stage),
    {
        Shader::Glsl(source, stage)
    }

    /// The shader made of SPIR-V given as bytes.
    pub fn from_spirv(source: Vec<u8>) -> (s: Shader)
        ensures
            s@ == ShaderView::SpirV(source@),
    {
        Shader::SpirV(source)
    }
}

/// Makes shaders of the bytes of SPIR-V files.
#[derive(Debug, Default)]
pub struct SpvShaderLoader;

impl SpvShaderLoader {
    /// The version of the loader.
    pub fn version_static() -> (v: u32)
        ensures
            v == 1,
    {
        1
    }

    /// The version of the loader.
    pub fn version(&self) -> (v: u32)
        ensures
            v == 1,
    {
        SpvShaderLoader::version_static()
    }

    /// The shader made of the bytes read from a SPIR-V file.
    pub fn import(&self, bytes: Vec<u8>) -> (shader: Shader)
        ensures
            shader@ == ShaderView::SpirV(bytes@),
    {
        Shader::from_spirv(bytes)
    }
}

/// Makes shaders of the bytes of WGSL files.
#[derive(Debug, Default)]
pub struct WgslShaderLoader;

impl WgslShaderLoader {
    /// The version of the loader.
    pub fn version_static() -> (v: u32)
        ensures
            v == 1,
    {
        1
    }

    /// The version of the loader.
    pub fn version(&self) -> (v: u32)
        ensures
            v == 1,
    {
        WgslShaderLoader::version_static()
    }

    /// The shader made of the bytes read from a WGSL file; none where the bytes are not
    /// UTF-8.
    pub fn import(&self, bytes: &[u8]) -> (shader: Option<Shader>)
        ensures
            match name_of(bytes@) {
                Some(source) => shader is Some && shader.unwrap()@ == ShaderView::Wgsl(source),
                None => shader is None,
            },
    {
        match decode_name(bytes) {
            Some(source) => Some(Shader::from_wgsl(source.to_owned())),
            None => None,
        }
    }
}

} // verus!
