//! Shader stage kinds: the three recognized pipeline stages, the keyword
//! parser for stage directives, and the output-file extension of each stage.

use vstd::prelude::*;
use vstd::string::*;

use crate::text::str_eq;

verus! {

/// A shader pipeline stage recognized by the stage-type directive.
#[derive(Clone, Copy, PartialEq, Eq, Structural, Debug)]
pub enum ShaderKind {
    Vertex,
    Fragment,
    Geometry,
}

/// The stage named by a stage-type directive argument, if any.
pub open spec fn kind_of_token(tok: Seq<char>) -> Option<ShaderKind> {
    if tok == "VERTEX"@ {
        Some(ShaderKind::Vertex)
    } else if tok == "FRAGMENT"@ {
        Some(ShaderKind::Fragment)
    } else if tok == "GEOMETRY"@ {
        Some(ShaderKind::Geometry)
    } else {
        None
    }
}

/// Parses a stage-type keyword (`VERTEX`, `FRAGMENT`, `GEOMETRY`).
pub fn parse_shader_kind(identifier: &str) -> (r: Option<ShaderKind>)
    ensures
        r == kind_of_token(identifier@),
{
    if str_eq(identifier, "VERTEX") {
        Some(ShaderKind::Vertex)
    } else if str_eq(identifier, "FRAGMENT") {
        Some(ShaderKind::Fragment)
    } else if str_eq(identifier, "GEOMETRY") {
        Some(ShaderKind::Geometry)
    } else {
        None
    }
}

/// The artifact-name extension of each stage.
pub open spec fn extension_of(kind: ShaderKind) -> Seq<char> {
    match kind {
        ShaderKind::Vertex => "vert"@,
        ShaderKind::Fragment => "frag"@,
        ShaderKind::Geometry => "geo"@,
    }
}

/// The output-file extension for a stage; every recognized stage has one.
pub fn get_shader_kind_extension(kind: ShaderKind) -> (r: Option<String>)
    ensures
        r matches Some(s) && s@ == extension_of(kind),
{
    match kind {
        ShaderKind::Vertex => Some(String::from_str("vert")),
        ShaderKind::Fragment => Some(String::from_str("frag")),
        ShaderKind::Geometry => Some(String::from_str("geo")),
    }
}

} // verus!
