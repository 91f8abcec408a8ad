//! Batch GLSL shader preprocessor: splits a single multi-stage shader file
//! into logical per-stage source units, tracks a mapping from synthesized
//! line numbers back to the original file, and rewrites backend diagnostics
//! through that mapping.

pub mod diagnostics;
pub mod errors;
pub mod kind;
pub mod options;
pub mod orchestrator;
pub mod splitter;
pub mod text;

pub use kind::ShaderKind;
pub use kind::parse_shader_kind;
pub use kind::get_shader_kind_extension;
