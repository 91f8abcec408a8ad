//! Error types for the per-file compilation pipeline.

use vstd::prelude::*;

verus! {

/// A per-shader error: recovered at the file or unit boundary by the caller.
#[derive(Debug)]
pub enum CompilerError {
    /// The file could not be read; carries the reading error's message.
    FileRead(String),
    /// A stage-type directive carried a keyword that names no known stage;
    /// the whole file is abandoned and none of its units is compiled.
    UnknownShaderType(String),
    /// The backend rejected a unit; the diagnostic's line reference has been
    /// rewritten to point into the original file.
    Compilation(String),
    /// The backend diagnostic broke the `:<digits>:` protocol, or its line
    /// reference fell outside the unit's line map; fatal for that unit.
    BackendProtocolViolation(String),
}

/// A setup error: fatal for the whole run.
#[derive(Debug)]
pub enum CliError {
    /// The requested target version names no known Vulkan target.
    InvalidTarget(String),
}

} // verus!
