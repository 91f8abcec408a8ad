//! Per-unit compilation orchestration: the source text handed to the
//! backend, the artifact name an input file and stage map to, and the
//! decision whether a matched file takes part in the batch at all.

use vstd::prelude::*;
use vstd::string::*;

use crate::kind::ShaderKind;
use crate::kind::extension_of;
use crate::kind::get_shader_kind_extension;
use crate::splitter::LogicalUnit;
use crate::splitter::UnitModel;

verus! {

/// The text submitted to the backend for a unit: its synthesized source,
/// with a version pragma line prepended when a version was recorded.
pub open spec fn prepared_source(u: UnitModel) -> Seq<char> {
    match u.version {
        Some(v) => "#version "@ + v + "\n"@ + u.source,
        None => u.source,
    }
}

/// Whether compiling `u` prepends a version pragma, shifting every
/// backend-reported line number by one.
pub open spec fn version_prepended(u: UnitModel) -> bool {
    u.version is Some
}

/// Builds the text submitted to the backend for `unit`.
pub fn prepare_source(unit: &LogicalUnit) -> (r: String)
    ensures
        r@ == prepared_source(unit@),
{
    match &unit.version {
        Some(v) => {
            let mut s = String::from_str("#version ");
            s.append(v.as_str());
            s.append("\n");
            s.append(unit.source_text.as_str());
            s
        },
        None => unit.source_text.clone(),
    }
}

/// The artifact name for a stage of an input file: `<stem>-<ext>.spv`.
pub open spec fn output_name(stem: Seq<char>, kind: ShaderKind) -> Seq<char> {
    stem + "-"@ + extension_of(kind) + ".spv"@
}

/// Builds the artifact file name for `stem` and `kind`.
pub fn output_file_name(stem: &str, kind: ShaderKind) -> (r: String)
    ensures
        r@ == output_name(stem@, kind),
{
    let mut s = String::from_str(stem);
    s.append("-");
    match get_shader_kind_extension(kind) {
        Some(ext) => {
            s.append(ext.as_str());
        },
        None => {
            s = vstd::pervasive::unreached();
        },
    }
    s.append(".spv");
    s
}

/// The character's code with an ASCII upper-case letter lowered.
pub open spec fn lower_code(c: char) -> u32 {
    if 65 <= c as u32 && c as u32 <= 90 {
        (c as u32 + 32) as u32
    } else {
        c as u32
    }
}

/// ASCII case-insensitive string equality.
pub open spec fn eq_icase(a: Seq<char>, b: Seq<char>) -> bool {
    a.len() == b.len() && forall|k: int| 0 <= k < a.len() ==> lower_code(a[k]) == lower_code(#[trigger] b[k])
}

/// ASCII case-insensitive comparison; the executable counterpart of
/// [`eq_icase`].
pub fn eq_ignore_ascii_case(a: &str, b: &str) -> (r: bool)
    ensures
        r == eq_icase(a@, b@),
{
    let alen = a.unicode_len();
    let blen = b.unicode_len();
    if alen != blen {
        return false;
    }
    let mut i: usize = 0;
    while i < alen
        invariant
            alen == a@.len(),
            alen == b@.len(),
            i <= alen,
            forall|k: int| 0 <= k < i ==> lower_code(a@[k]) == lower_code(#[trigger] b@[k]),
        decreases alen - i,
    {
        let mut ca = a.get_char(i) as u32;
        let mut cb = b.get_char(i) as u32;
        if 65 <= ca && ca <= 90 {
            ca = ca + 32;
        }
        if 65 <= cb && cb <= 90 {
            cb = cb + 32;
        }
        if ca != cb {
            return false;
        }
        i += 1;
    }
    true
}

/// What the batch driver does with one matched file.
#[derive(Clone, Copy, PartialEq, Eq, Structural, Debug)]
pub enum FileAction {
    /// The file is split and its units are compiled.
    Compile,
    /// The file has an extension, but not the recognized one, and the
    /// override flag is off: skipped with a warning.
    SkipWrongExtension,
    /// The file has no extension at all and the override flag is off:
    /// skipped with a warning.
    SkipNoExtension,
}

/// The driver's decision for a file with the given extension.
pub open spec fn spec_file_action(extension: Option<Seq<char>>, ignore_extension: bool) -> FileAction {
    match extension {
        None => if ignore_extension {
            FileAction::Compile
        } else {
            FileAction::SkipNoExtension
        },
        Some(e) => if eq_icase(e, "glsl"@) || ignore_extension {
            FileAction::Compile
        } else {
            FileAction::SkipWrongExtension
        },
    }
}

/// Decides whether a matched file is compiled: only files whose extension is
/// `glsl` (in any letter case) take part, unless the override flag is set,
/// which admits every file, with any extension or none.
pub fn file_action(extension: Option<&str>, ignore_extension: bool) -> (r: FileAction)
    ensures
        r == spec_file_action(extension.deep_view(), ignore_extension),
{
    match extension {
        None => {
            if ignore_extension {
                FileAction::Compile
            } else {
                FileAction::SkipNoExtension
            }
        },
        Some(e) => {
            if eq_ignore_ascii_case(e, "glsl") || ignore_extension {
                FileAction::Compile
            } else {
                FileAction::SkipWrongExtension
            }
        },
    }
}

} // verus!
