//! Setup-time option values: the Vulkan target version and the optimization
//! level requested on the command line.

use vstd::prelude::*;
use vstd::string::*;

use crate::errors::CliError;
use crate::text::str_eq;

verus! {

/// The Vulkan environment a shader is compiled for.
#[derive(Clone, Copy, PartialEq, Eq, Structural, Debug)]
pub enum TargetVersion {
    Vulkan1_0,
    Vulkan1_1,
    Vulkan1_2,
}

/// The backend's version bitmask: the major version in bits 22 and up, the
/// minor version in bits 12 and up.
pub open spec fn target_bitmask(v: TargetVersion) -> u32 {
    match v {
        TargetVersion::Vulkan1_0 => 0x40_0000,
        TargetVersion::Vulkan1_1 => 0x40_1000,
        TargetVersion::Vulkan1_2 => 0x40_2000,
    }
}

/// The target version named by a command-line token, if any; `vulkan` is an
/// alias for the oldest supported environment.
pub open spec fn target_of_token(s: Seq<char>) -> Option<TargetVersion> {
    if s == "vulkan"@ || s == "vulkan1_0"@ {
        Some(TargetVersion::Vulkan1_0)
    } else if s == "vulkan1_1"@ {
        Some(TargetVersion::Vulkan1_1)
    } else if s == "vulkan1_2"@ {
        Some(TargetVersion::Vulkan1_2)
    } else {
        None
    }
}

impl TargetVersion {
    /// The version bitmask the backend expects for this target.
    pub fn into_bitmask(self) -> (r: u32)
        ensures
            r == target_bitmask(self),
    {
        proof {
            assert(1u32 << 22 == 0x40_0000u32) by (bit_vector);
            assert(1u32 << 22 | 1u32 << 12 == 0x40_1000u32) by (bit_vector);
            assert(1u32 << 22 | 2u32 << 12 == 0x40_2000u32) by (bit_vector);
        }
        match self {
            TargetVersion::Vulkan1_0 => 1 << 22,
            TargetVersion::Vulkan1_1 => 1 << 22 | 1 << 12,
            TargetVersion::Vulkan1_2 => 1 << 22 | 2 << 12,
        }
    }

    /// Parses a command-line target-version token; an unknown token is the
    /// setup error that carries it.
    pub fn from_str(s: &str) -> (r: Result<TargetVersion, CliError>)
        ensures
            match r {
                Ok(v) => target_of_token(s@) == Some(v),
                Err(e) => {
                    &&& target_of_token(s@) is None
                    &&& e matches CliError::InvalidTarget(t)
                    &&& t@ == s@
                },
            },
    {
        if str_eq(s, "vulkan") || str_eq(s, "vulkan1_0") {
            Ok(TargetVersion::Vulkan1_0)
        } else if str_eq(s, "vulkan1_1") {
            Ok(TargetVersion::Vulkan1_1)
        } else if str_eq(s, "vulkan1_2") {
            Ok(TargetVersion::Vulkan1_2)
        } else {
            Err(CliError::InvalidTarget(String::from_str(s)))
        }
    }
}

impl Default for TargetVersion {
    /// The default target is the oldest supported environment.
    fn default() -> (r: Self)
        ensures
            r == TargetVersion::Vulkan1_0,
    {
        TargetVersion::Vulkan1_0
    }
}

/// How hard the backend optimizes.
#[derive(Clone, Copy, PartialEq, Eq, Structural, Debug)]
pub enum OptimizationLevel {
    Zero,
    Size,
    Performance,
}

/// The optimization level named by a command-line token, if any.
pub open spec fn optimization_of_token(s: Seq<char>) -> Option<OptimizationLevel> {
    if s == "zero"@ {
        Some(OptimizationLevel::Zero)
    } else if s == "size"@ {
        Some(OptimizationLevel::Size)
    } else if s == "performance"@ {
        Some(OptimizationLevel::Performance)
    } else {
        None
    }
}

/// Parses a command-line optimization-level token; an unknown token is
/// returned unconsumed as the error.
pub fn parse_optimization_level(level: &str) -> (r: Result<OptimizationLevel, String>)
    ensures
        match r {
            Ok(l) => optimization_of_token(level@) == Some(l),
            Err(t) => optimization_of_token(level@) is None && t@ == level@,
        },
{
    if str_eq(level, "zero") {
        Ok(OptimizationLevel::Zero)
    } else if str_eq(level, "size") {
        Ok(OptimizationLevel::Size)
    } else if str_eq(level, "performance") {
        Ok(OptimizationLevel::Performance)
    } else {
        Err(String::from_str(level))
    }
}

} // verus!
