use veshader::errors::CliError;
use veshader::kind::ShaderKind;
use veshader::kind::get_shader_kind_extension;
use veshader::kind::parse_shader_kind;
use veshader::options::OptimizationLevel;
use veshader::options::TargetVersion;
use veshader::options::parse_optimization_level;

#[test]
fn target_version_bitmasks() {
    assert_eq!(TargetVersion::Vulkan1_0.into_bitmask(), 1 << 22);
    assert_eq!(TargetVersion::Vulkan1_1.into_bitmask(), 1 << 22 | 1 << 12);
    assert_eq!(TargetVersion::Vulkan1_2.into_bitmask(), 1 << 22 | 2 << 12);
}

#[test]
fn target_version_parsing() {
    assert_eq!(TargetVersion::from_str("vulkan").unwrap(), TargetVersion::Vulkan1_0);
    assert_eq!(TargetVersion::from_str("vulkan1_0").unwrap(), TargetVersion::Vulkan1_0);
    assert_eq!(TargetVersion::from_str("vulkan1_1").unwrap(), TargetVersion::Vulkan1_1);
    assert_eq!(TargetVersion::from_str("vulkan1_2").unwrap(), TargetVersion::Vulkan1_2);
    match TargetVersion::from_str("vulkan2_0") {
        Err(CliError::InvalidTarget(t)) => assert_eq!(t, "vulkan2_0"),
        _ => panic!("expected InvalidTarget"),
    }
}

#[test]
fn target_version_default_is_oldest() {
    assert_eq!(TargetVersion::default(), TargetVersion::Vulkan1_0);
}

#[test]
fn optimization_level_parsing() {
    assert_eq!(parse_optimization_level("zero").unwrap(), OptimizationLevel::Zero);
    assert_eq!(parse_optimization_level("size").unwrap(), OptimizationLevel::Size);
    assert_eq!(
        parse_optimization_level("performance").unwrap(),
        OptimizationLevel::Performance
    );
    assert_eq!(parse_optimization_level("fast"), Err("fast".to_string()));
}

#[test]
fn shader_kind_parsing() {
    assert_eq!(parse_shader_kind("VERTEX"), Some(ShaderKind::Vertex));
    assert_eq!(parse_shader_kind("FRAGMENT"), Some(ShaderKind::Fragment));
    assert_eq!(parse_shader_kind("GEOMETRY"), Some(ShaderKind::Geometry));
    assert_eq!(parse_shader_kind("vertex"), None);
    assert_eq!(parse_shader_kind("COMPUTE"), None);
}

#[test]
fn shader_kind_extensions() {
    assert_eq!(get_shader_kind_extension(ShaderKind::Vertex).unwrap(), "vert");
    assert_eq!(get_shader_kind_extension(ShaderKind::Fragment).unwrap(), "frag");
    assert_eq!(get_shader_kind_extension(ShaderKind::Geometry).unwrap(), "geo");
}
