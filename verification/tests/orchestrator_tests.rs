use veshader::kind::ShaderKind;
use veshader::orchestrator::FileAction;
use veshader::orchestrator::file_action;
use veshader::orchestrator::output_file_name;
use veshader::orchestrator::prepare_source;
use veshader::splitter::LogicalUnit;
use veshader::splitter::split;

#[test]
fn version_pragma_is_prepended() {
    let unit = LogicalUnit {
        stage: ShaderKind::Vertex,
        version: Some("450".to_string()),
        source_text: "void main() {\n}".to_string(),
        line_map: vec![1, 2],
    };
    assert_eq!(prepare_source(&unit), "#version 450\nvoid main() {\n}");
}

#[test]
fn source_without_version_is_unchanged() {
    let unit = LogicalUnit {
        stage: ShaderKind::Fragment,
        version: None,
        source_text: "void main() {\n}".to_string(),
        line_map: vec![1, 2],
    };
    assert_eq!(prepare_source(&unit), "void main() {\n}");
}

#[test]
fn artifact_names_follow_stem_and_stage() {
    assert_eq!(output_file_name("shader", ShaderKind::Vertex), "shader-vert.spv");
    assert_eq!(output_file_name("shader", ShaderKind::Fragment), "shader-frag.spv");
    assert_eq!(output_file_name("pbr", ShaderKind::Geometry), "pbr-geo.spv");
}

#[test]
fn vertex_sentinel_file_yields_one_vert_artifact_name() {
    let input: Vec<String> = ["//# TYPE VERTEX", "layout(location = 0) in vec3 p;", "void main() {", "}"]
        .iter()
        .map(|s| s.to_string())
        .collect();
    let units = split(&input).unwrap();
    assert_eq!(units.len(), 1);
    let name = output_file_name("shader", units[0].stage);
    assert_eq!(name, "shader-vert.spv");
}

#[test]
fn only_glsl_extension_is_compiled() {
    assert_eq!(file_action(Some("glsl"), false), FileAction::Compile);
    assert_eq!(file_action(Some("GLSL"), false), FileAction::Compile);
    assert_eq!(file_action(Some("GlSl"), false), FileAction::Compile);
    assert_eq!(file_action(Some("txt"), false), FileAction::SkipWrongExtension);
}

#[test]
fn ignore_extension_flag_admits_other_extensions() {
    assert_eq!(file_action(Some("txt"), true), FileAction::Compile);
    assert_eq!(file_action(Some("frag"), true), FileAction::Compile);
}

#[test]
fn extensionless_files_skipped_unless_flag_set() {
    assert_eq!(file_action(None, false), FileAction::SkipNoExtension);
    assert_eq!(file_action(None, true), FileAction::Compile);
}
