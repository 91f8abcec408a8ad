use veshader::errors::CompilerError;
use veshader::kind::ShaderKind;
use veshader::splitter::split;

fn lines(v: &[&str]) -> Vec<String> {
    v.iter().map(|s| s.to_string()).collect()
}

#[test]
fn single_vertex_unit() {
    let input = lines(&["//# TYPE VERTEX", "void main() {", "}", ""]);
    let units = split(&input).unwrap();
    assert_eq!(units.len(), 1);
    assert_eq!(units[0].stage, ShaderKind::Vertex);
    assert_eq!(units[0].version, None);
    assert_eq!(units[0].source_text, "void main() {\n}");
    assert_eq!(units[0].line_map, vec![1, 2]);
}

#[test]
fn one_unit_per_stage_marker() {
    let input = lines(&[
        "//# TYPE VERTEX",
        "a",
        "//# TYPE FRAGMENT",
        "//# TYPE GEOMETRY",
        "b",
    ]);
    let units = split(&input).unwrap();
    assert_eq!(units.len(), 3);
    assert_eq!(units[0].stage, ShaderKind::Vertex);
    assert_eq!(units[0].source_text, "a");
    assert_eq!(units[1].stage, ShaderKind::Fragment);
    assert_eq!(units[1].source_text, "");
    assert_eq!(units[1].line_map, Vec::<usize>::new());
    assert_eq!(units[2].stage, ShaderKind::Geometry);
    assert_eq!(units[2].source_text, "b");
}

#[test]
fn version_persists_across_stage_switch() {
    let input = lines(&["//# VERSION 450", "//# TYPE VERTEX", "a", "//# TYPE FRAGMENT", "b"]);
    let units = split(&input).unwrap();
    assert_eq!(units.len(), 2);
    assert_eq!(units[0].version, Some("450".to_string()));
    assert_eq!(units[1].version, Some("450".to_string()));
}

#[test]
fn version_override_between_units() {
    let input = lines(&[
        "//# VERSION 450",
        "//# TYPE VERTEX",
        "a",
        "//# TYPE FRAGMENT",
        "//# VERSION 460",
        "b",
    ]);
    let units = split(&input).unwrap();
    assert_eq!(units.len(), 2);
    assert_eq!(units[0].version, Some("450".to_string()));
    assert_eq!(units[1].version, Some("460".to_string()));
}

#[test]
fn version_directive_before_switch_applies_to_open_unit() {
    // The version in force at flush time is the one the unit carries: a
    // version directive standing between a unit's content and the next stage
    // marker still overrides the open unit's version.
    let input = lines(&[
        "//# VERSION 450",
        "//# TYPE VERTEX",
        "a",
        "//# VERSION 460",
        "//# TYPE FRAGMENT",
        "b",
    ]);
    let units = split(&input).unwrap();
    assert_eq!(units.len(), 2);
    assert_eq!(units[0].version, Some("460".to_string()));
    assert_eq!(units[1].version, Some("460".to_string()));
}

#[test]
fn unknown_stage_keyword_aborts_file() {
    let input = lines(&["//# TYPE VERTEX", "a", "//# TYPE COMPUTE", "b"]);
    match split(&input) {
        Err(CompilerError::UnknownShaderType(t)) => assert_eq!(t, "COMPUTE"),
        _ => panic!("expected UnknownShaderType"),
    }
}

#[test]
fn unknown_stage_keyword_even_in_first_marker() {
    let input = lines(&["//# TYPE COMPUTE"]);
    assert!(matches!(
        split(&input),
        Err(CompilerError::UnknownShaderType(_))
    ));
}

#[test]
fn first_retained_line_is_kept_even_as_comment() {
    // The first accumulated line is taken unconditionally; only later lines
    // are filtered for blanks and comments.
    let input = lines(&["//# TYPE VERTEX", "// leading comment", "code"]);
    let units = split(&input).unwrap();
    assert_eq!(units[0].source_text, "// leading comment\ncode");
    assert_eq!(units[0].line_map, vec![1, 2]);
}

#[test]
fn blank_and_comment_lines_filtered_after_first() {
    let input = lines(&["//# TYPE VERTEX", "a", "", "// note", "b"]);
    let units = split(&input).unwrap();
    assert_eq!(units[0].source_text, "a\nb");
    assert_eq!(units[0].line_map, vec![1, 4]);
}

#[test]
fn blank_lines_never_open_a_unit() {
    let input = lines(&["//# TYPE VERTEX", "", "", "a"]);
    let units = split(&input).unwrap();
    assert_eq!(units[0].source_text, "a");
    assert_eq!(units[0].line_map, vec![3]);
}

#[test]
fn content_before_first_marker_is_discarded() {
    let input = lines(&["orphan line", "//# TYPE VERTEX", "a"]);
    let units = split(&input).unwrap();
    assert_eq!(units.len(), 1);
    assert_eq!(units[0].source_text, "a");
    assert_eq!(units[0].line_map, vec![2]);
}

#[test]
fn no_marker_means_no_units() {
    let input = lines(&["a", "b", "// c"]);
    let units = split(&input).unwrap();
    assert!(units.is_empty());
}

#[test]
fn sentinel_not_in_second_token_is_ignored() {
    // A line containing the sentinel is consumed as a directive line, but
    // the instruction is read from the second space-separated token only.
    let input = lines(&["code //# TYPE VERTEX", "//# TYPE FRAGMENT", "a"]);
    let units = split(&input).unwrap();
    assert_eq!(units.len(), 1);
    assert_eq!(units[0].stage, ShaderKind::Fragment);
    assert_eq!(units[0].source_text, "a");
}

#[test]
fn type_directive_without_argument_is_ignored() {
    let input = lines(&["//# TYPE", "//# TYPE VERTEX", "a"]);
    let units = split(&input).unwrap();
    assert_eq!(units.len(), 1);
    assert_eq!(units[0].stage, ShaderKind::Vertex);
}

#[test]
fn version_directive_without_argument_is_ignored() {
    let input = lines(&["//# VERSION", "//# TYPE VERTEX", "a"]);
    let units = split(&input).unwrap();
    assert_eq!(units.len(), 1);
    assert_eq!(units[0].version, None);
}

#[test]
fn line_map_has_one_entry_per_synthesized_line() {
    let input = lines(&["//# TYPE VERTEX", "a", "b", "", "c", "// x", "d"]);
    let units = split(&input).unwrap();
    let source = &units[0].source_text;
    let newline_count = source.chars().filter(|c| *c == '\n').count();
    assert_eq!(units[0].line_map.len(), newline_count + 1);
    assert_eq!(units[0].line_map, vec![1, 2, 4, 6]);
}
