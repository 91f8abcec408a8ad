use veshader::diagnostics::decimal_string;
use veshader::diagnostics::find_line_ref;
use veshader::diagnostics::rewrite_backend_error;
use veshader::diagnostics::translate_diagnostic;
use veshader::errors::CompilerError;

#[test]
fn cited_line_two_maps_to_original_seven() {
    let map: Vec<usize> = vec![5, 7, 8];
    let out = translate_diagnostic(":2: unexpected token", &map, false);
    assert_eq!(out, Some(":7: unexpected token".to_string()));
}

#[test]
fn prepended_version_shifts_reference_by_one() {
    let map: Vec<usize> = vec![5, 7, 8];
    let out = translate_diagnostic(":2: unexpected token", &map, true);
    assert_eq!(out, Some(":5: unexpected token".to_string()));
}

#[test]
fn reference_to_prepended_pragma_stays_unchanged() {
    let map: Vec<usize> = vec![5, 7, 8];
    let out = translate_diagnostic(":1: bad pragma", &map, true);
    assert_eq!(out, Some(":1: bad pragma".to_string()));
}

#[test]
fn only_first_reference_is_rewritten() {
    let map: Vec<usize> = vec![10, 20, 30];
    let out = translate_diagnostic("shader.glsl:3:4: error: ';' expected", &map, false);
    assert_eq!(out, Some("shader.glsl:30:4: error: ';' expected".to_string()));
}

#[test]
fn empty_digit_pair_is_not_a_reference() {
    let map: Vec<usize> = vec![9, 9, 9, 9, 9];
    let out = translate_diagnostic("a::5: x", &map, false);
    assert_eq!(out, Some("a::9: x".to_string()));
}

#[test]
fn missing_reference_is_a_protocol_violation() {
    let map: Vec<usize> = vec![1, 2];
    assert_eq!(translate_diagnostic("linker error", &map, false), None);
    match rewrite_backend_error("linker error", &map, false) {
        CompilerError::BackendProtocolViolation(m) => assert_eq!(m, "linker error"),
        _ => panic!("expected BackendProtocolViolation"),
    }
}

#[test]
fn reference_outside_map_is_a_protocol_violation() {
    let map: Vec<usize> = vec![5];
    assert_eq!(translate_diagnostic(":9: error", &map, false), None);
    assert_eq!(translate_diagnostic(":0: error", &map, false), None);
}

#[test]
fn translated_message_becomes_compilation_error() {
    let map: Vec<usize> = vec![5, 7, 8];
    match rewrite_backend_error(":3: boom", &map, false) {
        CompilerError::Compilation(m) => assert_eq!(m, ":8: boom"),
        _ => panic!("expected Compilation"),
    }
}

#[test]
fn huge_line_number_is_out_of_range() {
    let map: Vec<usize> = vec![5, 7, 8];
    let out = translate_diagnostic(":340282366920938463463374607431768211456: x", &map, false);
    assert_eq!(out, None);
}

#[test]
fn find_line_ref_reports_leftmost_reference() {
    assert_eq!(find_line_ref("ab:12:34: x"), Some((2, 5)));
    assert_eq!(find_line_ref("no reference"), None);
    assert_eq!(find_line_ref("::"), None);
    assert_eq!(find_line_ref(":7:"), Some((0, 2)));
}

#[test]
fn decimal_rendering() {
    assert_eq!(decimal_string(0), "0");
    assert_eq!(decimal_string(9), "9");
    assert_eq!(decimal_string(10), "10");
    assert_eq!(decimal_string(907), "907");
}
