use aster::{Diagnostic, DiagnosticCode, Severity, Span, explain};

#[test]
fn span_reports_utf8_byte_offsets_with_one_based_line_and_column() {
    let source = "module example;\nlet café = 1;\n";
    let start = source.find("café").expect("literal is present");
    let end = start + "café".len();

    let span = Span::from_offsets("example.aster", source, start, end)
        .expect("offsets are valid UTF-8 boundaries");

    assert_eq!(span.file, "example.aster");
    assert_eq!(span.start, 20);
    assert_eq!(span.end, 25);
    assert_eq!(span.line, 2);
    assert_eq!(span.column, 5);
}

#[test]
fn invalid_span_offsets_return_a_typed_error() {
    let source = "é";
    let error = Span::from_offsets("bad.aster", source, 1, 2)
        .expect_err("offset 1 splits the UTF-8 character");

    assert_eq!(error.message(), "span offsets are not UTF-8 boundaries");
}

#[test]
fn human_render_includes_location_excerpt_and_help() {
    let source = "module example;\nlet x = candidate.value;\n";
    let start = source.find("candidate.value").expect("literal is present");
    let span = Span::from_offsets("candidate.aster", source, start, start + 15)
        .expect("literal offsets are valid");
    let diagnostic = Diagnostic::error(
        DiagnosticCode::new("ASTER-TYPE-2001").expect("registered code shape"),
        "candidate data must be validated before use",
        span,
    )
    .with_help("use `validate candidate with <Validator>` to obtain `Checked<T>`");

    let rendered = diagnostic.render_human(source);

    assert!(
        rendered
            .starts_with("error[ASTER-TYPE-2001]: candidate data must be validated before use\n")
    );
    assert!(rendered.contains(" --> candidate.aster:2:9\n"));
    assert!(rendered.contains("2 | let x = candidate.value;\n"));
    assert!(
        rendered
            .contains("help: use `validate candidate with <Validator>` to obtain `Checked<T>`\n")
    );
}

#[test]
fn diagnostic_registry_explains_known_codes_and_rejects_unknown_codes() {
    let known = explain("ASTER-TYPE-2001").expect("mandatory code is registered");
    assert_eq!(known.code.as_str(), "ASTER-TYPE-2001");
    assert_eq!(known.severity, Severity::Error);
    assert!(known.remediation.contains("validate candidate"));

    assert!(explain("ASTER-TYPE-2999").is_none());
}

#[test]
fn diagnostic_code_shape_supports_four_and_five_digit_registered_families() {
    assert!(DiagnosticCode::new("ASTER-TYPE-2001").is_ok());
    assert!(DiagnosticCode::new("ASTER-BUDGET-11001").is_ok());
    assert!(DiagnosticCode::new("ASTER-TYPE-201").is_err());
    assert!(DiagnosticCode::new("ASTER-BUDGET-110001").is_err());
}

#[test]
fn span_at_the_end_of_a_line_reports_the_following_column() {
    let source = "ab\ncd";
    let span = Span::from_offsets("x.aster", source, 2, 3).expect("newline offsets are valid");
    assert_eq!(span.line, 1);
    assert_eq!(span.column, 3);
    let reversed = Span::from_offsets("x.aster", source, 3, 2);
    assert!(reversed.is_err());
    let beyond = Span::from_offsets("x.aster", source, 0, 6);
    assert!(beyond.is_err());
}

#[test]
fn diagnostic_code_rejects_lowercase_families_and_missing_prefixes() {
    assert!(DiagnosticCode::new("ASTER-type-2001").is_err());
    assert!(DiagnosticCode::new("TYPE-2001").is_err());
    assert!(DiagnosticCode::new("ASTER--2001").is_err());
    assert!(DiagnosticCode::new("ASTER-TYPE-20a1").is_err());
}

#[test]
fn labels_notes_and_help_render_in_order() {
    let source = "let x = y;\n";
    let span = Span::from_offsets("example.aster", source, 8, 9).expect("offsets are valid");
    let diagnostic = Diagnostic::error(
        DiagnosticCode::new("ASTER-NAME-1001").expect("registered code shape"),
        "unknown name `y`",
        span,
    )
    .with_label("not declared in this module")
    .with_note("declaration order does not affect lookup")
    .with_help("declare `y` before checking this module");
    assert_eq!(diagnostic.labels, vec!["not declared in this module".to_owned()]);
    assert_eq!(diagnostic.notes, vec!["declaration order does not affect lookup".to_owned()]);
    let rendered = diagnostic.render_human(source);
    assert!(rendered.starts_with("error[ASTER-NAME-1001]: unknown name `y`\n"));
    assert!(rendered.contains(" --> example.aster:1:9\n"));
    let note = rendered.find("note: declaration order").expect("note rendered");
    let help = rendered.find("help: declare").expect("help rendered");
    assert!(note < help);
}

#[test]
fn span_offsets_beyond_the_source_are_out_of_bounds() {
    let error = Span::from_offsets("x.aster", "abc", 2, 9).expect_err("end is past the source");
    assert_eq!(error.message(), "span offsets are outside the source");
}
