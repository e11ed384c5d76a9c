use gdscript_formatter_mcp::lint::{
    count_severity, lint_command_args, lint_result_from_output, lint_structured_content,
    parse_lint_diagnostics, project_lint_diagnostics, render_lint_summary, validate_lint_options,
    LintDiagnostic, LintOptions, DEFAULT_MAX_DIAGNOSTICS,
};

fn diag(file: &str, line: u64, severity: &str, rule: &str) -> LintDiagnostic {
    LintDiagnostic {
        file: file.to_owned(),
        line,
        rule: rule.to_owned(),
        severity: severity.to_owned(),
        message: "m".to_owned(),
    }
}

fn options() -> LintOptions {
    LintOptions {
        disable_rules: None,
        max_line_length: None,
        list_rules: false,
        pretty: false,
        include_raw_output: false,
        max_diagnostics: None,
    }
}

#[test]
fn parse_lint_diagnostics_parses_standard_output() {
    let stdout = "/tmp/a.gd:10:class-name:error: bad class name\n/tmp/a.gd:20:max-line-length:warning: too long\n";
    let diagnostics = parse_lint_diagnostics(stdout);
    assert_eq!(diagnostics.len(), 2);
    assert_eq!(diagnostics[0].file, "/tmp/a.gd");
    assert_eq!(diagnostics[0].line, 10);
    assert_eq!(diagnostics[0].rule, "class-name");
    assert_eq!(diagnostics[0].severity, "error");
    assert_eq!(diagnostics[1].rule, "max-line-length");
    assert_eq!(diagnostics[1].severity, "warning");
}

#[test]
fn parse_lint_line_scenario() {
    let d = parse_lint_diagnostics("/tmp/a.gd:10:class-name:error: bad class name");
    assert_eq!(d.len(), 1);
    assert_eq!(d[0].file, "/tmp/a.gd");
    assert_eq!(d[0].line, 10);
    assert_eq!(d[0].rule, "class-name");
    assert_eq!(d[0].severity, "error");
    assert_eq!(d[0].message, "bad class name");
}

#[test]
fn parse_lint_skips_other_lines_and_keeps_colons_in_path() {
    let stdout = "banner\n\n  C:/p/a.gd:3:r:warning: msg: with colon  \nx:y:z: no number\na.gd:+7:r:error: plus\n";
    let d = parse_lint_diagnostics(stdout);
    assert_eq!(d.len(), 2);
    assert_eq!(d[0].file, "C:/p/a.gd");
    assert_eq!(d[0].line, 3);
    assert_eq!(d[0].message, "msg: with colon");
    assert_eq!(d[1].line, 7);
}

#[test]
fn project_lint_diagnostics_respects_max() {
    let diagnostics = vec![diag("a.gd", 1, "warning", "x"), diag("b.gd", 2, "error", "y")];
    let (projected, truncated) = project_lint_diagnostics(&diagnostics, 1);
    assert_eq!(projected.len(), 1);
    assert!(truncated);
}

#[test]
fn projection_lengths_follow_min() {
    let diagnostics = vec![
        diag("a.gd", 1, "warning", "x"),
        diag("b.gd", 2, "error", "y"),
        diag("c.gd", 3, "error", "z"),
    ];
    let (p, t) = project_lint_diagnostics(&diagnostics, 3);
    assert_eq!(p.len(), 3);
    assert!(!t);
    let (p, t) = project_lint_diagnostics(&diagnostics, 0);
    assert_eq!(p.len(), 0);
    assert!(t);
    let (p, t) = project_lint_diagnostics(&diagnostics, 10);
    assert_eq!(p.len(), 3);
    assert!(!t);
    assert_eq!(p[2].file, "c.gd");
}

#[test]
fn severity_counts() {
    let diagnostics = vec![
        diag("a.gd", 1, "warning", "x"),
        diag("b.gd", 2, "error", "y"),
        diag("c.gd", 3, "error", "z"),
    ];
    assert_eq!(count_severity(&diagnostics, "error"), 2);
    assert_eq!(count_severity(&diagnostics, "warning"), 1);
}

#[test]
fn warnings_only_with_clean_exit_is_success() {
    let result = lint_result_from_output(
        &options(),
        "a.gd:1:r:warning: w\n".to_owned(),
        String::new(),
        true,
        Some(0),
    );
    assert!(result.success);
    assert_eq!(result.warning_count, 1);
    assert_eq!(result.error_count, 0);
    assert_eq!(result.max_diagnostics, DEFAULT_MAX_DIAGNOSTICS);
    let failed = lint_result_from_output(&options(), String::new(), String::new(), false, None);
    assert!(!failed.success);
    assert_eq!(failed.exit_code, -1);
    assert!(failed.diagnostics.is_empty());
}

#[test]
fn lint_summary_and_report() {
    let mut o = options();
    o.max_diagnostics = Some(1);
    o.include_raw_output = true;
    let result = lint_result_from_output(
        &o,
        "a.gd:1:r:warning: w\nb.gd:2:s:error: e\n".to_owned(),
        "err".to_owned(),
        false,
        Some(1),
    );
    assert_eq!(
        render_lint_summary(&result),
        "Lint failed. diagnostics: total=2, errors=1, warnings=1"
    );
    let report = lint_structured_content(&result);
    assert_eq!(report.total_diagnostics, 2);
    assert!(report.diagnostics_truncated);
    assert_eq!(report.diagnostics.len(), 1);
    assert_eq!(report.exit_code, 1);
    let raw = report.raw_output.expect("raw output");
    assert_eq!(raw.1, "err");
}

#[test]
fn lint_options_and_arguments() {
    let mut o = options();
    assert_eq!(
        validate_lint_options(&o, 0).unwrap_err(),
        "Either `files` or `dir` must resolve to at least one file unless `list_rules` is true"
    );
    o.list_rules = true;
    assert!(validate_lint_options(&o, 0).is_ok());
    o.max_line_length = Some(0);
    assert_eq!(
        validate_lint_options(&o, 3).unwrap_err(),
        "`max_line_length` must be at least 1"
    );
    o.max_line_length = Some(100);
    o.disable_rules = Some("a,b".to_owned());
    let args = lint_command_args(&o, &vec!["x.gd".to_owned(), "y.gd".to_owned()]);
    assert_eq!(
        args,
        vec!["lint", "--disable", "a,b", "--max-line-length", "100", "--list-rules", "x.gd", "y.gd"]
    );
}
