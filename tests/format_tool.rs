use gdscript_formatter_mcp::format::{
    collect_format_result, extract_format_failure_reason, format_command_args,
    format_structured_content, normalize_reason, render_format_summary, validate_format_options,
    FileRun, FormatFailure, FormatOptions, FormatToolResult, MAX_FAILURES_RETURNED,
};

#[test]
fn extract_format_failure_reason_from_stderr() {
    let stderr = "Formatting 1 file...Error: \"Failed to format file /tmp/bad.gd: Topiary formatting failed\"";
    let reason = extract_format_failure_reason("", stderr);
    assert_eq!(reason, "Topiary formatting failed");
}

#[test]
fn extract_format_failure_reason_from_read_error() {
    let stderr = "Formatting 1 file...Error: \"Failed to read file /tmp/missing.gd: No such file or directory (os error 2)\"";
    let reason = extract_format_failure_reason("", stderr);
    assert_eq!(reason, "No such file or directory (os error 2)");
}

#[test]
fn extract_reason_from_failed_file_line() {
    let stderr = "noise\nFailed to format file /tmp/x.gd:\"parse   error\"\n";
    assert_eq!(extract_format_failure_reason("", stderr), "parse error");
}

#[test]
fn extract_reason_falls_back_to_stderr_then_stdout() {
    assert_eq!(
        extract_format_failure_reason("out text", "  something\n  broke "),
        "something broke"
    );
    assert_eq!(extract_format_failure_reason("  out \t text ", "   "), "out text");
    assert_eq!(extract_format_failure_reason("", ""), "Unknown formatting error");
}

#[test]
fn extract_reason_quoted_without_colon_and_crlf() {
    let stderr = "a\r\nError: \"whole message\"\r\n";
    assert_eq!(extract_format_failure_reason("", stderr), "whole message");
}

#[test]
fn normalize_reason_collapses_and_is_idempotent() {
    let once = normalize_reason("  a \t b\n\nc  ");
    assert_eq!(once, "a b c");
    assert_eq!(normalize_reason(&once), once);
    assert_eq!(normalize_reason(" \n\t "), "Unknown formatting error");
    assert_eq!(
        normalize_reason("Unknown formatting error"),
        "Unknown formatting error"
    );
}

#[test]
fn render_format_summary_is_minimal() {
    let success = FormatToolResult {
        success: true,
        processed_count: 5,
        failures: Vec::new(),
    };
    assert_eq!(render_format_summary(&success), "Format ok.");

    let failed = FormatToolResult {
        success: false,
        processed_count: 5,
        failures: vec![FormatFailure {
            file: "a.gd".to_owned(),
            reason: "reason".to_owned(),
        }],
    };
    assert_eq!(
        render_format_summary(&failed),
        "Format failed. failed_count=1."
    );
}

#[test]
fn format_structured_content_success_is_minimal() {
    let success = FormatToolResult {
        success: true,
        processed_count: 10,
        failures: Vec::new(),
    };
    let structured = format_structured_content(&success);
    assert!(structured.ok);
    assert_eq!(structured.processed_count, 10);
    assert_eq!(structured.failed_count, 0);
    assert!(structured.failures.is_empty());
}

#[test]
fn format_structured_content_truncates_failures() {
    let failures = (0..(MAX_FAILURES_RETURNED + 1))
        .map(|i| FormatFailure {
            file: format!("f{i}.gd"),
            reason: "reason".to_owned(),
        })
        .collect::<Vec<_>>();
    let failed = FormatToolResult {
        success: false,
        processed_count: MAX_FAILURES_RETURNED + 1,
        failures,
    };
    let structured = format_structured_content(&failed);
    assert_eq!(structured.failed_count, MAX_FAILURES_RETURNED + 1);
    assert!(structured.failures_truncated);
    assert_eq!(structured.failures.len(), MAX_FAILURES_RETURNED);
}

#[test]
fn twenty_five_failures_report_full_count() {
    let files: Vec<String> = (0..25).map(|i| format!("/tmp/f{i}.gd")).collect();
    let runs: Vec<FileRun> = (0..25)
        .map(|_| FileRun::Exited {
            success: false,
            stdout: String::new(),
            stderr: "Error: \"Failed to format file x: bad\"".to_owned(),
        })
        .collect();
    let result = collect_format_result(&files, &runs);
    assert_eq!(result.processed_count, 25);
    assert!(!result.success);
    let report = format_structured_content(&result);
    assert_eq!(report.failed_count, 25);
    assert!(report.failures_truncated);
    assert_eq!(report.failures.len(), 20);
    assert_eq!(report.failures[0].file, "/tmp/f0.gd");
    assert_eq!(report.failures[0].reason, "bad");
}

#[test]
fn collect_counts_every_file_and_succeeds_without_failures() {
    let files = vec!["a.gd".to_owned(), "b.gd".to_owned(), "c.gd".to_owned()];
    let runs = vec![
        FileRun::Exited { success: true, stdout: String::new(), stderr: String::new() },
        FileRun::SpawnFailed { message: "No such file  or directory".to_owned() },
        FileRun::Exited { success: true, stdout: String::new(), stderr: "warn".to_owned() },
    ];
    let result = collect_format_result(&files, &runs);
    assert_eq!(result.processed_count, 3);
    assert!(!result.success);
    assert_eq!(result.failures.len(), 1);
    assert_eq!(result.failures[0].file, "b.gd");
    assert_eq!(
        result.failures[0].reason,
        "Failed to execute formatter: No such file or directory"
    );
    let ok_runs = vec![
        FileRun::Exited { success: true, stdout: String::new(), stderr: String::new() },
        FileRun::Exited { success: true, stdout: String::new(), stderr: String::new() },
        FileRun::Exited { success: true, stdout: String::new(), stderr: String::new() },
    ];
    let ok = collect_format_result(&files, &ok_runs);
    assert!(ok.success);
    assert_eq!(ok.processed_count, 3);
}

#[test]
fn format_options_and_arguments() {
    let mut options = FormatOptions {
        check: true,
        stdout: false,
        use_spaces: true,
        indent_size: Some(0),
        reorder_code: false,
        safe: true,
    };
    assert_eq!(
        validate_format_options(&options).unwrap_err(),
        "`indent_size` must be at least 1"
    );
    options.indent_size = Some(12);
    assert!(validate_format_options(&options).is_ok());
    let args = format_command_args(&options, &"a.gd".to_owned());
    assert_eq!(
        args,
        vec!["--check", "--use-spaces", "--indent-size", "12", "--safe", "a.gd"]
    );
}

#[test]
fn stderr_with_placeholder_text_is_kept() {
    assert_eq!(
        extract_format_failure_reason("out", "Unknown formatting error"),
        "Unknown formatting error"
    );
}

#[test]
fn bare_carriage_return_at_end_is_kept_in_line() {
    assert_eq!(extract_format_failure_reason("", "Error: \"msg\"\r"), "msg\"");
}
