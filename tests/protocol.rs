use gdscript_formatter_mcp::dispatch::{
    check_arguments_shape, count_argument, negotiated_protocol_version, route_request, route_tool,
    ArgumentsShape, Route, ToolKind,
};
use gdscript_formatter_mcp::framing::{frame_header, parse_header_line, FrameHeaders, HeaderLine, HeaderStep};

#[test]
fn header_lines() {
    assert_eq!(parse_header_line("\r\n").unwrap(), HeaderLine::End);
    assert_eq!(parse_header_line("content-length: 42\r\n").unwrap(), HeaderLine::Length(42));
    assert_eq!(parse_header_line("Content-Type: json\r\n").unwrap(), HeaderLine::Other);
    assert_eq!(parse_header_line("no colon here\n").unwrap(), HeaderLine::Other);
    assert!(parse_header_line("Content-Length: abc\r\n").is_err());
}

#[test]
fn header_state_and_eof() {
    let mut h = FrameHeaders::new();
    assert!(h.on_eof().is_ok());
    assert!(matches!(h.on_line("Content-Length: 7\r\n"), Ok(HeaderStep::More)));
    assert!(h.on_eof().is_err());
    assert!(matches!(h.on_line("\r\n"), Ok(HeaderStep::Body)));
    assert_eq!(h.body_length().unwrap(), 7);
    let empty = FrameHeaders::new();
    assert!(empty.body_length().is_err());
}

#[test]
fn frame_header_text() {
    assert_eq!(frame_header(17), "Content-Length: 17\r\n\r\n");
    assert_eq!(frame_header(0), "Content-Length: 0\r\n\r\n");
}

#[test]
fn routing() {
    assert_eq!(route_request(true, Some("initialize")), Some(Route::Initialize));
    assert_eq!(route_request(true, Some("ping")), Some(Route::Ping));
    assert_eq!(route_request(true, Some("tools/list")), Some(Route::ToolsList));
    assert_eq!(route_request(true, Some("tools/call")), Some(Route::ToolsCall));
    assert_eq!(route_request(true, Some("other")), Some(Route::MethodNotFound));
    assert_eq!(route_request(false, Some("ping")), None);
    assert_eq!(route_request(true, None), None);
    assert_eq!(route_tool("gdscript_format"), ToolKind::Format);
    assert_eq!(route_tool("gdscript_lint"), ToolKind::Lint);
    assert_eq!(route_tool("x"), ToolKind::Unknown);
}

#[test]
fn protocol_version_and_arguments() {
    assert_eq!(negotiated_protocol_version(Some("2099-01-01")), "2099-01-01");
    assert_eq!(negotiated_protocol_version(None), "2024-11-05");
    assert!(check_arguments_shape(ArgumentsShape::Absent).is_ok());
    assert_eq!(
        check_arguments_shape(ArgumentsShape::NotObject).unwrap_err(),
        "`arguments` must be a JSON object"
    );
}

#[test]
fn count_arguments() {
    assert_eq!(count_argument("max_diagnostics", None).unwrap(), None);
    assert_eq!(count_argument("max_diagnostics", Some(5)).unwrap(), Some(5));
    assert_eq!(
        count_argument("max_diagnostics", Some(-1)).unwrap_err(),
        "`max_diagnostics` must be >= 0"
    );
}
