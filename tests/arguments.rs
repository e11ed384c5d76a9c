use gdscript_formatter_mcp::arguments::{
    get_bool, get_optional_i64, get_optional_string, get_optional_string_array,
    get_optional_usize, ArgValue,
};

#[test]
fn boolean_fields() {
    assert!(!get_bool(None, "check").unwrap());
    assert!(get_bool(Some(&ArgValue::Bool(true)), "check").unwrap());
    assert_eq!(
        get_bool(Some(&ArgValue::Str("yes".to_owned())), "check").unwrap_err(),
        "`check` must be a boolean"
    );
}

#[test]
fn integer_and_count_fields() {
    assert_eq!(get_optional_i64(None, "indent_size").unwrap(), None);
    assert_eq!(get_optional_i64(Some(&ArgValue::Number(Some(4))), "indent_size").unwrap(), Some(4));
    assert_eq!(
        get_optional_i64(Some(&ArgValue::Number(None)), "indent_size").unwrap_err(),
        "`indent_size` must be an integer"
    );
    assert_eq!(
        get_optional_usize(Some(&ArgValue::Number(Some(-3))), "max_diagnostics").unwrap_err(),
        "`max_diagnostics` must be >= 0"
    );
    assert_eq!(
        get_optional_usize(Some(&ArgValue::Number(Some(7))), "max_diagnostics").unwrap(),
        Some(7)
    );
    assert_eq!(
        get_optional_usize(Some(&ArgValue::Null), "max_diagnostics").unwrap_err(),
        "`max_diagnostics` must be an integer"
    );
}

#[test]
fn string_and_array_fields() {
    assert_eq!(
        get_optional_string(Some(&ArgValue::Str("a,b".to_owned())), "disable_rules").unwrap(),
        Some("a,b".to_owned())
    );
    assert_eq!(
        get_optional_string(Some(&ArgValue::Object), "dir").unwrap_err(),
        "`dir` must be a string"
    );
    assert_eq!(
        get_optional_string_array(Some(&ArgValue::Array(Some(vec!["x.gd".to_owned()]))), "files")
            .unwrap(),
        Some(vec!["x.gd".to_owned()])
    );
    assert_eq!(
        get_optional_string_array(Some(&ArgValue::Array(None)), "files").unwrap_err(),
        "`files` must be an array of strings"
    );
    assert_eq!(get_optional_string_array(None, "files").unwrap(), None);
}
