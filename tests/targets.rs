use gdscript_formatter_mcp::targets::{
    build_globset, default_inclusion, filter_scanned, resolve_target_files, ScannedFile,
    TargetRequest,
};

fn scanned(root: &str, rel: &str) -> ScannedFile {
    ScannedFile { path: format!("{root}/{rel}"), relative: rel.to_owned() }
}

#[test]
fn resolve_target_files_from_dir_include_exclude() {
    let root = "/work";
    let entries = vec![
        scanned(root, "a.gd"),
        scanned(root, "b.txt"),
        scanned(root, "sub/c.gd"),
        scanned(root, "sub/d.gd"),
    ];
    let inc = build_globset(&vec!["**/*.gd".to_owned()], "include").expect("globs");
    let exc = build_globset(&vec!["sub/d.gd".to_owned()], "exclude").expect("globs");
    let found = filter_scanned(&entries, &inc, &exc);
    let request = TargetRequest {
        files: Vec::new(),
        dir: Some(root.to_owned()),
        include_patterns: Some(vec!["**/*.gd".to_owned()]),
        exclude_patterns: Some(vec!["sub/d.gd".to_owned()]),
    };
    let files = resolve_target_files(&request, &found, true).expect("resolve files");
    assert!(files.contains(&"/work/a.gd".to_owned()));
    assert!(files.contains(&"/work/sub/c.gd".to_owned()));
    assert!(!files.contains(&"/work/sub/d.gd".to_owned()));
    assert_eq!(files.len(), 2);
}

#[test]
fn resolve_target_files_deduplicates_files_and_dir_results() {
    let root = "/work";
    let entries = vec![scanned(root, "a.gd")];
    let inc = build_globset(&vec!["a.gd".to_owned()], "include").expect("globs");
    let exc = build_globset(&Vec::new(), "exclude").expect("globs");
    let found = filter_scanned(&entries, &inc, &exc);
    let request = TargetRequest {
        files: vec!["/work/a.gd".to_owned()],
        dir: Some(root.to_owned()),
        include_patterns: Some(vec!["a.gd".to_owned()]),
        exclude_patterns: None,
    };
    let files = resolve_target_files(&request, &found, true).expect("resolve files");
    assert_eq!(files.len(), 1);
}

#[test]
fn resolve_target_files_rejects_include_without_dir() {
    let request = TargetRequest {
        files: Vec::new(),
        dir: None,
        include_patterns: Some(vec!["**/*.gd".to_owned()]),
        exclude_patterns: None,
    };
    let err = resolve_target_files(&request, &Vec::new(), false).expect_err("should fail");
    assert_eq!(err, "`include`/`exclude` can only be used with `dir`");
    let with_files = TargetRequest {
        files: vec!["a.gd".to_owned()],
        dir: None,
        include_patterns: None,
        exclude_patterns: Some(Vec::new()),
    };
    let err = resolve_target_files(&with_files, &Vec::new(), true).expect_err("should fail");
    assert_eq!(err, "`include`/`exclude` can only be used with `dir`");
}

#[test]
fn resolved_targets_are_sorted_and_unique() {
    let request = TargetRequest {
        files: vec!["b.gd".to_owned(), "a.gd".to_owned(), "b.gd".to_owned(), "A.gd".to_owned()],
        dir: None,
        include_patterns: None,
        exclude_patterns: None,
    };
    let files = resolve_target_files(&request, &vec!["z.gd".to_owned()], true).expect("resolve");
    assert_eq!(files, vec!["A.gd", "a.gd", "b.gd"]);
    let again = resolve_target_files(&request, &Vec::new(), true).expect("resolve");
    assert_eq!(files, again);
}

#[test]
fn empty_required_set_is_refused() {
    let request = TargetRequest {
        files: Vec::new(),
        dir: None,
        include_patterns: None,
        exclude_patterns: None,
    };
    assert_eq!(
        resolve_target_files(&request, &Vec::new(), true).unwrap_err(),
        "Either `files` or `dir` must resolve to at least one file"
    );
    assert!(resolve_target_files(&request, &Vec::new(), false).unwrap().is_empty());
}

#[test]
fn invalid_glob_is_reported() {
    let err = build_globset(&vec!["a[".to_owned()], "exclude").unwrap_err();
    assert!(err.starts_with("Invalid glob in `exclude`: 'a[' ("));
    assert_eq!(default_inclusion(), vec!["**/*.gd".to_owned()]);
}
