use gdscript_formatter_mcp::binary::{
    cache_root_candidates,
    choose_binary, detect_platform, is_expected_binary_entry, needs_download,
    select_asset_for_platform, version_marker, ArchKind, BinaryChoice, OsKind, PlatformInfo,
    ReleaseAsset, ReleaseInfo, UpdateOutcome,
};

fn asset(name: &str) -> ReleaseAsset {
    ReleaseAsset { name: name.to_owned(), browser_download_url: format!("https://x/{name}") }
}

#[test]
fn platform_detection() {
    let p = detect_platform("linux", "x86_64").expect("supported");
    assert_eq!(p, PlatformInfo { os: OsKind::Linux, arch: ArchKind::X86_64 });
    assert_eq!(p.dir_name(), "linux-x86_64");
    assert_eq!(p.binary_name(), "gdscript-formatter");
    let w = detect_platform("windows", "aarch64").expect("supported");
    assert_eq!(w.binary_name(), "gdscript-formatter.exe");
    assert!(detect_platform("freebsd", "x86_64").is_none());
    assert!(detect_platform("linux", "riscv64").is_none());
}

#[test]
fn asset_selection() {
    let release = ReleaseInfo {
        tag_name: "v1.2".to_owned(),
        assets: vec![
            asset("gdscript-formatter-v1.2-macos-aarch64.zip"),
            asset("gdscript-formatter-v1.2-linux-x86_64.tar.gz"),
            asset("gdscript-formatter-v1.2-linux-x86_64.zip"),
        ],
    };
    let p = detect_platform("linux", "x86_64").unwrap();
    let chosen = select_asset_for_platform(&release, &p).expect("asset");
    assert_eq!(chosen.name, "gdscript-formatter-v1.2-linux-x86_64.zip");
    let w = detect_platform("windows", "x86_64").unwrap();
    assert_eq!(
        select_asset_for_platform(&release, &w).unwrap_err(),
        "No downloadable formatter asset found for windows-x86_64 in release v1.2"
    );
}

#[test]
fn cache_is_current_only_with_matching_marker_and_binary() {
    assert!(!needs_download(Some("v1.2\n"), "v1.2", true));
    assert!(needs_download(Some("v1.2\n"), "v1.2", false));
    assert!(needs_download(Some("v1.1"), "v1.2", true));
    assert!(needs_download(None, "v1.2", true));
    assert_eq!(version_marker("v1.2"), "v1.2\n");
}

#[test]
fn archive_entry_matching() {
    assert!(is_expected_binary_entry("dist/gdscript-formatter", false, "gdscript-formatter"));
    assert!(is_expected_binary_entry("gdscript-formatter", false, "gdscript-formatter"));
    assert!(!is_expected_binary_entry("dist/gdscript-formatter", true, "gdscript-formatter"));
    assert!(!is_expected_binary_entry("dist/gdscript-formatter.exe", false, "gdscript-formatter"));
}

#[test]
fn offline_with_cache_uses_cached_binary() {
    let outcome = UpdateOutcome::FetchFailed { reason: "network unreachable".to_owned() };
    match choose_binary(&outcome, true) {
        Ok(BinaryChoice::Stale { warning }) => assert_eq!(
            warning,
            "Warning: could not fetch latest release, using cached formatter: network unreachable"
        ),
        _ => panic!("expected the cached binary"),
    }
}

#[test]
fn offline_without_cache_fails() {
    let outcome = UpdateOutcome::FetchFailed { reason: "network unreachable".to_owned() };
    match choose_binary(&outcome, false) {
        Err(e) => assert_eq!(
            e,
            "Failed to fetch latest release and no cached formatter found: network unreachable"
        ),
        Ok(_) => panic!("expected an error"),
    }
    let update = UpdateOutcome::UpdateFailed { reason: "zip".to_owned() };
    assert!(choose_binary(&update, false).is_err());
    assert!(matches!(choose_binary(&UpdateOutcome::Current, false), Ok(BinaryChoice::Fresh)));
}

#[test]
fn cache_root_candidate_order() {
    let c = cache_root_candidates(
        Some("/custom".to_owned()),
        None,
        Some("/home/u/.cache/x".to_owned()),
        ".local".to_owned(),
        Some("/cwd/.c".to_owned()),
        "/tmp/x".to_owned(),
    );
    assert_eq!(c, vec!["/custom", "/home/u/.cache/x", "/cwd/.c", "/tmp/x"]);
    let d = cache_root_candidates(None, Some("/xdg/x".to_owned()), Some("/h".to_owned()), ".l".to_owned(), None, "/t".to_owned());
    assert_eq!(d, vec!["/xdg/x", "/t"]);
    let e = cache_root_candidates(None, None, None, ".l".to_owned(), None, "/t".to_owned());
    assert_eq!(e, vec![".l", "/t"]);
}
