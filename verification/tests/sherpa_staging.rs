use meetily::sherpa_staging::{
    archive_name, archive_stem, archive_url, download_status_error, is_library,
    partial_download_name, stages_for, staging_outcome, target_dir_index, SHERPA_ONNX_VERSION,
};

#[test]
fn staging_only_for_windows() {
    assert!(stages_for("windows"));
    assert!(!stages_for("linux"));
    assert!(!stages_for(""));
}

#[test]
fn archive_names_and_url() {
    assert_eq!(SHERPA_ONNX_VERSION, "1.13.4");
    let stem = archive_stem(SHERPA_ONNX_VERSION);
    assert_eq!(stem, "sherpa-onnx-v1.13.4-win-x64-shared-MT-Release-lib");
    let name = archive_name(&stem);
    assert_eq!(name, "sherpa-onnx-v1.13.4-win-x64-shared-MT-Release-lib.tar.bz2");
    assert_eq!(
        archive_url(SHERPA_ONNX_VERSION, &name),
        "https://github.com/k2-fsa/sherpa-onnx/releases/download/v1.13.4/sherpa-onnx-v1.13.4-win-x64-shared-MT-Release-lib.tar.bz2"
    );
    assert_eq!(partial_download_name("a.tar.bz2"), "a.tar.bz2.part2");
    assert_eq!(download_status_error("404 Not Found", "u"), "HTTP error 404 Not Found for u");
}

#[test]
fn libraries_and_outcome() {
    assert!(is_library(Some("dll")));
    assert!(!is_library(Some("DLL")));
    assert!(!is_library(Some("lib")));
    assert!(!is_library(None));
    assert_eq!(staging_outcome(3, "C:/lib"), Ok(3));
    assert_eq!(staging_outcome(0, "C:/lib"), Err("No DLLs found in C:/lib".to_string()));
}

#[test]
fn target_dir_is_nearest_ancestor_named_target() {
    let names = vec![
        Some("out".to_string()),
        Some("meetily-abc".to_string()),
        Some("build".to_string()),
        Some("debug".to_string()),
        Some("target".to_string()),
        Some("src-tauri".to_string()),
        None,
    ];
    assert_eq!(target_dir_index(&names), Some(4));
    assert_eq!(target_dir_index(&vec![Some("x".to_string()), None]), None);
    assert_eq!(target_dir_index(&Vec::new()), None);
}
