use astrograph_engine::analysis::{is_ignored, slash_path};
use astrograph_engine::frontend::{
    analysis_failure, check_analysis_dir, check_read_request, format_user_friendly_error,
    is_within_root, read_failure, AnalyzeErrorPayload, IoFailure, ReadFileErrorPayload,
};
use astrograph_engine::ids::hash_bytes;
use astrograph_engine::language::{detect_language, supported_extensions};
use astrograph_engine::model::kind_to_str;
use astrograph_engine::{Language, ProgressEvent, SymbolKind};

#[test]
fn languages_by_extension() {
    assert_eq!(detect_language("src/lib.rs"), Some(Language::Rust));
    assert_eq!(detect_language("a/b.js"), Some(Language::JavaScript));
    assert_eq!(detect_language("x.cjs"), Some(Language::JavaScript));
    assert_eq!(detect_language("x.MJS"), Some(Language::JavaScript));
    assert_eq!(detect_language("x.ts"), Some(Language::TypeScript));
    assert_eq!(detect_language("View.TSX"), Some(Language::Tsx));
    assert_eq!(detect_language("README.md"), None);
    assert_eq!(detect_language(".rs"), None);
    assert_eq!(detect_language("dir.rs/Makefile"), None);
    assert_eq!(supported_extensions(), vec!["rs", "js", "cjs", "mjs", "ts", "tsx"]);
}

#[test]
fn kind_spellings() {
    assert_eq!(kind_to_str(&SymbolKind::Class), "class");
    assert_eq!(kind_to_str(&SymbolKind::Namespace), "namespace");
    assert_eq!(kind_to_str(&SymbolKind::Method), "method");
}

#[test]
fn sha256_of_bytes() {
    assert_eq!(hash_bytes(b""), "e3b0c44298fc1c149afbf4c8996fb92427ae41e4649b934ca495991b7852b855");
}

#[test]
fn hard_skipped_directories() {
    assert!(is_ignored(".git", true));
    assert!(is_ignored("node_modules", true));
    assert!(is_ignored("target", true));
    assert!(is_ignored(".cache", true));
    assert!(!is_ignored(".github", true));
    assert!(!is_ignored("src", true));
    assert!(!is_ignored("target", false));
    assert!(!is_ignored(".env", false));
}

#[test]
fn backslashes_become_slashes() {
    assert_eq!(slash_path("a\\b\\c.rs"), "a/b/c.rs");
    let e = ProgressEvent::analyzing("src\\x.rs", 2, 5);
    assert_eq!(e.phase, "analyzing");
    assert_eq!(e.current_file, "src/x.rs");
    assert_eq!(e.processed, 2);
    assert_eq!(e.total, 5);
    let c = ProgressEvent::collecting("y.ts", 7);
    assert_eq!(c.phase, "collecting");
    assert_eq!(c.total, 0);
    assert_eq!(c.processed, 7);
}

#[test]
fn friendly_error_wording() {
    assert_eq!(
        format_user_friendly_error(Some(IoFailure::NotFound), "raw"),
        "File or directory not found. Check the --root and output paths."
    );
    assert_eq!(
        format_user_friendly_error(Some(IoFailure::PermissionDenied), "raw"),
        "Permission denied when accessing files. Check your file permissions."
    );
    assert_eq!(format_user_friendly_error(Some(IoFailure::Other), "raw"), "raw");
    assert_eq!(format_user_friendly_error(None, "parse failed"), "parse failed");
}

#[test]
fn path_escape_is_rejected() {
    assert!(!is_within_root("/r", "../etc/passwd"));
    assert!(!is_within_root("/r", "/etc/passwd"));
    assert!(!is_within_root("/r", "a/../../r2/x"));
    assert!(is_within_root("/r", "src/./a.rs"));
    assert!(is_within_root("/r", "src/../a.rs"));
    match check_read_request(true, "/r", "../etc/passwd", true, true) {
        Some(ReadFileErrorPayload::InvalidPath { message }) => {
            assert_eq!(message, "File path is outside the project root.")
        }
        other => panic!("unexpected {:?}", other),
    }
}

#[test]
fn read_request_checks_in_order() {
    assert!(matches!(
        check_read_request(false, "/r", "a.rs", true, true),
        Some(ReadFileErrorPayload::InvalidPath { .. })
    ));
    match check_read_request(true, "/r", "a.rs", false, false) {
        Some(ReadFileErrorPayload::FileNotFound { message }) => assert_eq!(message, "File not found: a.rs"),
        other => panic!("unexpected {:?}", other),
    }
    match check_read_request(true, "/r", "src", true, false) {
        Some(ReadFileErrorPayload::InvalidPath { message }) => assert_eq!(message, "Path is not a file: src"),
        other => panic!("unexpected {:?}", other),
    }
    assert!(check_read_request(true, "/r", "a.rs", true, true).is_none());
    match read_failure(IoFailure::PermissionDenied, "a.rs", "denied") {
        ReadFileErrorPayload::IoError { message } => assert_eq!(message, "Permission denied reading file: a.rs"),
        other => panic!("unexpected {:?}", other),
    }
}

#[test]
fn analysis_directory_checks() {
    assert!(matches!(check_analysis_dir(false, false), Some(AnalyzeErrorPayload::InvalidPath { .. })));
    assert!(matches!(check_analysis_dir(true, false), Some(AnalyzeErrorPayload::NotDirectory { .. })));
    assert!(check_analysis_dir(true, true).is_none());
    assert!(matches!(analysis_failure(true), AnalyzeErrorPayload::IoError { .. }));
    assert!(matches!(analysis_failure(false), AnalyzeErrorPayload::AnalysisFailed { .. }));
}
