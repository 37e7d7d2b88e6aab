use cargo2soong::scan::{CargoOut, ScanError};

#[test]
fn scan_invocations_and_diagnostics() {
    let text = "   Compiling foo v0.1.0\n\
                \x20    Running `rustc --crate-name foo --crate-type lib src/lib.rs`\n\
                warning: unused variable\n\
                \x20 --> src/lib.rs:3:9\n\
                warning: other\n\
                \x20 --> /abs/path.rs:1:1\n\
                error: could not compile\n\
                [foo 0.1.0] running: \"cc\" -c x.c\n\
                [bar] running \"ar\" crs libbar.a\n\
                ### Running: cargo test --list\n\
                error[E0425]: cannot find value\n\
                ### Running: cargo build\n\
                error: later\r\n";
    let out = CargoOut::parse(text).unwrap();
    assert_eq!(out.rustc_invocations, vec!["--crate-name foo --crate-type lib src/lib.rs".to_string()]);
    assert_eq!(out.warning_lines, vec![(2, "warning: unused variable".to_string()), (4, "warning: other".to_string())]);
    assert_eq!(out.warning_files, vec!["src/lib.rs".to_string()]);
    assert_eq!(out.errors, vec!["error: could not compile".to_string(), "error: later".to_string()]);
    assert_eq!(out.test_errors, vec!["error[E0425]: cannot find value".to_string()]);
    assert_eq!(out.cc_invocations, vec![("foo".to_string(), "-c x.c".to_string())]);
    assert_eq!(out.ar_invocations, vec![("bar".to_string(), "crs libbar.a".to_string())]);
}

#[test]
fn scan_multi_line_invocation() {
    let text = "     Running `CARGO_PKG_DESCRIPTION='a\nb' CARGO_PKG_NAME=foo rustc --crate-name foo --crate-type lib src/lib.rs`\nwarning: x\n";
    let out = CargoOut::parse(text).unwrap();
    assert_eq!(out.rustc_invocations, vec!["--crate-name foo --crate-type lib src/lib.rs".to_string()]);
    assert_eq!(out.warning_lines, vec![(2, "warning: x".to_string())]);
}

#[test]
fn scan_bad_multi_line_invocation() {
    let text = "     Running `CARGO_PKG_NAME=foo /usr/bin/cc x`\n";
    assert!(matches!(CargoOut::parse(text), Err(ScanError::BadCommand(_))));
}

#[test]
fn scan_empty_transcript() {
    let out = CargoOut::parse("").unwrap();
    assert!(out.rustc_invocations.is_empty());
    assert!(out.errors.is_empty());
}
