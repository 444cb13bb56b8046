use warn_marker::init;
use warn_marker::init_transform;
use warn_marker::RewriteTransform;
use warn_marker::Severity;
use warn_marker::Stream;

#[test]
fn levels_down_to_info_are_enabled() {
    let logger = init();
    assert!(logger.enabled(Severity::Error));
    assert!(logger.enabled(Severity::Warn));
    assert!(logger.enabled(Severity::Info));
    assert!(!logger.enabled(Severity::Debug));
    assert!(!logger.enabled(Severity::Trace));
    assert_eq!(logger.max_level(), Severity::Info);
}

#[test]
fn error_without_marker_is_left_alone() {
    let line = init().log(Severity::Error, String::from("disk is full")).unwrap();
    assert_eq!(line.stream, Stream::Stderr);
    assert_eq!(line.text, "disk is full");
}

#[test]
fn error_with_marker_goes_through_the_policy() {
    let line = init().log(Severity::Error, String::from("warn")).unwrap();
    assert_eq!(line.stream, Stream::Stderr);
    assert_eq!(line.text, "base64-encoded log: d2Fybg==");
    let line = init_transform(RewriteTransform).log(Severity::Error, String::from("a WARN")).unwrap();
    assert_eq!(line.stream, Stream::Stderr);
    assert_eq!(line.text, "a WA𝖱N");
}

#[test]
fn warning_without_marker_is_tagged() {
    let line = init().log(Severity::Warn, String::from("disk is full")).unwrap();
    assert_eq!(line.stream, Stream::Stderr);
    assert_eq!(line.text, "warning: disk is full");
}

#[test]
fn warning_with_marker_is_left_alone() {
    let line = init().log(Severity::Warn, String::from("Warning: disk is full")).unwrap();
    assert_eq!(line.stream, Stream::Stderr);
    assert_eq!(line.text, "Warning: disk is full");
}

#[test]
fn info_goes_to_the_standard_stream_unchanged() {
    let line = init().log(Severity::Info, String::from("a warn in info")).unwrap();
    assert_eq!(line.stream, Stream::Stdout);
    assert_eq!(line.text, "a warn in info");
}

#[test]
fn lower_levels_give_no_line() {
    assert!(init().log(Severity::Debug, String::from("x")).is_none());
    assert!(init().log(Severity::Trace, String::from("warn")).is_none());
}
