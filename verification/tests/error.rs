//! How failures are told.
use ami_s3_archive::error::{can_summarize, empty_default, summarize};
use ami_s3_archive::{AnyError, AwsError};

fn failure(body: &str) -> AwsError {
    AwsError {
        service: "s3".into(),
        method: "PUT".into(),
        status: 403,
        body: body.into(),
    }
}

#[test]
fn long_texts_are_cut() {
    let long = "a".repeat(2001);
    assert_eq!(summarize("  short \n"), "short");
    assert_eq!(summarize(&"a".repeat(2000)), "a".repeat(2000));
    assert_eq!(summarize(&long), format!("{}...", "a".repeat(2000)));
    let umlauts = "é".repeat(1001);
    assert!(can_summarize(&umlauts));
    assert_eq!(summarize(&umlauts), format!("{}...", "é".repeat(1000)));
    assert!(!can_summarize(&format!("a{umlauts}")));
    assert!(can_summarize(&format!(" \t{umlauts}")));
}

#[test]
fn failures_are_told() {
    assert_eq!(failure(" Denied ").message(), "AWS s3 PUT failed: HTTP 403: Denied");
    assert_eq!(AnyError::Aws(failure("no")).message(), "AWS s3 PUT failed: HTTP 403: no");
    assert_eq!(AnyError::text("plain").message(), "plain");
    let incomplete = AnyError::Incomplete { what: "x missing".into(), body: " <a/> ".into() };
    assert!(incomplete.can_tell());
    assert_eq!(incomplete.message(), "x missing: <a/>");
    assert!(!AnyError::Aws(failure(&format!("a{}", "é".repeat(1001)))).can_tell());
}

#[test]
fn empty_texts_have_a_default() {
    assert_eq!(empty_default("", "d"), "d");
    assert_eq!(empty_default("s", "d"), "s");
}
