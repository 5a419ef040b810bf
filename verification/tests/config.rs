//! The arguments of the program.
use ami_s3_archive::config::{is_valid_ami_id, parse_s3_bucket};
use ami_s3_archive::{parse_args, validate_config, Config};

fn args(list: &[&str]) -> Vec<String> {
    list.iter().map(|s| s.to_string()).collect()
}

fn config(list: &[&str]) -> Config {
    parse_args(&args(list)).unwrap().unwrap()
}

fn refusal(list: &[&str]) -> String {
    parse_args(&args(list)).unwrap_err().message()
}

#[test]
fn validates_ami_id() {
    assert!(is_valid_ami_id("ami-0123456789abcdef0"));
    assert!(!is_valid_ami_id("snap-abc"));
}

#[test]
fn parses_bucket_root_only() {
    assert_eq!(parse_s3_bucket("s3://my-bucket").unwrap(), "my-bucket");
    assert!(parse_s3_bucket("s3://my-bucket/key").is_err());
}

#[test]
fn ami_ids_have_eight_to_seventeen_digits() {
    assert!(is_valid_ami_id("ami-01234567"));
    assert!(is_valid_ami_id("ami-ABCDEFabcdef01234"));
    assert!(!is_valid_ami_id("ami-0123456"));
    assert!(!is_valid_ami_id("ami-012345678901234567"));
    assert!(!is_valid_ami_id("ami-0123456g"));
    assert!(!is_valid_ami_id("ami-012345é"));
    assert!(!is_valid_ami_id("AMI-01234567"));
    assert!(!is_valid_ami_id(""));
}

#[test]
fn bucket_uris_may_end_in_slashes() {
    assert_eq!(parse_s3_bucket("s3://b/").unwrap(), "b");
    assert_eq!(parse_s3_bucket("s3://b///").unwrap(), "b");
    assert_eq!(
        parse_s3_bucket("http://b").unwrap_err().message(),
        "invalid --s3-uri: expected s3://bucket, got http://b",
    );
    assert_eq!(
        parse_s3_bucket("s3:///k").unwrap_err().message(),
        "--s3-uri must point to a bucket root only, got s3:///k",
    );
    assert!(parse_s3_bucket("s3://").is_err());
    assert!(parse_s3_bucket("s3://b//k").is_err());
}

#[test]
fn nothing_asked_for_is_the_default() {
    let c = config(&[]);
    assert_eq!((c.ami_id.as_str(), c.region.as_str(), c.profile.as_str()), ("", "", ""));
    assert_eq!((c.s3_uri.as_str(), c.bucket.as_str()), ("", ""));
    assert!(!c.create_bucket && !c.cleanup && !c.yes && !c.dry_run && !c.verbose && c.wait);
    assert_eq!((c.poll_seconds, c.timeout_minutes), (15, 720));
    assert_eq!(c.storage_class, "STANDARD_IA");
}

#[test]
fn every_argument_is_read() {
    let c = config(&[
        "--ami-id", "ami-01234567", "--region", "eu-west-3", "--profile", "p", "--s3-uri", "s3://b",
        "--storage-class", "GLACIER", "--poll-seconds", "7", "--timeout-minutes", "9",
        "--create-bucket", "--cleanup", "-y", "--dry-run", "-v", "--no-wait",
    ]);
    assert_eq!((c.ami_id.as_str(), c.region.as_str()), ("ami-01234567", "eu-west-3"));
    assert_eq!((c.profile.as_str(), c.s3_uri.as_str()), ("p", "s3://b"));
    assert_eq!((c.poll_seconds, c.timeout_minutes), (7, 9));
    assert_eq!(c.storage_class, "GLACIER");
    assert!(c.create_bucket && c.cleanup && c.yes && c.dry_run && c.verbose && !c.wait);
    let long = config(&["--yes", "--verbose", "--no-wait", "--wait"]);
    assert!(long.yes && long.verbose && long.wait);
}

#[test]
fn later_arguments_add_to_earlier_ones() {
    let c = config(&["--region", "a", "--cleanup", "--region", "b"]);
    assert_eq!(c.region, "b");
    assert!(c.cleanup);
}

#[test]
fn help_stops_the_reading() {
    assert!(parse_args(&args(&["--help", "--nonsense"])).unwrap().is_none());
    assert!(parse_args(&args(&["--cleanup", "-h"])).unwrap().is_none());
    assert_eq!(refusal(&["--nonsense", "--help"]), "unknown argument: --nonsense");
}

#[test]
fn arguments_that_cannot_be_taken_are_refused() {
    assert_eq!(refusal(&["x"]), "unknown argument: x");
    assert_eq!(refusal(&["--region"]), "--region requires a value");
    assert_eq!(refusal(&["--region", "--yes"]), "--region requires a value");
    assert_eq!(config(&["--region", "-y"]).region, "-y");
    assert_eq!(
        refusal(&["--poll-seconds", ""]),
        "cannot parse integer from empty string",
    );
    assert_eq!(refusal(&["--poll-seconds", "-1"]), "invalid digit found in string");
    assert_eq!(
        refusal(&["--timeout-minutes", "18446744073709551616"]),
        "number too large to fit in target type",
    );
}

#[test]
fn accepted_runs_are_complete() {
    let mut c = config(&[
        "--ami-id", "ami-01234567", "--poll-seconds", "1", "--timeout-minutes", "0",
        "--storage-class", "", "--s3-uri", "s3://b/",
    ]);
    assert!(validate_config(&mut c, "").is_ok());
    assert_eq!((c.poll_seconds, c.timeout_minutes), (5, 1));
    assert_eq!((c.profile.as_str(), c.bucket.as_str()), ("default", "b"));
    assert_eq!(c.storage_class, "STANDARD_IA");
    let again = c.clone();
    assert!(validate_config(&mut c, "other").is_ok());
    assert_eq!(format!("{c:?}"), format!("{again:?}"));

    let mut named = config(&["--ami-id", "ami-01234567"]);
    assert!(validate_config(&mut named, "work").is_ok());
    assert_eq!(named.profile, "work");
    let mut given = config(&["--ami-id", "ami-01234567", "--profile", "mine"]);
    assert!(validate_config(&mut given, "work").is_ok());
    assert_eq!(given.profile, "mine");
}

#[test]
fn runs_that_cannot_work_are_refused() {
    let mut none = config(&[]);
    assert_eq!(validate_config(&mut none, "").unwrap_err().message(), "--ami-id is required");
    let mut bad = config(&["--ami-id", "ami-x"]);
    assert_eq!(validate_config(&mut bad, "").unwrap_err().message(), "invalid --ami-id: ami-x");
    let mut uri = config(&["--ami-id", "ami-01234567", "--s3-uri", "b"]);
    assert!(validate_config(&mut uri, "work").is_err());
    assert_eq!((uri.profile.as_str(), uri.bucket.as_str()), ("work", ""));
}
