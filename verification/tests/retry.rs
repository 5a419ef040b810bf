//! Which failures of S3 are tried again, and after how long.
use ami_s3_archive::aws::retry::{
    is_s3_retryable, jitter_ms, pick_ms, s3_backoff_ceiling, s3_backoff_delay, s3_retry, Retry,
    S3_BACKOFF_CAP_MS,
};
use ami_s3_archive::AwsError;
use std::time::Duration;

#[test]
fn retryable_status_codes() {
    assert!(is_s3_retryable(&AwsError {
        service: "s3".into(),
        method: "PUT".into(),
        status: 0,
        body: "connection reset".into(),
    }));
    assert!(is_s3_retryable(&AwsError {
        service: "s3".into(),
        method: "PUT".into(),
        status: 503,
        body: "SlowDown".into(),
    }));
    assert!(!is_s3_retryable(&AwsError {
        service: "s3".into(),
        method: "HEAD".into(),
        status: 404,
        body: "Not Found".into(),
    }));
    assert!(!is_s3_retryable(&AwsError {
        service: "s3".into(),
        method: "PUT".into(),
        status: 403,
        body: "AccessDenied".into(),
    }));
}

#[test]
fn backoff_stays_within_cap() {
    for attempt in 0..20 {
        let delay = s3_backoff_delay(attempt);
        assert!(delay <= Duration::from_millis(S3_BACKOFF_CAP_MS));
    }
}

#[test]
fn attempts_are_bounded() {
    let busy = AwsError {
        service: "s3".into(),
        method: "PUT".into(),
        status: 429,
        body: String::new(),
    };
    let named = |body: &str| AwsError {
        service: "s3".into(),
        method: "PUT".into(),
        status: 400,
        body: body.into(),
    };
    assert_eq!(s3_retry(0, &busy), Retry::Again);
    assert_eq!(s3_retry(8, &busy), Retry::Again);
    assert_eq!(s3_retry(9, &busy), Retry::Done);
    assert_eq!(s3_retry(u32::MAX, &busy), Retry::Done);
    for body in ["RequestTimeout", "xSlowDown", "ServiceUnavailable", "<InternalError/>"] {
        assert_eq!(s3_retry(0, &named(body)), Retry::Again);
    }
    assert_eq!(s3_retry(0, &named("slowdown")), Retry::Done);
}

#[test]
fn backoff_doubles_up_to_the_cap() {
    let ceilings: Vec<u64> = (0..10).map(s3_backoff_ceiling).collect();
    assert_eq!(
        ceilings,
        vec![100, 200, 400, 800, 1_600, 3_200, 6_400, 12_800, 20_000, 20_000],
    );
    assert_eq!(s3_backoff_ceiling(u32::MAX), 20_000);
    assert_eq!(pick_ms(250, 100), 48);
    assert_eq!(pick_ms(7, 0), 0);
    assert!(jitter_ms(5) <= 5);
}

#[test]
fn requests_are_tried_until_they_end() {
    let failure = |status: u16| AwsError {
        service: "s3".into(),
        method: "PUT".into(),
        status,
        body: String::new(),
    };
    let attempts = |statuses: &[u16]| {
        let mut attempt = 0u32;
        while s3_retry(attempt, &failure(statuses[attempt as usize])) == Retry::Again {
            attempt += 1;
        }
        attempt + 1
    };
    assert_eq!(attempts(&[403]), 1);
    assert_eq!(attempts(&[503, 0, 429, 404]), 4);
    assert_eq!(attempts(&[500; 20]), 10);
}
