//! Copies of an object onto itself.
use ami_s3_archive::aws::copy::{
    is_milestone, part_range, plan_parts, CopyJob, CopyStep, MAX_PARTS,
};
use ami_s3_archive::aws::request::{AwsRequest, HttpResult};
use ami_s3_archive::constants::{DEFAULT_PART_SIZE_BYTES, MAX_SINGLE_COPY_BYTES};
use ami_s3_archive::{AwsClient, AwsError, Credentials, Logger};

const GIB: i64 = 1 << 30;

fn client() -> AwsClient {
    let creds = Credentials {
        access_key_id: "AKID".to_string(),
        secret_access_key: "key".to_string(),
        session_token: String::new(),
        source: "env".to_string(),
    };
    AwsClient::new("r".to_string(), creds, Logger { verbose: false })
}

fn ok(body: &str) -> Result<HttpResult, AwsError> {
    Ok(HttpResult { status: 200, headers: vec![], body: body.as_bytes().to_vec() })
}

fn err(body: &str) -> Result<HttpResult, AwsError> {
    Err(AwsError {
        service: "s3".to_string(),
        method: "PUT".to_string(),
        status: 403,
        body: body.to_string(),
    })
}

fn sent(step: CopyStep) -> (CopyJob, AwsRequest) {
    match step {
        CopyStep::Send { job, request } => (job, request),
        CopyStep::Over(_) => panic!("over"),
    }
}

fn over(step: CopyStep) -> Result<(), String> {
    match step {
        CopyStep::Send { .. } => panic!("not over"),
        CopyStep::Over(r) => r.map_err(|e| e.message()),
    }
}

#[test]
fn parts_tile_the_object() {
    let largest = i64::MAX - DEFAULT_PART_SIZE_BYTES + 1;
    for size in [1, DEFAULT_PART_SIZE_BYTES, DEFAULT_PART_SIZE_BYTES + 1, 5 * GIB, 6_000 * GIB, largest]
    {
        let (part, count) = plan_parts(size);
        assert!(1 <= count && i64::from(count) <= MAX_PARTS);
        let mut next = 0;
        for number in 1..=count {
            let (start, end) = part_range(size, number);
            assert_eq!(start, next);
            assert!(start <= end && end - start < part);
            next = end + 1;
        }
        assert_eq!(next, size);
    }
    assert_eq!(plan_parts(5 * GIB), (DEFAULT_PART_SIZE_BYTES, 10));
    assert_eq!(plan_parts(5 * GIB + 1), (DEFAULT_PART_SIZE_BYTES, 11));
    assert_eq!(part_range(5 * GIB + 1, 11), (5 * GIB, 5 * GIB));
    assert_eq!(plan_parts(5_000 * GIB).1, 10_000);
    assert_eq!(plan_parts(5_000 * GIB + 1), (536_870_913, 10_000));
}

#[test]
fn small_objects_are_copied_at_once() {
    let c = client();
    for size in [-1, 0, MAX_SINGLE_COPY_BYTES - 1] {
        let (job, request) = sent(c.s3_copy_object_to_storage_class("b", "k", "IA", size));
        assert_eq!((request.method.as_str(), request.raw_query.as_str()), ("PUT", ""));
        assert_eq!(over(job.next(&c, ok(""))), Ok(()));
    }
    let (job, _) = sent(c.s3_copy_object_to_storage_class("b", "k", "IA", 1));
    assert_eq!(
        over(job.next(&c, err("no"))),
        Err("AWS s3 PUT failed: HTTP 403: no".to_string()),
    );
}

#[test]
fn large_objects_are_copied_part_by_part() {
    let c = client();
    let size = MAX_SINGLE_COPY_BYTES;
    let (mut job, request) = sent(c.s3_copy_object_to_storage_class("b", "k", "IA", size));
    assert_eq!((request.method.as_str(), request.raw_query.as_str()), ("POST", "uploads"));
    assert_eq!(request.headers[0], ("x-amz-storage-class".to_string(), "IA".to_string()));
    let mut request;
    (job, request) = sent(job.next(&c, ok("<UploadId>u</UploadId>")));
    for number in 1..=10 {
        assert_eq!(request.raw_query, format!("partNumber={number}&uploadId=u"));
        let (start, end) = part_range(size, number);
        assert_eq!(request.headers[1].1, format!("bytes={start}-{end}"));
        (job, request) = sent(job.next(&c, ok(&format!("<ETag>e{number}</ETag>"))));
    }
    assert_eq!((request.method.as_str(), request.raw_query.as_str()), ("POST", "uploadId=u"));
    let body = String::from_utf8(request.body.clone()).unwrap();
    assert!(body.contains("<PartNumber>10</PartNumber><ETag>e10</ETag>"));
    assert_eq!(body.matches("<Part>").count(), 10);
    assert_eq!(over(job.next(&c, ok(""))), Ok(()));
}

#[test]
fn failed_copies_are_given_up() {
    let c = client();
    let begin = || {
        let step = c.s3_copy_object_to_storage_class("b", "k", "IA", MAX_SINGLE_COPY_BYTES);
        sent(step).0
    };
    assert_eq!(
        over(begin().next(&c, ok(""))),
        Err("UploadId missing in CreateMultipartUpload response: ".to_string()),
    );
    for last in [ok(""), err("abort failed")] {
        let (job, _) = sent(begin().next(&c, ok("<UploadId>u</UploadId>")));
        let (job, request) = sent(job.next(&c, err("part failed")));
        assert_eq!((request.method.as_str(), request.raw_query.as_str()), ("DELETE", "uploadId=u"));
        assert_eq!(
            over(job.next(&c, last)),
            Err("AWS s3 PUT failed: HTTP 403: part failed".to_string()),
        );
    }
    let (mut job, _) = sent(begin().next(&c, ok("<UploadId>u</UploadId>")));
    for _ in 0..10 {
        (job, _) = sent(job.next(&c, ok("<ETag>e</ETag>")));
    }
    let (job, request) = sent(job.next(&c, err("end failed")));
    assert_eq!(request.method, "DELETE");
    assert_eq!(
        over(job.next(&c, ok(""))),
        Err("AWS s3 PUT failed: HTTP 403: end failed".to_string()),
    );
}

#[test]
fn some_parts_are_milestones() {
    let told: Vec<i32> = (1..=23).filter(|n| is_milestone(*n, 23)).collect();
    assert_eq!(told, vec![1, 10, 20, 23]);
}
