//! Requests, and what is read out of the replies.
use ami_s3_archive::aws::reply::{
    is_deleted, read_account, read_bucket_exists, read_deleted_snapshots, read_done, read_etag,
    read_latest_task, read_object_head, read_object_key, read_open_uploads, read_snapshot_ids,
    read_trial, read_upload_id,
};
use ami_s3_archive::aws::request::{AwsRequest, HttpResult, SendError};
use ami_s3_archive::aws::wait::{is_elsewhere, wait_after, WaitStep};
use ami_s3_archive::types::{MultipartPart, StoreImageTask};
use ami_s3_archive::{AnyError, AwsClient, AwsError, Credentials, Logger};

fn client(region: &str) -> AwsClient {
    let creds = Credentials {
        access_key_id: "AKID".to_string(),
        secret_access_key: "key".to_string(),
        session_token: String::new(),
        source: "env".to_string(),
    };
    AwsClient::new(region.to_string(), creds, Logger { verbose: false })
}

fn text(r: &AwsRequest) -> String {
    String::from_utf8(r.body.clone()).unwrap()
}

fn ok(body: &str) -> Result<HttpResult, AwsError> {
    Ok(HttpResult { status: 200, headers: vec![], body: body.as_bytes().to_vec() })
}

fn err(status: u16, body: &str) -> Result<HttpResult, AwsError> {
    Err(AwsError {
        service: "s3".to_string(),
        method: "GET".to_string(),
        status,
        body: body.to_string(),
    })
}

fn told<T>(r: Result<T, AnyError>) -> String {
    match r {
        Ok(_) => panic!("no failure"),
        Err(e) => e.message(),
    }
}

fn task(image_id: &str, state: &str) -> StoreImageTask {
    StoreImageTask {
        image_id: image_id.to_string(),
        state: state.to_string(),
        ..StoreImageTask::default()
    }
}

#[test]
fn identity_is_asked_of_sts() {
    let r = client("eu-west-3").get_caller_identity();
    assert_eq!((r.service.as_str(), r.method.as_str()), ("sts", "POST"));
    assert_eq!(r.url(), "https://sts.eu-west-3.amazonaws.com/");
    assert_eq!(
        r.headers,
        vec![(
            "content-type".to_string(),
            "application/x-www-form-urlencoded; charset=utf-8".to_string()
        )],
    );
    assert_eq!(text(&r), "Action=GetCallerIdentity&Version=2011-06-15");
}

#[test]
fn images_are_asked_of_ec2() {
    let c = client("r");
    let r = c.ec2_dry_run_create_store_image_task("ami-1", "b");
    assert_eq!((r.service.as_str(), r.url().as_str()), ("ec2", "https://ec2.r.amazonaws.com/"));
    assert_eq!(
        text(&r),
        "Action=CreateStoreImageTask&ImageId=ami-1&Bucket=b&DryRun=true&Version=2016-11-15",
    );
    assert_eq!(
        text(&c.ec2_create_store_image_task("ami-1", "b")),
        "Action=CreateStoreImageTask&ImageId=ami-1&Bucket=b&S3ObjectTag.1.Key=ArchivedBy\
         &S3ObjectTag.1.Value=ami-s3-archive&S3ObjectTag.2.Key=SourceAmiId\
         &S3ObjectTag.2.Value=ami-1&Version=2016-11-15",
    );
    assert_eq!(
        text(&c.ec2_latest_store_image_task("ami-1")),
        "Action=DescribeStoreImageTasks&ImageId.1=ami-1&Version=2016-11-15",
    );
    assert_eq!(
        text(&c.ec2_dry_run_deregister_image("ami-1")),
        "Action=DeregisterImage&ImageId=ami-1&DeleteAssociatedSnapshots=true&DryRun=true\
         &Version=2016-11-15",
    );
    assert_eq!(
        text(&c.ec2_deregister_image_delete_snapshots("ami-1")),
        "Action=DeregisterImage&ImageId=ami-1&DeleteAssociatedSnapshots=true&Version=2016-11-15",
    );
    assert_eq!(
        text(&c.ec2_describe_image_snapshot_ids("ami-1")),
        "Action=DescribeImages&ImageId.1=ami-1&Version=2016-11-15",
    );
}

#[test]
fn buckets_are_asked_of_s3() {
    let c = client("eu-west-3");
    let r = c.s3_bucket_exists("b");
    assert_eq!((r.service.as_str(), r.method.as_str()), ("s3", "HEAD"));
    assert_eq!(r.url(), "https://b.s3.eu-west-3.amazonaws.com/");
    assert!(r.headers.is_empty() && r.body.is_empty());
    let r = c.s3_create_bucket("b");
    assert_eq!(r.method, "PUT");
    assert_eq!(
        text(&r),
        "<CreateBucketConfiguration xmlns=\"http://s3.amazonaws.com/doc/2006-03-01/\">\
         <LocationConstraint>eu-west-3</LocationConstraint></CreateBucketConfiguration>",
    );
    assert_eq!(text(&client("us-east-1").s3_create_bucket("b")), "");
    let r = c.s3_put_public_access_block("b");
    assert_eq!(r.url(), "https://b.s3.eu-west-3.amazonaws.com/?publicAccessBlock");
    assert!(text(&r).contains("<RestrictPublicBuckets>true</RestrictPublicBuckets>"));
    let r = c.s3_put_bucket_encryption("b");
    assert_eq!(r.url(), "https://b.s3.eu-west-3.amazonaws.com/?encryption");
    assert!(text(&r).contains("<SSEAlgorithm>AES256</SSEAlgorithm>"));
    assert_eq!(c.s3_delete_bucket("b").method, "DELETE");
}

#[test]
fn objects_are_asked_of_s3() {
    let c = client("r");
    assert_eq!(c.s3_head_object("b", "a b/k").url(), "https://b.s3.r.amazonaws.com/a+b/k");
    assert_eq!(c.s3_delete_object("b", "k").method, "DELETE");
    let r = c.s3_copy_object_in_place("b", "k", "STANDARD_IA");
    let copied: Vec<(&str, &str)> =
        r.headers.iter().map(|h| (h.0.as_str(), h.1.as_str())).collect();
    assert_eq!(
        copied,
        vec![
            ("x-amz-copy-source", "/b/k"),
            ("x-amz-metadata-directive", "COPY"),
            ("x-amz-tagging-directive", "COPY"),
            ("x-amz-storage-class", "STANDARD_IA"),
        ],
    );
    let r = c.s3_upload_part_copy("b", "k", "u/1", 3, 10, 19);
    assert_eq!(r.url(), "https://b.s3.r.amazonaws.com/k?partNumber=3&uploadId=u%2F1");
    assert_eq!(r.headers[1].1, "bytes=10-19");
    let parts = vec![
        MultipartPart { part_number: 1, etag: "\"x\"".to_string() },
        MultipartPart { part_number: 2, etag: "y".to_string() },
    ];
    let r = c.s3_complete_multipart_upload("b", "k", "u", &parts);
    assert_eq!(r.url(), "https://b.s3.r.amazonaws.com/k?uploadId=u");
    assert_eq!(
        text(&r),
        "<CompleteMultipartUpload xmlns=\"http://s3.amazonaws.com/doc/2006-03-01/\">\
         <Part><PartNumber>1</PartNumber><ETag>&quot;x&quot;</ETag></Part>\
         <Part><PartNumber>2</PartNumber><ETag>y</ETag></Part></CompleteMultipartUpload>",
    );
    assert_eq!(c.s3_abort_multipart_upload("b", "k", "u").method, "DELETE");
    let r = c.s3_list_multipart_uploads("b", "k&");
    assert_eq!(r.url(), "https://b.s3.r.amazonaws.com/?uploads&prefix=k%26");
}

#[test]
fn requests_are_signed_where_they_go_to_a_url() {
    let c = client("r");
    let s = c.signed_request(&c.s3_head_object("b", "k")).unwrap();
    assert_eq!((s.method.as_str(), s.url.as_str()), ("HEAD", "https://b.s3.r.amazonaws.com/k"));
    assert!(s.body.is_empty());
    let host = s.headers.entries.iter().find(|h| h.0 == "host").unwrap();
    assert_eq!(host.1, "b.s3.r.amazonaws.com");
    assert!(s.headers.entries[0].1.contains("/r/s3/aws4_request"));
    assert!(c.signed_request(&c.s3_head_object("b b", "k")).is_none());
}

#[test]
fn replies_are_successes_or_failures() {
    let r = client("r").s3_bucket_exists("b");
    let reply = |status: u16, body: &[u8]| {
        Ok(HttpResult { status, headers: vec![], body: body.to_vec() })
    };
    assert_eq!(r.outcome(reply(200, b"x")).ok().unwrap().text(), "x");
    assert!(r.outcome(reply(299, b"x")).is_ok());
    for status in [199, 300] {
        let e = r.outcome(reply(status, b"a\xffb")).err().unwrap();
        assert_eq!((e.service.as_str(), e.method.as_str(), e.status), ("s3", "HEAD", status));
        assert_eq!(e.body, "a\u{fffd}b");
    }
    let lost = Err(SendError { status: 0, message: "reset".to_string() });
    let e = r.outcome(lost).err().unwrap();
    assert_eq!((e.status, e.body.as_str()), (0, "reset"));
}

#[test]
fn identities_are_read() {
    assert_eq!(read_account(ok("<r><Account>12</Account></r>")).unwrap(), "12");
    assert_eq!(told(read_account(ok("<Account></Account>"))), "empty account in STS response");
    assert_eq!(told(read_account(err(403, "no"))), "AWS s3 GET failed: HTTP 403: no");
}

#[test]
fn trials_are_granted_by_a_certain_failure() {
    assert!(read_trial(ok("")).is_ok());
    assert!(read_trial(err(412, "<Code>DryRunOperation</Code>")).is_ok());
    assert_eq!(told(read_trial(err(403, "denied"))), "AWS s3 GET failed: HTTP 403: denied");
}

#[test]
fn required_texts_are_read() {
    assert_eq!(read_object_key(ok("<objectKey>k</objectKey>")).unwrap(), "k");
    assert_eq!(read_object_key(ok("<s3objectKey>k</s3objectKey>")).unwrap(), "k");
    assert_eq!(
        told(read_object_key(ok("<x/>"))),
        "objectKey not found in CreateStoreImageTask response: <x/>",
    );
    assert_eq!(read_upload_id(ok("<UploadId>u</UploadId>")).unwrap(), "u");
    assert_eq!(
        told(read_upload_id(ok(" "))),
        "UploadId missing in CreateMultipartUpload response: ",
    );
    assert_eq!(read_etag(ok("<ETag>&quot;e&quot;</ETag>")).unwrap(), "\"e\"");
    assert_eq!(told(read_etag(ok("x"))), "ETag missing in UploadPartCopy response: x");
    assert!(read_etag(err(500, "")).is_err());
}

#[test]
fn the_last_task_is_the_latest() {
    let body = "<item><imageId>a</imageId></item><item><imageId>b</imageId></item>";
    assert_eq!(read_latest_task(ok(body)).unwrap().image_id, "b");
    assert_eq!(read_latest_task(ok("")).unwrap().image_id, "");
    assert!(read_latest_task(err(500, "")).is_err());
}

#[test]
fn snapshots_are_listed_once() {
    let body = "<snapshotId>snap-2</snapshotId><snapshotId>vol-1</snapshotId>\
        <snapshotId>snap-1</snapshotId><snapshotId>snap-2</snapshotId>";
    assert_eq!(read_snapshot_ids(ok(body)).unwrap(), vec!["snap-2", "snap-1"]);
    assert!(read_snapshot_ids(err(500, "")).is_err());
    let body = "<item><snapshotId>snap-1</snapshotId><returnCode>success</returnCode></item>";
    assert_eq!(
        read_deleted_snapshots(ok(body)).unwrap(),
        vec![("snap-1".to_string(), "success".to_string())],
    );
    assert!(read_deleted_snapshots(err(500, "")).is_err());
}

#[test]
fn buckets_are_there_missing_or_elsewhere() {
    assert!(read_bucket_exists(ok("")).unwrap());
    assert!(!read_bucket_exists(err(404, "")).unwrap());
    assert_eq!(
        told(read_bucket_exists(err(301, ""))),
        "bucket exists in another region or endpoint mismatch",
    );
    assert_eq!(told(read_bucket_exists(err(403, "x"))), "AWS s3 GET failed: HTTP 403: x");
    assert!(read_done(ok("")).is_ok());
    assert!(read_done(err(404, "")).is_err());
}

#[test]
fn objects_have_a_class_and_a_length() {
    let reply = |headers: Vec<(&str, Option<&str>)>| {
        let headers =
            headers.iter().map(|h| (h.0.to_string(), h.1.map(|v| v.to_string()))).collect();
        read_object_head(Ok(HttpResult { status: 200, headers, body: vec![] })).unwrap()
    };
    let h = reply(vec![
        ("content-length", Some("42")),
        ("content-length", Some("43")),
        ("x-amz-storage-class", Some("GLACIER")),
    ]);
    assert!(h.exists);
    assert_eq!((h.content_length, h.storage_class.as_str()), (42, "GLACIER"));
    let h = reply(vec![("content-length", Some("x")), ("x-amz-storage-class", None)]);
    assert!(h.exists);
    assert_eq!((h.content_length, h.storage_class.as_str()), (0, ""));
    let missing = read_object_head(err(404, "")).unwrap();
    assert!(!missing.exists && missing.content_length == 0);
    assert!(read_object_head(err(403, "")).is_err());
}

#[test]
fn uploads_of_other_objects_are_left_alone() {
    let body = "<Upload><Key>k</Key><UploadId>1</UploadId></Upload>\
        <Upload><Key>k2</Key><UploadId>2</UploadId></Upload>\
        <Upload><Key>k</Key><UploadId>3</UploadId></Upload>";
    assert_eq!(read_open_uploads(ok(body), "k").unwrap(), vec!["1", "3"]);
    assert!(read_open_uploads(ok("<Key>k</Key>"), "k").unwrap().is_empty());
    assert!(read_open_uploads(err(403, ""), "k").is_err());
}

#[test]
fn waiting_ends_with_the_task_or_the_time() {
    let c = client("r");
    match c.ec2_wait_store_image_task("ami-1", true) {
        WaitStep::Over(r) => {
            assert_eq!(told(r), "timeout while waiting for EC2 store image task")
        }
        _ => panic!("not late"),
    }
    match c.ec2_wait_store_image_task("ami-1", false) {
        WaitStep::Ask(r) => assert!(text(&r).contains("DescribeStoreImageTasks")),
        _ => panic!("late"),
    }
    for pending in [task("", "Completed"), task("ami-1", "InProgress"), task("ami-1", "")] {
        assert!(matches!(wait_after("ami-1", 7, Ok(pending)), WaitStep::Pause(7)));
    }
    match wait_after("ami-1", 7, Ok(task("ami-1", "COMPLETED"))) {
        WaitStep::Over(Ok(t)) => assert_eq!(t.image_id, "ami-1"),
        _ => panic!("not over"),
    }
    match wait_after("ami-1", 7, Ok(task("ami-1", "failed"))) {
        WaitStep::Over(r) => assert_eq!(told(r), "store image task failed for ami-1"),
        _ => panic!("not over"),
    }
    match wait_after("ami-1", 7, Err(AnyError::text("x"))) {
        WaitStep::Over(r) => assert_eq!(told(r), "x"),
        _ => panic!("not over"),
    }
}

#[test]
fn tasks_may_store_elsewhere() {
    let at = |image: &str, bucket: &str, state: &str| StoreImageTask {
        bucket: bucket.to_string(),
        ..task(image, state)
    };
    assert!(is_elsewhere(&at("ami-1", "x", "InProgress"), "b"));
    assert!(!is_elsewhere(&at("ami-1", "B", "InProgress"), "b"));
    assert!(!is_elsewhere(&at("ami-1", "", "InProgress"), "b"));
    assert!(!is_elsewhere(&at("ami-1", "x", "InProgress"), ""));
    assert!(!is_elsewhere(&at("", "x", "InProgress"), "b"));
    assert!(!is_elsewhere(&at("ami-1", "x", "completed"), "b"));
    assert!(!is_elsewhere(&at("ami-1", "x", "FAILED"), "b"));
}

#[test]
fn snapshots_are_deleted_or_not() {
    assert!(is_deleted("Success"));
    assert!(is_deleted(""));
    assert!(!is_deleted("client-error"));
}
