//! Signatures, and how requests are written.
use ami_s3_archive::aws::endpoints::{
    ec2_endpoint, escape_s3_key, form_body, s3_endpoint, sts_endpoint,
};
use ami_s3_archive::aws::headers::Headers;
use ami_s3_archive::aws::sign::{
    aws_encode, canonical_pairs, canonical_query_string, dates_of, normalize_header_value,
    sign_v4, sign_v4_at, signature_key,
};
use ami_s3_archive::outside::UrlParts;
use ami_s3_archive::Credentials;

fn creds(token: &str) -> Credentials {
    Credentials {
        access_key_id: "AKID".to_string(),
        secret_access_key: "key".to_string(),
        session_token: token.to_string(),
        source: "env".to_string(),
    }
}

fn value<'a>(h: &'a Headers, name: &str) -> Option<&'a str> {
    h.entries.iter().find(|e| e.0 == name).map(|e| e.1.as_str())
}

fn names(h: &Headers) -> Vec<&str> {
    h.entries.iter().map(|e| e.0.as_str()).collect()
}

fn pair(name: &str, value: &str) -> (String, String) {
    (name.to_string(), value.to_string())
}

#[test]
fn services_have_endpoints() {
    assert_eq!(ec2_endpoint("eu-west-3"), "https://ec2.eu-west-3.amazonaws.com");
    assert_eq!(sts_endpoint("eu-west-3"), "https://sts.eu-west-3.amazonaws.com");
    assert_eq!(s3_endpoint("b", "eu-west-3"), "https://b.s3.eu-west-3.amazonaws.com");
}

#[test]
fn keys_keep_their_slashes() {
    assert_eq!(escape_s3_key("a/b c*~é+.bin"), "a/b+c*%7E%C3%A9%2B.bin");
    assert_eq!(escape_s3_key(""), "");
}

#[test]
fn forms_are_encoded() {
    assert_eq!(form_body(&[("a b", "1&2"), ("c", "é=")]), "a+b=1%262&c=%C3%A9%3D");
    assert_eq!(form_body(&[]), "");
}

#[test]
fn canonical_queries_are_encoded_and_sorted() {
    assert_eq!(canonical_query_string(""), "");
    assert_eq!(canonical_query_string("uploads"), "uploads=");
    assert_eq!(
        canonical_query_string("uploadId=a+b%2F&partNumber=10&partNumber=1&%C3%A9=~"),
        "%C3%A9=~&partNumber=1&partNumber=10&uploadId=a%20b%2F",
    );
    assert_eq!(canonical_pairs(&vec![pair("b", "2"), pair("a", "*")]), "a=%2A&b=2");
    assert_eq!(aws_encode("A-_.~ z/9"), "A-_.~%20z%2F9");
}

#[test]
fn header_values_are_normalized() {
    assert_eq!(normalize_header_value("  two \t words "), "two words");
    assert_eq!(normalize_header_value(" "), "");
}

#[test]
fn times_begin_with_their_day() {
    assert_eq!(
        dates_of(1_440_938_160),
        ("20150830T123600Z".to_string(), "20150830".to_string()),
    );
    let last = dates_of(8_210_266_876_799);
    assert_eq!(last, ("+2621421231T235959Z".to_string(), "+2621421231".to_string()));
    assert_eq!(dates_of(0), ("19700101T000000Z".to_string(), "19700101".to_string()));
}

#[test]
fn keys_are_derived_from_day_region_and_service() {
    let hex: String = signature_key("key", "20150830", "eu-west-3", "s3")
        .iter()
        .map(|b| format!("{b:02x}"))
        .collect();
    assert_eq!(hex, "0e6926af89f99b93a722bcb1be36c6b49c6312f10588159b85ef0234ba516548");
}

#[test]
fn requests_are_signed() {
    let parts = UrlParts {
        host: Some("b.s3.eu-west-3.amazonaws.com".to_string()),
        path: "/k".to_string(),
        query: Some("uploadId=a+b&partNumber=1".to_string()),
    };
    let given = vec![pair("X-Test", "  two   words ")];
    let h = sign_v4_at(1_440_938_160, "GET", &parts, "s3", "eu-west-3", &creds(""), &given, &[]);
    assert_eq!(
        value(&h, "authorization"),
        Some(
            "AWS4-HMAC-SHA256 Credential=AKID/20150830/eu-west-3/s3/aws4_request, \
             SignedHeaders=host;user-agent;x-amz-content-sha256;x-amz-date;x-test, \
             Signature=fb13caf19b6ca95dcb0d7c236e861c37e3536a6fe6a381807738c01df77e59e1"
        ),
    );
    assert_eq!(
        value(&h, "x-amz-content-sha256"),
        Some("e3b0c44298fc1c149afbf4c8996fb92427ae41e4649b934ca495991b7852b855"),
    );
    assert_eq!(value(&h, "x-test"), Some("  two   words "));
    assert_eq!(value(&h, "user-agent"), Some("ami-s3-archive"));
    assert_eq!(
        names(&h),
        vec![
            "authorization", "host", "user-agent", "x-amz-content-sha256", "x-amz-date", "x-test",
        ],
    );
}

#[test]
fn session_tokens_are_signed() {
    let parts = UrlParts {
        host: Some("ec2.us-east-1.amazonaws.com".to_string()),
        path: String::new(),
        query: None,
    };
    let given = vec![pair("content-type", "application/x-www-form-urlencoded; charset=utf-8")];
    let h = sign_v4_at(
        1_440_938_160, "POST", &parts, "ec2", "us-east-1", &creds("tok"), &given, b"Action=X",
    );
    assert_eq!(value(&h, "x-amz-security-token"), Some("tok"));
    assert_eq!(
        value(&h, "authorization"),
        Some(
            "AWS4-HMAC-SHA256 Credential=AKID/20150830/us-east-1/ec2/aws4_request, \
             SignedHeaders=content-type;host;user-agent;x-amz-content-sha256;x-amz-date;\
             x-amz-security-token, \
             Signature=efaaf526f30f71311cecf9aaaa31f9c79e8facfcc40d036f11fbe02787e709a8"
        ),
    );
}

#[test]
fn given_headers_win() {
    let parts = UrlParts { host: None, path: "/".to_string(), query: None };
    let given = vec![pair("Host", "first"), pair("HOST", "last")];
    let h = sign_v4_at(0, "GET", &parts, "s3", "r", &creds(""), &given, &[]);
    assert_eq!(value(&h, "host"), Some("last"));
    assert_eq!(value(&h, "x-amz-date"), Some("19700101T000000Z"));
    assert_eq!(h.entries.len(), 5);
}

#[test]
fn requests_are_signed_now() {
    let h = sign_v4("GET", "https://h.example/p%20q?b=2&a=1", "s3", "r", &creds(""), &vec![], &[]);
    assert_eq!(value(&h, "host"), Some("h.example"));
    let date = value(&h, "x-amz-date").unwrap();
    assert_eq!(date.len(), 16);
    assert!(date > "20240101T000000Z");
    assert!(value(&h, "authorization").unwrap().contains(&date[..8]));
}

#[test]
fn headers_are_kept_in_order() {
    let mut h = Headers::new();
    h.insert("b".to_string(), "1".to_string());
    h.insert("a".to_string(), "2".to_string());
    h.insert("c".to_string(), "3".to_string());
    h.insert("b".to_string(), "4".to_string());
    assert_eq!(h.entries, vec![pair("a", "2"), pair("b", "4"), pair("c", "3")]);
}
