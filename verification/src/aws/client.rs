//! The requests that the archive workflow makes.
use crate::aws::endpoints::{
    bucket_address, ec2_endpoint, escape_s3_key, escaped_key, form_body, form_of,
    law_forms_are_written_pair_by_pair, s3_endpoint, slice_pairs, sts_endpoint,
};
use crate::aws::request::{AwsRequest, AwsRequestView, SignedRequest};
use crate::aws::sign::{sign_v4, signed_headers, Signing};
use crate::constants::{EC2_API_VERSION, USER_AGENT};
use crate::log::Logger;
use crate::number::{integer_text, signed_text};
use crate::outside::{form_text, parse_url, url_parts, LAST_SECOND};
use crate::text::{pair_texts, same};
use crate::types::{Credentials, MultipartPart, MultipartPartView};
use crate::xml::{escaped, plain_element, xml_escape};
use vstd::prelude::*;
use vstd::slice::slice_to_vec;
use vstd::string::*;
use vstd::utf8::encode_utf8;

verus! {

/// Makes the requests of one account in one region.
pub struct AwsClient {
    pub region: String,
    pub creds: Credentials,
    pub log: Logger,
}

/// A request to EC2 or STS: a form that is posted.
pub open spec fn form_request(
    service: Seq<char>,
    endpoint: Seq<char>,
    params: Seq<(Seq<char>, Seq<char>)>,
) -> AwsRequestView {
    AwsRequestView {
        service,
        method: "POST"@,
        endpoint,
        path: "/"@,
        raw_query: Seq::empty(),
        headers: seq![("content-type"@, "application/x-www-form-urlencoded; charset=utf-8"@)],
        body: encode_utf8(form_of(params)),
    }
}

/// A request to EC2, in the version of its interface that the library speaks.
pub open spec fn ec2_request(
    region: Seq<char>,
    params: Seq<(Seq<char>, Seq<char>)>,
) -> AwsRequestView {
    form_request(
        "ec2"@,
        "https://ec2."@ + region + ".amazonaws.com"@,
        params.push(("Version"@, EC2_API_VERSION@)),
    )
}

/// A request to S3 about a bucket, or about an object in it.
pub open spec fn s3_request(
    region: Seq<char>,
    bucket: Seq<char>,
    method: Seq<char>,
    path: Seq<char>,
    raw_query: Seq<char>,
    headers: Seq<(Seq<char>, Seq<char>)>,
    body: Seq<char>,
) -> AwsRequestView {
    AwsRequestView {
        service: "s3"@,
        method,
        endpoint: bucket_address(bucket, region),
        path,
        raw_query,
        headers,
        body: encode_utf8(body),
    }
}

/// The path of an object.
pub open spec fn object_path(key: Seq<char>) -> Seq<char> {
    "/"@ + escaped_key(key)
}

/// The path of an object, with its bucket.
pub open spec fn copy_source(bucket: Seq<char>, key: Seq<char>) -> Seq<char> {
    "/"@ + bucket + "/"@ + escaped_key(key)
}

/// The one header of a request that sends XML.
pub open spec fn xml_header() -> Seq<(Seq<char>, Seq<char>)> {
    seq![("content-type"@, "application/xml"@)]
}

/// The bytes of a text.
fn bytes_of(text: &str) -> (r: Vec<u8>)
    ensures
        r@ == encode_utf8(text@),
{
    slice_to_vec(text.as_bytes())
}

/// One header.
fn header(name: &str, value: &str) -> (r: (String, String))
    ensures
        r.0@ == name@,
        r.1@ == value@,
{
    (name.to_owned(), value.to_owned())
}

/// No headers.
fn no_headers() -> (r: Vec<(String, String)>)
    ensures
        pair_texts(r@) == Seq::<(Seq<char>, Seq<char>)>::empty(),
{
    let r: Vec<(String, String)> = Vec::new();
    assert(pair_texts(r@) == Seq::<(Seq<char>, Seq<char>)>::empty());
    r
}

/// The header of a request that sends XML.
fn xml_headers() -> (r: Vec<(String, String)>)
    ensures
        pair_texts(r@) == xml_header(),
{
    let r = vec![header("content-type", "application/xml")];
    assert(pair_texts(r@) == xml_header());
    r
}

/// A form that is posted.
fn post_form(service: &str, endpoint: String, params: Vec<(&str, &str)>) -> (r: AwsRequest)
    ensures
        r@ == form_request(service@, endpoint@, slice_pairs(params@)),
{
    let headers = vec![
        header("content-type", "application/x-www-form-urlencoded; charset=utf-8"),
    ];
    let r = AwsRequest {
        service: service.to_owned(),
        method: "POST".to_owned(),
        endpoint,
        path: "/".to_owned(),
        raw_query: String::new(),
        headers,
        body: bytes_of(form_body(params.as_slice()).as_str()),
    };
    assert(r@.headers == form_request(service@, endpoint@, slice_pairs(params@)).headers);
    r
}

/// The path of an object.
fn path_of(key: &str) -> (r: String)
    ensures
        r@ == object_path(key@),
{
    let mut path = "/".to_owned();
    path.append(escape_s3_key(key).as_str());
    path
}

/// The path of an object, with its bucket.
pub fn source_of(bucket: &str, key: &str) -> (r: String)
    ensures
        r@ == copy_source(bucket@, key@),
{
    let mut source = "/".to_owned();
    source.append(bucket);
    source.append("/");
    source.append(escape_s3_key(key).as_str());
    source
}

/// The configuration that blocks all public access to a bucket.
pub const PUBLIC_ACCESS_BLOCK: &'static str =
    "<PublicAccessBlockConfiguration xmlns=\"http://s3.amazonaws.com/doc/2006-03-01/\"><BlockPublicAcls>true</BlockPublicAcls><IgnorePublicAcls>true</IgnorePublicAcls><BlockPublicPolicy>true</BlockPublicPolicy><RestrictPublicBuckets>true</RestrictPublicBuckets></PublicAccessBlockConfiguration>";

/// The configuration that encrypts what a bucket holds.
pub const BUCKET_ENCRYPTION: &'static str =
    "<ServerSideEncryptionConfiguration xmlns=\"http://s3.amazonaws.com/doc/2006-03-01/\"><Rule><ApplyServerSideEncryptionByDefault><SSEAlgorithm>AES256</SSEAlgorithm></ApplyServerSideEncryptionByDefault></Rule></ServerSideEncryptionConfiguration>";

/// The configuration of a bucket that is made in a region; the first region takes none.
pub open spec fn bucket_configuration(region: Seq<char>) -> Seq<char> {
    if region == "us-east-1"@ {
        Seq::empty()
    } else {
        "<CreateBucketConfiguration xmlns=\"http://s3.amazonaws.com/doc/2006-03-01/\"><LocationConstraint>"@
            + escaped(region) + "</LocationConstraint></CreateBucketConfiguration>"@
    }
}

/// The configuration of a bucket that is made in a region.
fn configuration_of(region: &str) -> (r: String)
    ensures
        r@ == bucket_configuration(region@),
{
    if same(region, "us-east-1") {
        return String::new();
    }
    let mut out =
        "<CreateBucketConfiguration xmlns=\"http://s3.amazonaws.com/doc/2006-03-01/\"><LocationConstraint>".to_owned();
    out.append(xml_escape(region).as_str());
    out.append("</LocationConstraint></CreateBucketConfiguration>");
    out
}

/// The views of a list of parts.
pub open spec fn part_views(parts: Seq<MultipartPart>) -> Seq<MultipartPartView> {
    parts.map_values(|p: MultipartPart| p@)
}

/// The elements that list the parts of an upload.
pub open spec fn part_elements(parts: Seq<MultipartPartView>) -> Seq<char>
    decreases parts.len(),
{
    if parts.len() == 0 {
        Seq::empty()
    } else {
        part_elements(parts.drop_last()) + "<Part><PartNumber>"@ + integer_text(
            parts.last().part_number,
        ) + "</PartNumber><ETag>"@ + escaped(parts.last().etag) + "</ETag></Part>"@
    }
}

/// The document that puts the parts of an upload together.
pub open spec fn completion(parts: Seq<MultipartPartView>) -> Seq<char> {
    "<CompleteMultipartUpload xmlns=\"http://s3.amazonaws.com/doc/2006-03-01/\">"@ + part_elements(
        parts,
    ) + "</CompleteMultipartUpload>"@
}

/// The document that puts the parts of an upload together.
fn completion_of(parts: &Vec<MultipartPart>) -> (r: String)
    ensures
        r@ == completion(part_views(parts@)),
{
    let ghost all = part_views(parts@);
    let ghost begin = "<CompleteMultipartUpload xmlns=\"http://s3.amazonaws.com/doc/2006-03-01/\">"@;
    let mut body =
        "<CompleteMultipartUpload xmlns=\"http://s3.amazonaws.com/doc/2006-03-01/\">".to_owned();
    assert(body@ == begin + part_elements(all.take(0)));
    for i in 0..parts.len()
        invariant
            all == part_views(parts@),
            body@ == begin + part_elements(all.take(i as int)),
    {
        let ghost before = part_elements(all.take(i as int));
        body.append("<Part><PartNumber>");
        body.append(signed_text(parts[i].part_number as i64).as_str());
        body.append("</PartNumber><ETag>");
        body.append(xml_escape(parts[i].etag.as_str()).as_str());
        body.append("</ETag></Part>");
        assert(all.take(i + 1).drop_last() == all.take(i as int));
        assert(all.take(i + 1).last() == parts@[i as int]@);
        assert(body@ == begin + part_elements(all.take(i + 1)));
    }
    assert(all.take(all.len() as int) == all);
    body.append("</CompleteMultipartUpload>");
    body
}

/// The query that names an upload.
fn upload_query(upload_id: &str) -> (r: String)
    ensures
        r@ == form_of(seq![("uploadId"@, upload_id@)]),
{
    let params = vec![("uploadId", upload_id)];
    assert(slice_pairs(params@) == seq![("uploadId"@, upload_id@)]);
    form_body(params.as_slice())
}

impl AwsClient {
    /// A client for one account in one region.
    pub fn new(region: String, creds: Credentials, log: Logger) -> (r: Self)
        ensures
            r == (AwsClient { region, creds, log }),
    {
        AwsClient { region, creds, log }
    }

    /// Signs a request now; there is nothing to send where the request does not go to a URL.
    pub fn signed_request(&self, request: &AwsRequest) -> (r: Option<SignedRequest>)
        ensures
            match r {
                None => url_parts(request@.url()) is None,
                Some(s) => {
                    &&& url_parts(request@.url()) is Some
                    &&& s.method@ == request@.method
                    &&& s.url@ == request@.url()
                    &&& s.body@ == request@.body
                    &&& s.headers.well_formed()
                    &&& exists|secs: int|
                        0 <= secs <= LAST_SECOND && s.headers@ == #[trigger] signed_headers(
                            secs,
                            (Signing {
                                method: request@.method,
                                url: url_parts(request@.url())->0,
                                service: request@.service,
                                region: self.region@,
                                creds: self.creds@,
                                headers: request@.headers,
                                body: request@.body,
                            }),
                        )
                },
            },
    {
        let url = request.url();
        if parse_url(url.as_str()).is_none() {
            return None;
        }
        let headers = sign_v4(
            request.method.as_str(),
            url.as_str(),
            request.service.as_str(),
            self.region.as_str(),
            &self.creds,
            &request.headers,
            request.body.as_slice(),
        );
        Some(
            SignedRequest {
                method: request.method.clone(),
                url,
                headers,
                body: slice_to_vec(request.body.as_slice()),
            },
        )
    }

    /// Asks whose credentials these are.
    pub fn get_caller_identity(&self) -> (r: AwsRequest)
        ensures
            r@ == form_request(
                "sts"@,
                "https://sts."@ + self.region@ + ".amazonaws.com"@,
                seq![("Action"@, "GetCallerIdentity"@), ("Version"@, "2011-06-15"@)],
            ),
    {
        let params = vec![("Action", "GetCallerIdentity"), ("Version", "2011-06-15")];
        assert(slice_pairs(params@) == seq![
            ("Action"@, "GetCallerIdentity"@),
            ("Version"@, "2011-06-15"@),
        ]);
        post_form("sts", sts_endpoint(self.region.as_str()), params)
    }

    /// Asks EC2.
    fn ec2_query(&self, params: Vec<(&str, &str)>) -> (r: AwsRequest)
        ensures
            r@ == ec2_request(self.region@, slice_pairs(params@)),
    {
        let ghost given = slice_pairs(params@);
        let mut params = params;
        params.push(("Version", EC2_API_VERSION));
        assert(slice_pairs(params@) == given.push(("Version"@, EC2_API_VERSION@)));
        post_form("ec2", ec2_endpoint(self.region.as_str()), params)
    }

    /// Asks whether an image may be stored in a bucket.
    pub fn ec2_dry_run_create_store_image_task(&self, image_id: &str, bucket: &str) -> (r: AwsRequest)
        ensures
            r@ == ec2_request(
                self.region@,
                seq![
                    ("Action"@, "CreateStoreImageTask"@),
                    ("ImageId"@, image_id@),
                    ("Bucket"@, bucket@),
                    ("DryRun"@, "true"@),
                ],
            ),
    {
        let params = vec![
            ("Action", "CreateStoreImageTask"),
            ("ImageId", image_id),
            ("Bucket", bucket),
            ("DryRun", "true"),
        ];
        assert(slice_pairs(params@) == seq![
            ("Action"@, "CreateStoreImageTask"@),
            ("ImageId"@, image_id@),
            ("Bucket"@, bucket@),
            ("DryRun"@, "true"@),
        ]);
        self.ec2_query(params)
    }

    /// Asks to store an image in a bucket, in an object that is tagged with where it comes from.
    pub fn ec2_create_store_image_task(&self, image_id: &str, bucket: &str) -> (r: AwsRequest)
        ensures
            r@ == ec2_request(
                self.region@,
                seq![
                    ("Action"@, "CreateStoreImageTask"@),
                    ("ImageId"@, image_id@),
                    ("Bucket"@, bucket@),
                    ("S3ObjectTag.1.Key"@, "ArchivedBy"@),
                    ("S3ObjectTag.1.Value"@, USER_AGENT@),
                    ("S3ObjectTag.2.Key"@, "SourceAmiId"@),
                    ("S3ObjectTag.2.Value"@, image_id@),
                ],
            ),
    {
        let params = vec![
            ("Action", "CreateStoreImageTask"),
            ("ImageId", image_id),
            ("Bucket", bucket),
            ("S3ObjectTag.1.Key", "ArchivedBy"),
            ("S3ObjectTag.1.Value", USER_AGENT),
            ("S3ObjectTag.2.Key", "SourceAmiId"),
            ("S3ObjectTag.2.Value", image_id),
        ];
        assert(slice_pairs(params@) == seq![
            ("Action"@, "CreateStoreImageTask"@),
            ("ImageId"@, image_id@),
            ("Bucket"@, bucket@),
            ("S3ObjectTag.1.Key"@, "ArchivedBy"@),
            ("S3ObjectTag.1.Value"@, USER_AGENT@),
            ("S3ObjectTag.2.Key"@, "SourceAmiId"@),
            ("S3ObjectTag.2.Value"@, image_id@),
        ]);
        self.ec2_query(params)
    }

    /// Asks for the store tasks of an image.
    pub fn ec2_latest_store_image_task(&self, image_id: &str) -> (r: AwsRequest)
        ensures
            r@ == ec2_request(
                self.region@,
                seq![
                    ("Action"@, "DescribeStoreImageTasks"@),
                    ("ImageId.1"@, image_id@),
                ],
            ),
    {
        let params = vec![
            ("Action", "DescribeStoreImageTasks"),
            ("ImageId.1", image_id),
        ];
        assert(slice_pairs(params@) == seq![
            ("Action"@, "DescribeStoreImageTasks"@),
            ("ImageId.1"@, image_id@),
        ]);
        self.ec2_query(params)
    }

    /// Asks whether an image may be deregistered and its snapshots deleted.
    pub fn ec2_dry_run_deregister_image(&self, image_id: &str) -> (r: AwsRequest)
        ensures
            r@ == ec2_request(
                self.region@,
                seq![
                    ("Action"@, "DeregisterImage"@),
                    ("ImageId"@, image_id@),
                    ("DeleteAssociatedSnapshots"@, "true"@),
                    ("DryRun"@, "true"@),
                ],
            ),
    {
        let params = vec![
            ("Action", "DeregisterImage"),
            ("ImageId", image_id),
            ("DeleteAssociatedSnapshots", "true"),
            ("DryRun", "true"),
        ];
        assert(slice_pairs(params@) == seq![
            ("Action"@, "DeregisterImage"@),
            ("ImageId"@, image_id@),
            ("DeleteAssociatedSnapshots"@, "true"@),
            ("DryRun"@, "true"@),
        ]);
        self.ec2_query(params)
    }

    /// Asks to deregister an image and to delete its snapshots.
    pub fn ec2_deregister_image_delete_snapshots(&self, image_id: &str) -> (r: AwsRequest)
        ensures
            r@ == ec2_request(
                self.region@,
                seq![
                    ("Action"@, "DeregisterImage"@),
                    ("ImageId"@, image_id@),
                    ("DeleteAssociatedSnapshots"@, "true"@),
                ],
            ),
    {
        let params = vec![
            ("Action", "DeregisterImage"),
            ("ImageId", image_id),
            ("DeleteAssociatedSnapshots", "true"),
        ];
        assert(slice_pairs(params@) == seq![
            ("Action"@, "DeregisterImage"@),
            ("ImageId"@, image_id@),
            ("DeleteAssociatedSnapshots"@, "true"@),
        ]);
        self.ec2_query(params)
    }

    /// Asks for the snapshots of an image.
    pub fn ec2_describe_image_snapshot_ids(&self, image_id: &str) -> (r: AwsRequest)
        ensures
            r@ == ec2_request(
                self.region@,
                seq![
                    ("Action"@, "DescribeImages"@),
                    ("ImageId.1"@, image_id@),
                ],
            ),
    {
        let params = vec![
            ("Action", "DescribeImages"),
            ("ImageId.1", image_id),
        ];
        assert(slice_pairs(params@) == seq![
            ("Action"@, "DescribeImages"@),
            ("ImageId.1"@, image_id@),
        ]);
        self.ec2_query(params)
    }

    /// A request about a bucket, or about an object in it.
    fn s3_request(
        &self,
        bucket: &str,
        method: &str,
        path: String,
        raw_query: String,
        headers: Vec<(String, String)>,
        body: &str,
    ) -> (r: AwsRequest)
        ensures
            r@ == s3_request(
                self.region@,
                bucket@,
                method@,
                path@,
                raw_query@,
                pair_texts(headers@),
                body@,
            ),
    {
        AwsRequest {
            service: "s3".to_owned(),
            method: method.to_owned(),
            endpoint: s3_endpoint(bucket, self.region.as_str()),
            path,
            raw_query,
            headers,
            body: bytes_of(body),
        }
    }

    /// Asks whether a bucket is there.
    pub fn s3_bucket_exists(&self, bucket: &str) -> (r: AwsRequest)
        ensures
            r@ == s3_request(
                self.region@,
                bucket@,
                "HEAD"@,
                "/"@,
                Seq::empty(),
                Seq::empty(),
                Seq::empty(),
            ),
    {
        proof {
            reveal_strlit("");
            assert(""@ == Seq::<char>::empty());
        }
        self.s3_request(bucket, "HEAD", "/".to_owned(), String::new(), no_headers(), "")
    }

    /// Asks to make a bucket in the region of the client.
    pub fn s3_create_bucket(&self, bucket: &str) -> (r: AwsRequest)
        ensures
            r@ == s3_request(
                self.region@,
                bucket@,
                "PUT"@,
                "/"@,
                Seq::empty(),
                xml_header(),
                bucket_configuration(self.region@),
            ),
    {
        let body = configuration_of(self.region.as_str());
        self.s3_request(bucket, "PUT", "/".to_owned(), String::new(), xml_headers(), body.as_str())
    }

    /// Asks to block public access to a bucket.
    pub fn s3_put_public_access_block(&self, bucket: &str) -> (r: AwsRequest)
        ensures
            r@ == s3_request(
                self.region@,
                bucket@,
                "PUT"@,
                "/"@,
                "publicAccessBlock"@,
                xml_header(),
                PUBLIC_ACCESS_BLOCK@,
            ),
    {
        self.s3_request(bucket, "PUT", "/".to_owned(), "publicAccessBlock".to_owned(), xml_headers(), PUBLIC_ACCESS_BLOCK)
    }

    /// Asks to encrypt what a bucket holds.
    pub fn s3_put_bucket_encryption(&self, bucket: &str) -> (r: AwsRequest)
        ensures
            r@ == s3_request(
                self.region@,
                bucket@,
                "PUT"@,
                "/"@,
                "encryption"@,
                xml_header(),
                BUCKET_ENCRYPTION@,
            ),
    {
        self.s3_request(bucket, "PUT", "/".to_owned(), "encryption".to_owned(), xml_headers(), BUCKET_ENCRYPTION)
    }

    /// Asks about an object.
    pub fn s3_head_object(&self, bucket: &str, key: &str) -> (r: AwsRequest)
        ensures
            r@ == s3_request(
                self.region@,
                bucket@,
                "HEAD"@,
                object_path(key@),
                Seq::empty(),
                Seq::empty(),
                Seq::empty(),
            ),
    {
        proof {
            reveal_strlit("");
            assert(""@ == Seq::<char>::empty());
        }
        self.s3_request(bucket, "HEAD", path_of(key), String::new(), no_headers(), "")
    }

    /// Asks to copy an object onto itself in another storage class, with its metadata and its tags.
    pub fn s3_copy_object_in_place(&self, bucket: &str, key: &str, storage_class: &str) -> (r: AwsRequest)
        ensures
            r@ == s3_request(
                self.region@,
                bucket@,
                "PUT"@,
                object_path(key@),
                Seq::empty(),
                seq![
                    ("x-amz-copy-source"@, copy_source(bucket@, key@)),
                    ("x-amz-metadata-directive"@, "COPY"@),
                    ("x-amz-tagging-directive"@, "COPY"@),
                    ("x-amz-storage-class"@, storage_class@),
                ],
                Seq::empty(),
            ),
    {
        proof {
            reveal_strlit("");
            assert(""@ == Seq::<char>::empty());
        }
        let headers = vec![
            header("x-amz-copy-source", source_of(bucket, key).as_str()),
            header("x-amz-metadata-directive", "COPY"),
            header("x-amz-tagging-directive", "COPY"),
            header("x-amz-storage-class", storage_class),
        ];
        assert(pair_texts(headers@) == seq![
            ("x-amz-copy-source"@, copy_source(bucket@, key@)),
            ("x-amz-metadata-directive"@, "COPY"@),
            ("x-amz-tagging-directive"@, "COPY"@),
            ("x-amz-storage-class"@, storage_class@),
        ]);
        self.s3_request(bucket, "PUT", path_of(key), String::new(), headers, "")
    }

    /// Asks to begin a multipart upload.
    pub fn s3_create_multipart_upload(&self, bucket: &str, key: &str, storage_class: &str) -> (r: AwsRequest)
        ensures
            r@ == s3_request(
                self.region@,
                bucket@,
                "POST"@,
                object_path(key@),
                "uploads"@,
                seq![
                    ("x-amz-storage-class"@, storage_class@),
                    ("content-type"@, "application/octet-stream"@),
                ],
                Seq::empty(),
            ),
    {
        proof {
            reveal_strlit("");
            assert(""@ == Seq::<char>::empty());
        }
        let headers = vec![
            header("x-amz-storage-class", storage_class),
            header("content-type", "application/octet-stream"),
        ];
        assert(pair_texts(headers@) == seq![
            ("x-amz-storage-class"@, storage_class@),
            ("content-type"@, "application/octet-stream"@),
        ]);
        self.s3_request(bucket, "POST", path_of(key), "uploads".to_owned(), headers, "")
    }

    /// Asks to copy the bytes `start` to `end` of an object into a part of an upload.
    pub fn s3_upload_part_copy(&self, bucket: &str, key: &str, upload_id: &str, part_number: i32, start: i64, end: i64) -> (r: AwsRequest)
        ensures
            r@ == s3_request(
                self.region@,
                bucket@,
                "PUT"@,
                object_path(key@),
                form_of(seq![("partNumber"@, integer_text(part_number as int)), ("uploadId"@, upload_id@)]),
                seq![
                    ("x-amz-copy-source"@, copy_source(bucket@, key@)),
                    ("x-amz-copy-source-range"@, "bytes="@ + integer_text(start as int) + "-"@ + integer_text(end as int)),
                ],
                Seq::empty(),
            ),
    {
        proof {
            reveal_strlit("");
            assert(""@ == Seq::<char>::empty());
        }
        let number = signed_text(part_number as i64);
        let params = vec![("partNumber", number.as_str()), ("uploadId", upload_id)];
        assert(slice_pairs(params@) == seq![
            ("partNumber"@, integer_text(part_number as int)),
            ("uploadId"@, upload_id@),
        ]);
        let raw_query = form_body(params.as_slice());
        let mut range = "bytes=".to_owned();
        range.append(signed_text(start).as_str());
        range.append("-");
        range.append(signed_text(end).as_str());
        let headers = vec![
            header("x-amz-copy-source", source_of(bucket, key).as_str()),
            header("x-amz-copy-source-range", range.as_str()),
        ];
        assert(pair_texts(headers@) == seq![
            ("x-amz-copy-source"@, copy_source(bucket@, key@)),
            ("x-amz-copy-source-range"@, "bytes="@ + integer_text(start as int) + "-"@ + integer_text(end as int)),
        ]);
        self.s3_request(bucket, "PUT", path_of(key), raw_query, headers, "")
    }

    /// Asks to put the parts of an upload together.
    pub fn s3_complete_multipart_upload(&self, bucket: &str, key: &str, upload_id: &str, parts: &Vec<MultipartPart>) -> (r: AwsRequest)
        ensures
            r@ == s3_request(
                self.region@,
                bucket@,
                "POST"@,
                object_path(key@),
                form_of(seq![("uploadId"@, upload_id@)]),
                xml_header(),
                completion(part_views(parts@)),
            ),
    {
        self.s3_request(bucket, "POST", path_of(key), upload_query(upload_id), xml_headers(), completion_of(parts).as_str())
    }

    /// Asks to give up an upload.
    pub fn s3_abort_multipart_upload(&self, bucket: &str, key: &str, upload_id: &str) -> (r: AwsRequest)
        ensures
            r@ == s3_request(
                self.region@,
                bucket@,
                "DELETE"@,
                object_path(key@),
                form_of(seq![("uploadId"@, upload_id@)]),
                Seq::empty(),
                Seq::empty(),
            ),
    {
        proof {
            reveal_strlit("");
            assert(""@ == Seq::<char>::empty());
        }
        self.s3_request(bucket, "DELETE", path_of(key), upload_query(upload_id), no_headers(), "")
    }

    /// Asks to delete an object.
    pub fn s3_delete_object(&self, bucket: &str, key: &str) -> (r: AwsRequest)
        ensures
            r@ == s3_request(
                self.region@,
                bucket@,
                "DELETE"@,
                object_path(key@),
                Seq::empty(),
                Seq::empty(),
                Seq::empty(),
            ),
    {
        proof {
            reveal_strlit("");
            assert(""@ == Seq::<char>::empty());
        }
        self.s3_request(bucket, "DELETE", path_of(key), String::new(), no_headers(), "")
    }

    /// Asks to delete a bucket, which S3 does only where it is empty.
    pub fn s3_delete_bucket(&self, bucket: &str) -> (r: AwsRequest)
        ensures
            r@ == s3_request(
                self.region@,
                bucket@,
                "DELETE"@,
                "/"@,
                Seq::empty(),
                Seq::empty(),
                Seq::empty(),
            ),
    {
        proof {
            reveal_strlit("");
            assert(""@ == Seq::<char>::empty());
        }
        self.s3_request(bucket, "DELETE", "/".to_owned(), String::new(), no_headers(), "")
    }

    /// Asks for the unfinished uploads whose keys begin with `key`.
    pub fn s3_list_multipart_uploads(&self, bucket: &str, key: &str) -> (r: AwsRequest)
        ensures
            r@ == s3_request(
                self.region@,
                bucket@,
                "GET"@,
                "/"@,
                "uploads&"@ + form_of(seq![("prefix"@, key@)]),
                Seq::empty(),
                Seq::empty(),
            ),
    {
        proof {
            reveal_strlit("");
            assert(""@ == Seq::<char>::empty());
        }
        let params = vec![("prefix", key)];
        assert(slice_pairs(params@) == seq![("prefix"@, key@)]);
        let mut raw_query = "uploads&".to_owned();
        raw_query.append(form_body(params.as_slice()).as_str());
        self.s3_request(bucket, "GET", "/".to_owned(), raw_query, no_headers(), "")
    }
}

/// Requests to EC2 and STS are forms that are posted, and those to EC2 name the version of its
/// interface last.
pub proof fn law_forms_are_posted(
    service: Seq<char>,
    region: Seq<char>,
    params: Seq<(Seq<char>, Seq<char>)>,
)
    ensures
        ({
            let endpoint = "https://ec2."@ + region + ".amazonaws.com"@;
            let version = ("Version"@, "2016-11-15"@);
            let r = ec2_request(region, params);
            &&& r == form_request("ec2"@, endpoint, params.push(version))
            &&& params.len() > 0 ==> r.body == encode_utf8(
                form_of(params) + seq!['&'] + form_text("Version"@) + seq!['='] + form_text(
                    "2016-11-15"@,
                ),
            )
        }),
        ({
            let r = form_request(service, region, params);
            &&& r.service == service
            &&& r.method == "POST"@
            &&& r.endpoint == region
            &&& r.path == "/"@
            &&& r.raw_query.len() == 0
            &&& r.headers == seq![
                ("content-type"@, "application/x-www-form-urlencoded; charset=utf-8"@),
            ]
            &&& r.body == encode_utf8(form_of(params))
        }),
{
    law_forms_are_written_pair_by_pair(params, ("Version"@, "2016-11-15"@));
}

/// Requests to S3 go to the host of the bucket in the region of the client, with what they are
/// given; the path of an object is its key behind a slash, and a copy names the bucket too.
pub proof fn law_s3_requests_go_to_the_bucket(
    region: Seq<char>,
    bucket: Seq<char>,
    method: Seq<char>,
    path: Seq<char>,
    raw_query: Seq<char>,
    headers: Seq<(Seq<char>, Seq<char>)>,
    body: Seq<char>,
    key: Seq<char>,
)
    ensures
        s3_request(region, bucket, method, path, raw_query, headers, body) == (AwsRequestView {
            service: "s3"@,
            method,
            endpoint: "https://"@ + bucket + ".s3."@ + region + ".amazonaws.com"@,
            path,
            raw_query,
            headers,
            body: encode_utf8(body),
        }),
        object_path(key) == seq!['/'] + escaped_key(key),
        copy_source(bucket, key) == seq!['/'] + bucket + object_path(key),
        xml_header() == seq![("content-type"@, "application/xml"@)],
{
    reveal_strlit("/");
    assert("/"@ == seq!['/']);
    assert(copy_source(bucket, key) == seq!['/'] + bucket + object_path(key));
}

/// A bucket is made where the client is: the configuration names the region, except for the first
/// region, where there is none.
pub proof fn law_buckets_are_made_in_the_region(region: Seq<char>)
    ensures
        region == "us-east-1"@ ==> bucket_configuration(region).len() == 0,
        region != "us-east-1"@ ==> bucket_configuration(region)
            == "<CreateBucketConfiguration xmlns=\"http://s3.amazonaws.com/doc/2006-03-01/\">"@
            + "<LocationConstraint>"@ + escaped(region) + "</LocationConstraint>"@
            + "</CreateBucketConfiguration>"@,
{
    reveal_strlit(
        "<CreateBucketConfiguration xmlns=\"http://s3.amazonaws.com/doc/2006-03-01/\"><LocationConstraint>",
    );
    reveal_strlit("<CreateBucketConfiguration xmlns=\"http://s3.amazonaws.com/doc/2006-03-01/\">");
    reveal_strlit("<LocationConstraint>");
    reveal_strlit("</LocationConstraint></CreateBucketConfiguration>");
    reveal_strlit("</LocationConstraint>");
    reveal_strlit("</CreateBucketConfiguration>");
    assert("<CreateBucketConfiguration xmlns=\"http://s3.amazonaws.com/doc/2006-03-01/\"><LocationConstraint>"@
        == "<CreateBucketConfiguration xmlns=\"http://s3.amazonaws.com/doc/2006-03-01/\">"@
        + "<LocationConstraint>"@);
    assert("</LocationConstraint></CreateBucketConfiguration>"@ == "</LocationConstraint>"@
        + "</CreateBucketConfiguration>"@);
    let begin = "<CreateBucketConfiguration xmlns=\"http://s3.amazonaws.com/doc/2006-03-01/\">"@;
    assert(begin + "<LocationConstraint>"@ + escaped(region) + ("</LocationConstraint>"@
        + "</CreateBucketConfiguration>"@) == begin + "<LocationConstraint>"@ + escaped(region)
        + "</LocationConstraint>"@ + "</CreateBucketConfiguration>"@);
}

/// The document that ends an upload lists the parts in order, each with its number and its tag.
pub proof fn law_parts_are_listed_in_order(
    parts: Seq<MultipartPartView>,
    more: Seq<MultipartPartView>,
    p: MultipartPartView,
)
    ensures
        completion(parts)
            == "<CompleteMultipartUpload xmlns=\"http://s3.amazonaws.com/doc/2006-03-01/\">"@
            + part_elements(parts) + "</CompleteMultipartUpload>"@,
        part_elements(Seq::empty()).len() == 0,
        part_elements(seq![p]) == "<Part><PartNumber>"@ + integer_text(p.part_number)
            + "</PartNumber><ETag>"@ + escaped(p.etag) + "</ETag></Part>"@,
        part_elements(parts + more) == part_elements(parts) + part_elements(more),
    decreases more.len(),
{
    assert(seq![p].drop_last() == Seq::<MultipartPartView>::empty());
    assert(part_elements(Seq::<MultipartPartView>::empty()) + "<Part><PartNumber>"@
        == "<Part><PartNumber>"@);
    if more.len() == 0 {
        assert(parts + more == parts);
        assert(part_elements(parts) + part_elements(more) == part_elements(parts));
    } else {
        let all = parts + more;
        law_parts_are_listed_in_order(parts, more.drop_last(), p);
        assert(all.drop_last() == parts + more.drop_last());
        assert(all.last() == more.last());
        let number = integer_text(more.last().part_number);
        let tag = escaped(more.last().etag);
        let x = part_elements(parts);
        let y = part_elements(more.drop_last());
        assert(x + y + "<Part><PartNumber>"@ + number + "</PartNumber><ETag>"@ + tag
            + "</ETag></Part>"@ == x + (y + "<Part><PartNumber>"@ + number
            + "</PartNumber><ETag>"@ + tag + "</ETag></Part>"@));
    }
}

/// The configuration of a bucket blocks public access in all four ways, and encrypts what the
/// bucket holds with AES-256.
pub proof fn law_buckets_are_closed_and_encrypted()
    ensures
        PUBLIC_ACCESS_BLOCK@
            == "<PublicAccessBlockConfiguration xmlns=\"http://s3.amazonaws.com/doc/2006-03-01/\">"@
            + plain_element("BlockPublicAcls"@, "true"@) + plain_element(
            "IgnorePublicAcls"@,
            "true"@,
        ) + plain_element("BlockPublicPolicy"@, "true"@) + plain_element(
            "RestrictPublicBuckets"@,
            "true"@,
        ) + "</PublicAccessBlockConfiguration>"@,
        BUCKET_ENCRYPTION@
            == "<ServerSideEncryptionConfiguration xmlns=\"http://s3.amazonaws.com/doc/2006-03-01/\">"@
            + plain_element(
            "Rule"@,
            plain_element(
                "ApplyServerSideEncryptionByDefault"@,
                plain_element("SSEAlgorithm"@, "AES256"@),
            ),
        ) + "</ServerSideEncryptionConfiguration>"@,
{
    reveal_strlit("<");
    reveal_strlit(">");
    reveal_strlit("</");
    reveal_strlit("true");
    reveal_strlit("BlockPublicAcls");
    reveal_strlit("IgnorePublicAcls");
    reveal_strlit("BlockPublicPolicy");
    reveal_strlit("RestrictPublicBuckets");
    reveal_strlit("<PublicAccessBlockConfiguration xmlns=\"http://s3.amazonaws.com/doc/2006-03-01/\">");
    reveal_strlit("</PublicAccessBlockConfiguration>");
    reveal_strlit(
        "<PublicAccessBlockConfiguration xmlns=\"http://s3.amazonaws.com/doc/2006-03-01/\"><BlockPublicAcls>true</BlockPublicAcls><IgnorePublicAcls>true</IgnorePublicAcls><BlockPublicPolicy>true</BlockPublicPolicy><RestrictPublicBuckets>true</RestrictPublicBuckets></PublicAccessBlockConfiguration>",
    );
    reveal_strlit("Rule");
    reveal_strlit("ApplyServerSideEncryptionByDefault");
    reveal_strlit("SSEAlgorithm");
    reveal_strlit("AES256");
    reveal_strlit(
        "<ServerSideEncryptionConfiguration xmlns=\"http://s3.amazonaws.com/doc/2006-03-01/\">",
    );
    reveal_strlit("</ServerSideEncryptionConfiguration>");
    reveal_strlit(
        "<ServerSideEncryptionConfiguration xmlns=\"http://s3.amazonaws.com/doc/2006-03-01/\"><Rule><ApplyServerSideEncryptionByDefault><SSEAlgorithm>AES256</SSEAlgorithm></ApplyServerSideEncryptionByDefault></Rule></ServerSideEncryptionConfiguration>",
    );
}

}
