//! Copying an object onto itself in another storage class: at once where it is small, and part by
//! part where it is large.
use crate::aws::client::{
    completion, copy_source, object_path, part_elements, part_views, s3_request, xml_header,
};
use crate::aws::endpoints::{escaped_key, form_of, law_forms_are_written_pair_by_pair};
use crate::aws::reply::{done, etag, read_done, read_etag, read_upload_id, upload_id};
use crate::aws::request::{reply_view, AwsRequest, AwsRequestView, HttpResult, HttpResultView};
use crate::aws::AwsClient;
use crate::constants::{DEFAULT_PART_SIZE_BYTES, MAX_SINGLE_COPY_BYTES};
use crate::error::{AnyError, AnyErrorView, AwsError, AwsErrorView};
use crate::number::integer_text;
use crate::outside::form_text;
use crate::types::{MultipartPart, MultipartPartView};
use vstd::prelude::*;
use vstd::string::*;
use vstd::utf8::encode_utf8;

verus! {

/// The most parts that an upload can have.
pub const MAX_PARTS: i64 = 10_000;

/// `a / b`, rounded up.
pub open spec fn quotient_up(a: int, b: int) -> int {
    (a + b - 1) / b
}

/// The size of the parts that an object of `size` bytes is copied in: the usual size, or the
/// smallest with which [`MAX_PARTS`] parts are enough.
pub open spec fn part_size(size: int) -> int {
    if quotient_up(size, DEFAULT_PART_SIZE_BYTES as int) > MAX_PARTS {
        quotient_up(size, MAX_PARTS as int)
    } else {
        DEFAULT_PART_SIZE_BYTES as int
    }
}

/// The number of parts that an object of `size` bytes is copied in.
pub open spec fn parts_count(size: int) -> int {
    quotient_up(size, part_size(size))
}

/// The first byte of part `number`, which counts from 1.
pub open spec fn part_start(size: int, number: int) -> int {
    (number - 1) * part_size(size)
}

/// The last byte of part `number`.
pub open spec fn part_end(size: int, number: int) -> int {
    let end = part_start(size, number) + part_size(size) - 1;
    if end < size - 1 {
        end
    } else {
        size - 1
    }
}

/// A size whose parts can be counted without overflow.
pub open spec fn divisible(size: int) -> bool {
    0 < size && size + DEFAULT_PART_SIZE_BYTES - 1 <= i64::MAX
}

/// The parts cover the object from its first byte to its last, without a gap and without overlap;
/// none is empty or larger than the size of the parts, and there are no more than an upload can
/// have.
pub proof fn law_parts_tile_the_object(size: int, number: int)
    requires
        0 < size,
        1 <= number <= parts_count(size),
    ensures
        1 <= parts_count(size) <= MAX_PARTS,
        part_start(size, 1) == 0,
        part_end(size, parts_count(size)) == size - 1,
        number < parts_count(size) ==> part_start(size, number + 1) == part_end(size, number) + 1,
        0 <= part_start(size, number) <= part_end(size, number) < size,
        part_end(size, number) - part_start(size, number) < part_size(size),
        0 < part_size(size),
{
    lemma_parts(size);
    let p = part_size(size);
    let c = parts_count(size);
    assert(number < c ==> number * p <= (c - 1) * p) by (nonlinear_arith)
        requires
            p > 0,
    ;
    assert((number - 1) * p <= (c - 1) * p) by (nonlinear_arith)
        requires
            p > 0,
            number <= c,
    ;
    assert((number - 1) * p >= 0) by (nonlinear_arith)
        requires
            p > 0,
            number >= 1,
    ;
    assert((number - 1) * p + p == number * p) by (nonlinear_arith);
    assert((c - 1) * p + p == c * p) by (nonlinear_arith);
    assert((1 - 1) * p == 0) by (nonlinear_arith);
    assert((number + 1 - 1) * p == number * p) by (nonlinear_arith);
}

/// The bounds of the number of parts and of their size.
proof fn lemma_parts(size: int)
    requires
        0 < size,
    ensures
        0 < part_size(size),
        1 <= parts_count(size) <= MAX_PARTS,
        (parts_count(size) - 1) * part_size(size) < size <= parts_count(size) * part_size(size),
{
    let d = DEFAULT_PART_SIZE_BYTES as int;
    let p = part_size(size);
    let c = parts_count(size);
    lemma_quotient_up(size, d);
    lemma_quotient_up(size, MAX_PARTS as int);
    lemma_quotient_up(size, p);
    if quotient_up(size, d) > MAX_PARTS {
        assert(c <= MAX_PARTS) by (nonlinear_arith)
            requires
                (c - 1) * p < size,
                size <= p * 10_000,
                p > 0,
                MAX_PARTS == 10_000,
        ;
    }
}

/// The upward quotient is the least number of pieces of `b` that make up `a`.
proof fn lemma_quotient_up(a: int, b: int)
    requires
        0 < a,
        0 < b,
    ensures
        1 <= quotient_up(a, b),
        (quotient_up(a, b) - 1) * b < a <= quotient_up(a, b) * b,
        quotient_up(a, b) * b < a + b,
{
    let q = quotient_up(a, b);
    let r = (a + b - 1) % b;
    vstd::arithmetic::div_mod::lemma_fundamental_div_mod(a + b - 1, b);
    vstd::arithmetic::div_mod::lemma_mod_bound(a + b - 1, b);
    assert(b * q + r == a + b - 1);
    assert(b * q == q * b) by (nonlinear_arith);
    assert((q - 1) * b == q * b - b) by (nonlinear_arith);
    assert(1 <= q) by (nonlinear_arith)
        requires
            q * b >= a,
            a > 0,
            b > 0,
    ;
}

/// The size and the number of the parts that an object of `size` bytes is copied in.
pub fn plan_parts(size: i64) -> (r: (i64, i32))
    requires
        divisible(size as int),
    ensures
        r.0 == part_size(size as int),
        r.1 == parts_count(size as int),
{
    proof {
        lemma_parts(size as int);
        lemma_quotient_up(size as int, MAX_PARTS as int);
        assert(quotient_up(size as int, MAX_PARTS as int) * 10_000 < size + 10_000);
    }
    let mut part: u64 = DEFAULT_PART_SIZE_BYTES as u64;
    let total: u64 = size as u64;
    if (total + part - 1) / part > 10_000 {
        part = (total + 9_999) / 10_000;
    }
    assert(part == part_size(size as int));
    let count: u64 = (total + part - 1) / part;
    assert(count == parts_count(size as int));
    (part as i64, count as i32)
}

/// The first and the last byte of part `number` of an object of `size` bytes.
pub fn part_range(size: i64, number: i32) -> (r: (i64, i64))
    requires
        divisible(size as int),
        1 <= number <= parts_count(size as int),
    ensures
        r.0 == part_start(size as int, number as int),
        r.1 == part_end(size as int, number as int),
{
    proof {
        law_parts_tile_the_object(size as int, number as int);
    }
    let (part, _) = plan_parts(size);
    let start: i64 = (number as i64 - 1) * part;
    if part - 1 < size - 1 - start {
        (start, start + (part - 1))
    } else {
        (start, size - 1)
    }
}


/// Whether the log tells of part `number` of `count`: of the first, the last and every tenth.
pub fn is_milestone(number: i32, count: i32) -> (r: bool)
    requires
        1 <= number,
    ensures
        r == (number == 1 || number == count || number as int % 10 == 0),
{
    number == 1 || number == count || number % 10 == 0
}

/// How far a copy has come: the request that it waits for an answer to.
pub enum CopyStage {
    /// The copy of the whole object.
    Whole,
    /// The beginning of an upload.
    Begin,
    /// The copy of the part behind `parts`.
    Part { upload: String, parts: Vec<MultipartPart> },
    /// The end of an upload.
    End { upload: String },
    /// The giving up of an upload, because of `error`.
    GiveUp { error: AnyError },
}

/// [`CopyStage`] with the texts of its fields.
pub enum CopyStageView {
    Whole,
    Begin,
    Part { upload: Seq<char>, parts: Seq<MultipartPartView> },
    End { upload: Seq<char> },
    GiveUp { error: AnyErrorView },
}

impl View for CopyStage {
    type V = CopyStageView;

    open spec fn view(&self) -> CopyStageView {
        match self {
            CopyStage::Whole => CopyStageView::Whole,
            CopyStage::Begin => CopyStageView::Begin,
            CopyStage::Part { upload, parts } => CopyStageView::Part {
                upload: upload@,
                parts: part_views(parts@),
            },
            CopyStage::End { upload } => CopyStageView::End { upload: upload@ },
            CopyStage::GiveUp { error } => CopyStageView::GiveUp { error: error@ },
        }
    }
}

/// A copy of an object onto itself.
pub struct CopyJob {
    pub bucket: String,
    pub key: String,
    pub storage_class: String,
    pub size: i64,
    pub stage: CopyStage,
}

/// [`CopyJob`] with the texts of its fields.
pub struct CopyJobView {
    pub bucket: Seq<char>,
    pub key: Seq<char>,
    pub storage_class: Seq<char>,
    pub size: int,
    pub stage: CopyStageView,
}

impl View for CopyJob {
    type V = CopyJobView;

    open spec fn view(&self) -> CopyJobView {
        CopyJobView {
            bucket: self.bucket@,
            key: self.key@,
            storage_class: self.storage_class@,
            size: self.size as int,
            stage: self.stage@,
        }
    }
}

/// What a copy does next.
pub enum CopyStep {
    /// It sends a request, and waits for the answer.
    Send { job: CopyJob, request: AwsRequest },
    /// It is over.
    Over(Result<(), AnyError>),
}

/// [`CopyStep`] with the texts of its fields.
pub enum CopyStepView {
    Send { job: CopyJobView, request: AwsRequestView },
    Over(Result<(), AnyErrorView>),
}

impl View for CopyStep {
    type V = CopyStepView;

    open spec fn view(&self) -> CopyStepView {
        match self {
            CopyStep::Send { job, request } => CopyStepView::Send { job: job@, request: request@ },
            CopyStep::Over(r) => CopyStepView::Over(
                match r {
                    Ok(_) => Ok(()),
                    Err(e) => Err(e@),
                },
            ),
        }
    }
}

/// The object is copied in parts.
pub open spec fn is_large(size: int) -> bool {
    size > 0 && size >= MAX_SINGLE_COPY_BYTES
}

/// The request for the copy of the whole object.
pub open spec fn whole_request(region: Seq<char>, c: CopyJobView) -> AwsRequestView {
    s3_request(
        region,
        c.bucket,
        "PUT"@,
        object_path(c.key),
        Seq::empty(),
        seq![
            ("x-amz-copy-source"@, copy_source(c.bucket, c.key)),
            ("x-amz-metadata-directive"@, "COPY"@),
            ("x-amz-tagging-directive"@, "COPY"@),
            ("x-amz-storage-class"@, c.storage_class),
        ],
        Seq::empty(),
    )
}

/// The request for a new upload.
pub open spec fn begin_request(region: Seq<char>, c: CopyJobView) -> AwsRequestView {
    s3_request(
        region,
        c.bucket,
        "POST"@,
        object_path(c.key),
        "uploads"@,
        seq![
            ("x-amz-storage-class"@, c.storage_class),
            ("content-type"@, "application/octet-stream"@),
        ],
        Seq::empty(),
    )
}

/// The request for the copy of part `number`.
pub open spec fn part_request(
    region: Seq<char>,
    c: CopyJobView,
    upload: Seq<char>,
    number: int,
) -> AwsRequestView {
    s3_request(
        region,
        c.bucket,
        "PUT"@,
        object_path(c.key),
        form_of(seq![("partNumber"@, integer_text(number)), ("uploadId"@, upload)]),
        seq![
            ("x-amz-copy-source"@, copy_source(c.bucket, c.key)),
            (
                "x-amz-copy-source-range"@,
                "bytes="@ + integer_text(part_start(c.size, number)) + "-"@ + integer_text(
                    part_end(c.size, number),
                ),
            ),
        ],
        Seq::empty(),
    )
}

/// The request that ends an upload.
pub open spec fn end_request(
    region: Seq<char>,
    c: CopyJobView,
    upload: Seq<char>,
    parts: Seq<MultipartPartView>,
) -> AwsRequestView {
    s3_request(
        region,
        c.bucket,
        "POST"@,
        object_path(c.key),
        form_of(seq![("uploadId"@, upload)]),
        xml_header(),
        completion(parts),
    )
}

/// The request that gives up an upload.
pub open spec fn give_up_request(
    region: Seq<char>,
    c: CopyJobView,
    upload: Seq<char>,
) -> AwsRequestView {
    s3_request(
        region,
        c.bucket,
        "DELETE"@,
        object_path(c.key),
        form_of(seq![("uploadId"@, upload)]),
        Seq::empty(),
        Seq::empty(),
    )
}

impl CopyJobView {
    /// The job at another stage.
    pub open spec fn at(self, stage: CopyStageView) -> CopyJobView {
        CopyJobView { stage, ..self }
    }

    /// The job can be carried on: its parts can be counted, and one is left to copy.
    pub open spec fn well_formed(self) -> bool {
        match self.stage {
            CopyStageView::Whole => true,
            CopyStageView::Part { upload, parts } => divisible(self.size) && parts.len()
                < parts_count(self.size) && numbered(parts),
            _ => divisible(self.size),
        }
    }
}

/// The parts are numbered from 1 on.
pub open spec fn numbered(parts: Seq<MultipartPartView>) -> bool {
    forall|i: int| 0 <= i < parts.len() ==> (#[trigger] parts[i]).part_number == i + 1
}

/// How a copy begins.
pub open spec fn copy_begins(region: Seq<char>, c: CopyJobView) -> CopyStepView {
    if is_large(c.size) {
        CopyStepView::Send {
            job: c.at(CopyStageView::Begin),
            request: begin_request(region, c),
        }
    } else {
        CopyStepView::Send {
            job: c.at(CopyStageView::Whole),
            request: whole_request(region, c),
        }
    }
}

/// What follows once `parts` have been copied: the next part, or the end of the upload.
pub open spec fn copy_goes_on(
    region: Seq<char>,
    c: CopyJobView,
    upload: Seq<char>,
    parts: Seq<MultipartPartView>,
) -> CopyStepView {
    if parts.len() < parts_count(c.size) {
        CopyStepView::Send {
            job: c.at(CopyStageView::Part { upload, parts }),
            request: part_request(region, c, upload, parts.len() as int + 1),
        }
    } else {
        CopyStepView::Send {
            job: c.at(CopyStageView::End { upload }),
            request: end_request(region, c, upload, parts),
        }
    }
}

/// A copy that fails gives up its upload.
pub open spec fn copy_fails(
    region: Seq<char>,
    c: CopyJobView,
    upload: Seq<char>,
    error: AnyErrorView,
) -> CopyStepView {
    CopyStepView::Send {
        job: c.at(CopyStageView::GiveUp { error }),
        request: give_up_request(region, c, upload),
    }
}

/// What a copy does next, once its request was answered.
pub open spec fn copy_step(
    region: Seq<char>,
    c: CopyJobView,
    reply: Result<HttpResultView, AwsErrorView>,
) -> CopyStepView {
    match c.stage {
        CopyStageView::Whole => CopyStepView::Over(done(reply)),
        CopyStageView::Begin => match upload_id(reply) {
            Ok(upload) => copy_goes_on(region, c, upload, Seq::empty()),
            Err(e) => CopyStepView::Over(Err(e)),
        },
        CopyStageView::Part { upload, parts } => match etag(reply) {
            Ok(tag) => copy_goes_on(
                region,
                c,
                upload,
                parts.push(MultipartPartView { part_number: parts.len() as int + 1, etag: tag }),
            ),
            Err(e) => copy_fails(region, c, upload, e),
        },
        CopyStageView::End { upload } => match done(reply) {
            Ok(_) => CopyStepView::Over(Ok(())),
            Err(e) => copy_fails(region, c, upload, e),
        },
        CopyStageView::GiveUp { error } => CopyStepView::Over(Err(error)),
    }
}

impl CopyStep {
    /// The job, if there is one left, can be carried on.
    pub open spec fn well_formed(self) -> bool {
        self@ matches CopyStepView::Send { job, request } ==> job.well_formed()
    }
}

impl CopyJob {
    /// Sends the request for the next part, or the one that ends the upload.
    fn go_on(self, client: &AwsClient, upload: String, parts: Vec<MultipartPart>) -> (r: CopyStep)
        requires
            divisible(self.size as int),
            parts@.len() <= parts_count(self.size as int),
            numbered(part_views(parts@)),
        ensures
            r@ == copy_goes_on(client.region@, self@, upload@, part_views(parts@)),
            r.well_formed(),
    {
        proof {
            lemma_parts(self.size as int);
        }
        let (_, count) = plan_parts(self.size);
        let CopyJob { bucket, key, storage_class, size, stage: _ } = self;
        if parts.len() < count as usize {
            let number: i32 = parts.len() as i32 + 1;
            let (start, end) = part_range(size, number);
            let request = client.s3_upload_part_copy(
                bucket.as_str(),
                key.as_str(),
                upload.as_str(),
                number,
                start,
                end,
            );
            let stage = CopyStage::Part { upload, parts };
            CopyStep::Send { job: CopyJob { bucket, key, storage_class, size, stage }, request }
        } else {
            let request = client.s3_complete_multipart_upload(
                bucket.as_str(),
                key.as_str(),
                upload.as_str(),
                &parts,
            );
            let stage = CopyStage::End { upload };
            CopyStep::Send { job: CopyJob { bucket, key, storage_class, size, stage }, request }
        }
    }

    /// Gives up the upload.
    fn fail(self, client: &AwsClient, upload: String, error: AnyError) -> (r: CopyStep)
        requires
            divisible(self.size as int),
        ensures
            r@ == copy_fails(client.region@, self@, upload@, error@),
            r.well_formed(),
    {
        let CopyJob { bucket, key, storage_class, size, stage: _ } = self;
        let request = client.s3_abort_multipart_upload(
            bucket.as_str(),
            key.as_str(),
            upload.as_str(),
        );
        let stage = CopyStage::GiveUp { error };
        CopyStep::Send { job: CopyJob { bucket, key, storage_class, size, stage }, request }
    }

    /// What the copy does next, once its request was answered.
    pub fn next(self, client: &AwsClient, reply: Result<HttpResult, AwsError>) -> (r: CopyStep)
        requires
            self@.well_formed(),
        ensures
            r@ == copy_step(client.region@, self@, reply_view(reply)),
            r.well_formed(),
    {
        let CopyJob { bucket, key, storage_class, size, stage } = self;
        match stage {
            CopyStage::Whole => CopyStep::Over(read_done(reply)),
            CopyStage::Begin => match read_upload_id(reply) {
                Ok(upload) => {
                    let parts: Vec<MultipartPart> = Vec::new();
                    assert(part_views(parts@) == Seq::<MultipartPartView>::empty());
                    proof {
                        lemma_parts(size as int);
                    }
                    let stage = CopyStage::Begin;
                    CopyJob { bucket, key, storage_class, size, stage }.go_on(
                        client,
                        upload,
                        parts,
                    )
                },
                Err(e) => CopyStep::Over(Err(e)),
            },
            CopyStage::Part { upload, parts } => {
                let job = CopyJob { bucket, key, storage_class, size, stage: CopyStage::Begin };
                match read_etag(reply) {
                    Ok(etag) => {
                        proof {
                            lemma_parts(size as int);
                        }
                        let ghost copied = part_views(parts@);
                        let mut parts = parts;
                        let part_number: i32 = parts.len() as i32 + 1;
                        parts.push(MultipartPart { part_number, etag });
                        assert(part_views(parts@) == copied.push(
                            MultipartPartView { part_number: copied.len() as int + 1, etag: etag@ },
                        ));
                        job.go_on(client, upload, parts)
                    },
                    Err(e) => job.fail(client, upload, e),
                }
            },
            CopyStage::End { upload } => match read_done(reply) {
                Ok(_) => CopyStep::Over(Ok(())),
                Err(e) => {
                    let stage = CopyStage::Begin;
                    CopyJob { bucket, key, storage_class, size, stage }.fail(client, upload, e)
                },
            },
            CopyStage::GiveUp { error } => CopyStep::Over(Err(error)),
        }
    }
}

impl AwsClient {
    /// Begins to copy an object of `size` bytes onto itself in another storage class.
    pub fn s3_copy_object_to_storage_class(
        &self,
        bucket: &str,
        key: &str,
        storage_class: &str,
        size: i64,
    ) -> (r: CopyStep)
        requires
            size + DEFAULT_PART_SIZE_BYTES - 1 <= i64::MAX,
        ensures
            r@ == copy_begins(
                self.region@,
                (CopyJobView {
                    bucket: bucket@,
                    key: key@,
                    storage_class: storage_class@,
                    size: size as int,
                    stage: CopyStageView::Whole,
                }),
            ),
            r.well_formed(),
    {
        let (stage, request) = if size > 0 && size >= MAX_SINGLE_COPY_BYTES {
            (CopyStage::Begin, self.s3_create_multipart_upload(bucket, key, storage_class))
        } else {
            (CopyStage::Whole, self.s3_copy_object_in_place(bucket, key, storage_class))
        };
        let job = CopyJob {
            bucket: bucket.to_owned(),
            key: key.to_owned(),
            storage_class: storage_class.to_owned(),
            size,
            stage,
        };
        CopyStep::Send { job, request }
    }
}

/// What a copy does after its requests have been answered by `replies`, one after the other.
pub open spec fn copy_after(
    region: Seq<char>,
    step: CopyStepView,
    replies: Seq<Result<HttpResultView, AwsErrorView>>,
) -> CopyStepView
    decreases replies.len(),
{
    if replies.len() == 0 {
        step
    } else {
        match copy_after(region, step, replies.drop_last()) {
            CopyStepView::Send { job, request } => copy_step(region, job, replies.last()),
            over => over,
        }
    }
}

/// The parts with these tags, numbered from 1 on.
pub open spec fn tagged(tags: Seq<Seq<char>>) -> Seq<MultipartPartView> {
    Seq::new(tags.len(), |i: int| MultipartPartView { part_number: i + 1, etag: tags[i] })
}

/// A large object is copied part by part: as long as every request is granted, the requests are
/// the one for a new upload, one for each part in order, and one that ends the upload and lists
/// every part with the tag it was given.
pub proof fn law_large_copy_goes_through_the_parts(
    region: Seq<char>,
    c: CopyJobView,
    replies: Seq<Result<HttpResultView, AwsErrorView>>,
    upload: Seq<char>,
    tags: Seq<Seq<char>>,
)
    requires
        is_large(c.size),
        replies.len() == tags.len() + 1,
        tags.len() <= parts_count(c.size),
        upload_id(replies[0]) == Ok::<Seq<char>, AnyErrorView>(upload),
        forall|i: int|
            0 <= i < tags.len() ==> etag(#[trigger] replies[i + 1]) == Ok::<
                Seq<char>,
                AnyErrorView,
            >(tags[i]),
    ensures
        copy_after(region, copy_begins(region, c), replies) == copy_goes_on(
            region,
            c,
            upload,
            tagged(tags),
        ),
    decreases tags.len(),
{
    let first = copy_begins(region, c);
    let init = replies.drop_last();
    if tags.len() == 0 {
        assert(copy_after(region, first, init) == first);
        assert(replies.last() == replies[0]);
        assert(tagged(tags) == Seq::<MultipartPartView>::empty());
        assert(c.at(CopyStageView::Begin).size == c.size);
        let begun = c.at(CopyStageView::Begin);
        assert(copy_goes_on(region, begun, upload, Seq::empty()) == copy_goes_on(
            region,
            c,
            upload,
            Seq::empty(),
        ));
    } else {
        let fewer = tags.drop_last();
        assert forall|i: int| 0 <= i < fewer.len() implies etag(#[trigger] init[i + 1]) == Ok::<
            Seq<char>,
            AnyErrorView,
        >(fewer[i]) by {
            assert(init[i + 1] == replies[i + 1]);
        }
        law_large_copy_goes_through_the_parts(region, c, init, upload, fewer);
        let job = c.at(CopyStageView::Part { upload, parts: tagged(fewer) });
        assert(replies.last() == replies[tags.len() - 1 + 1]);
        assert(tagged(fewer).push(
            MultipartPartView { part_number: tags.len() as int, etag: tags.last() },
        ) == tagged(tags));
        assert(copy_goes_on(region, job, upload, tagged(tags)) == copy_goes_on(
            region,
            c,
            upload,
            tagged(tags),
        ));
    }
}

/// A copy that fails once its upload has begun gives up that very upload, and then fails as it
/// failed at first, whatever comes of the giving up.
pub proof fn law_failed_copy_is_given_up(
    region: Seq<char>,
    c: CopyJobView,
    upload: Seq<char>,
    reply: Result<HttpResultView, AwsErrorView>,
    last: Result<HttpResultView, AwsErrorView>,
)
    requires
        ({
            ||| c.stage matches CopyStageView::Part { upload: u, parts } && u == upload && etag(
                reply,
            ) is Err
            ||| c.stage matches CopyStageView::End { upload: u } && u == upload && done(reply) is Err
        }),
    ensures
        ({
            let error = if c.stage is Part {
                etag(reply)->Err_0
            } else {
                done(reply)->Err_0
            };
            let given_up = c.at(CopyStageView::GiveUp { error });
            &&& copy_step(region, c, reply) == (CopyStepView::Send {
                job: given_up,
                request: give_up_request(region, c, upload),
            })
            &&& copy_step(region, given_up, last) == CopyStepView::Over(Err(error))
        }),
{
}

/// An object of 5 GiB or more is copied in parts: its copy begins with the request that begins a
/// multipart upload in the new storage class. A smaller object is copied by one request, which
/// names the object itself as the source and keeps its metadata and its tags.
pub proof fn law_large_objects_are_copied_in_parts(region: Seq<char>, c: CopyJobView)
    ensures
        MAX_SINGLE_COPY_BYTES == 5 * 1024 * 1024 * 1024,
        match copy_begins(region, c) {
            CopyStepView::Send { job, request } => {
                &&& (job.bucket, job.key, job.storage_class, job.size) == (
                    c.bucket,
                    c.key,
                    c.storage_class,
                    c.size,
                )
                &&& request.service == "s3"@
                &&& request.endpoint == "https://"@ + c.bucket + ".s3."@ + region
                    + ".amazonaws.com"@
                &&& request.path == "/"@ + escaped_key(c.key)
                &&& request.body.len() == 0
                &&& c.size >= MAX_SINGLE_COPY_BYTES ==> {
                    &&& job.stage is Begin
                    &&& request.method == "POST"@
                    &&& request.raw_query == "uploads"@
                    &&& request.headers == seq![
                        ("x-amz-storage-class"@, c.storage_class),
                        ("content-type"@, "application/octet-stream"@),
                    ]
                }
                &&& c.size < MAX_SINGLE_COPY_BYTES ==> {
                    &&& job.stage is Whole
                    &&& request.method == "PUT"@
                    &&& request.raw_query.len() == 0
                    &&& request.headers == seq![
                        ("x-amz-copy-source"@, "/"@ + c.bucket + "/"@ + escaped_key(c.key)),
                        ("x-amz-metadata-directive"@, "COPY"@),
                        ("x-amz-tagging-directive"@, "COPY"@),
                        ("x-amz-storage-class"@, c.storage_class),
                    ]
                }
            },
            CopyStepView::Over(_) => false,
        },
{
}

/// Parts have 512 MiB, as long as no more than 10 000 of them are needed; those of a larger object
/// are as small as 10 000 parts can be. Every part but the last has that size in full.
pub proof fn law_parts_are_as_large_as_they_need_be(size: int, number: int)
    requires
        0 < size,
    ensures
        size <= 10_000 * (512 * 1024 * 1024) ==> part_size(size) == 512 * 1024 * 1024,
        size > 10_000 * (512 * 1024 * 1024) ==> 10_000 * (part_size(size) - 1) < size <= 10_000
            * part_size(size),
        (parts_count(size) - 1) * part_size(size) < size <= parts_count(size) * part_size(size),
        1 <= number < parts_count(size) ==> part_end(size, number) + 1 - part_start(size, number)
            == part_size(size),
{
    lemma_parts(size);
    lemma_quotient_up(size, DEFAULT_PART_SIZE_BYTES as int);
    lemma_quotient_up(size, MAX_PARTS as int);
    let d: int = DEFAULT_PART_SIZE_BYTES as int;
    let q = quotient_up(size, d);
    assert(size <= 10_000 * 536_870_912 ==> q <= 10_000) by (nonlinear_arith)
        requires
            (q - 1) * d < size,
            d == 536_870_912,
    ;
    if 1 <= number < parts_count(size) {
        law_parts_tile_the_object(size, number);
        let p = part_size(size);
        assert((number + 1 - 1) * p == (number - 1) * p + p) by (nonlinear_arith);
    }
}

/// While parts are left, the next one is asked for by its number and its bytes; once all have been
/// copied, the request that ends the upload lists them.
pub proof fn law_parts_are_asked_for_in_order(
    region: Seq<char>,
    c: CopyJobView,
    upload: Seq<char>,
    parts: Seq<MultipartPartView>,
)
    ensures
        match copy_goes_on(region, c, upload, parts) {
            CopyStepView::Send { job, request } => {
                &&& (job.bucket, job.key, job.storage_class, job.size) == (
                    c.bucket,
                    c.key,
                    c.storage_class,
                    c.size,
                )
                &&& request.service == "s3"@
                &&& request.endpoint == "https://"@ + c.bucket + ".s3."@ + region
                    + ".amazonaws.com"@
                &&& request.path == "/"@ + escaped_key(c.key)
                &&& parts.len() < parts_count(c.size) ==> {
                    &&& job.stage == (CopyStageView::Part { upload, parts })
                    &&& request.method == "PUT"@
                    &&& request.raw_query == form_text("partNumber"@) + seq!['='] + form_text(
                        integer_text(parts.len() as int + 1),
                    ) + seq!['&'] + form_text("uploadId"@) + seq!['='] + form_text(upload)
                    &&& request.headers == seq![
                        ("x-amz-copy-source"@, "/"@ + c.bucket + "/"@ + escaped_key(c.key)),
                        (
                            "x-amz-copy-source-range"@,
                            "bytes="@ + integer_text(parts.len() as int * part_size(c.size)) + "-"@
                                + integer_text(part_end(c.size, parts.len() as int + 1)),
                        ),
                    ]
                    &&& request.body.len() == 0
                }
                &&& parts.len() >= parts_count(c.size) ==> {
                    &&& job.stage == (CopyStageView::End { upload })
                    &&& request.method == "POST"@
                    &&& request.raw_query == form_text("uploadId"@) + seq!['='] + form_text(upload)
                    &&& request.headers == seq![("content-type"@, "application/xml"@)]
                    &&& request.body == encode_utf8(
                        "<CompleteMultipartUpload xmlns=\"http://s3.amazonaws.com/doc/2006-03-01/\">"@
                            + part_elements(parts) + "</CompleteMultipartUpload>"@,
                    )
                }
            },
            CopyStepView::Over(_) => false,
        },
{
    let next = integer_text(parts.len() as int + 1);
    law_forms_are_written_pair_by_pair(
        seq![("partNumber"@, next)],
        ("uploadId"@, upload),
    );
    law_forms_are_written_pair_by_pair(
        Seq::empty(),
        ("partNumber"@, next),
    );
    law_forms_are_written_pair_by_pair(Seq::empty(), ("uploadId"@, upload));
    assert(Seq::<(Seq<char>, Seq<char>)>::empty().push(("uploadId"@, upload)) == seq![
        ("uploadId"@, upload),
    ]);
    assert(Seq::<(Seq<char>, Seq<char>)>::empty().push(
        ("partNumber"@, next),
    ) == seq![("partNumber"@, next)]);
    assert(seq![("partNumber"@, next)].push(("uploadId"@, upload)) == seq![
        ("partNumber"@, next),
        ("uploadId"@, upload),
    ]);
    assert(Seq::<char>::empty() + form_text("uploadId"@) == form_text("uploadId"@));
}

/// What the answers to the requests of a copy come to. The copy is over once the whole object is
/// copied or the upload is ended, and it fails with the failure of its first request; an upload
/// that was begun is given up by a request that names it, before the copy fails.
pub proof fn law_copy_ends_as_it_is_answered(
    region: Seq<char>,
    c: CopyJobView,
    reply: HttpResultView,
    e: AwsErrorView,
    any: Result<HttpResultView, AwsErrorView>,
)
    ensures
        c.stage is Whole || c.stage is End ==> copy_step(region, c, Ok(reply))
            == CopyStepView::Over(Ok(())),
        c.stage is Whole || c.stage is Begin ==> copy_step(region, c, Err(e)) == CopyStepView::Over(
            Err(AnyErrorView::Aws(e)),
        ),
        c.stage matches CopyStageView::GiveUp { error } ==> copy_step(region, c, any)
            == CopyStepView::Over(Err(error)),
        c.stage matches CopyStageView::Part { upload, parts } ==> gives_up(
            region,
            c,
            upload,
            AnyErrorView::Aws(e),
            copy_step(region, c, Err(e)),
        ),
        c.stage matches CopyStageView::End { upload } ==> gives_up(
            region,
            c,
            upload,
            AnyErrorView::Aws(e),
            copy_step(region, c, Err(e)),
        ),
{
    if let CopyStageView::Part { upload, parts } = c.stage {
        lemma_gives_up(region, c, upload, AnyErrorView::Aws(e));
    }
    if let CopyStageView::End { upload } = c.stage {
        lemma_gives_up(region, c, upload, AnyErrorView::Aws(e));
    }
}

/// The step gives up `upload`, because of `error`.
pub open spec fn gives_up(
    region: Seq<char>,
    c: CopyJobView,
    upload: Seq<char>,
    error: AnyErrorView,
    step: CopyStepView,
) -> bool {
    step matches CopyStepView::Send { job, request } && {
        &&& job == (CopyJobView { stage: CopyStageView::GiveUp { error }, ..c })
        &&& request.service == "s3"@
        &&& request.endpoint == "https://"@ + c.bucket + ".s3."@ + region + ".amazonaws.com"@
        &&& request.method == "DELETE"@
        &&& request.path == "/"@ + escaped_key(c.key)
        &&& request.raw_query == form_text("uploadId"@) + seq!['='] + form_text(upload)
        &&& request.headers.len() == 0
        &&& request.body.len() == 0
    }
}

proof fn lemma_gives_up(region: Seq<char>, c: CopyJobView, upload: Seq<char>, error: AnyErrorView)
    ensures
        gives_up(region, c, upload, error, copy_fails(region, c, upload, error)),
{
    law_forms_are_written_pair_by_pair(Seq::empty(), ("uploadId"@, upload));
    assert(Seq::<(Seq<char>, Seq<char>)>::empty().push(("uploadId"@, upload)) == seq![
        ("uploadId"@, upload),
    ]);
    assert(Seq::<char>::empty() + form_text("uploadId"@) == form_text("uploadId"@));
}

/// The parts of every object that is not empty can be counted, up to the largest numbers of bytes,
/// from which on rounding up to a whole part goes beyond them.
pub proof fn law_parts_can_be_counted(size: int)
    ensures
        divisible(size) <==> 1 <= size <= 0x7fff_ffff_ffff_ffff - (512 * 1024 * 1024 - 1),
{
}

}
