//! What is read out of the replies to the requests of the archive workflow.
use crate::aws::request::{header_text, reply_view, seen, HttpResult, HttpResultView};
use crate::error::{
    aws_message, summarizable, tellable, AnyError, AnyErrorView, AwsError, AwsErrorView,
};
use crate::number::{parse_i64, parsed_i64};
use crate::outside::lossy_text;
use crate::text::{
    contains, find, is_within, lemma_within, lowered, pair_texts, same, same_but_case, slices,
    starts_with, texts,
};
use crate::types::{
    no_object, no_task, ObjectHead, ObjectHeadView, StoreImageTask, StoreImageTaskView,
};
use crate::xml::{
    or_empty, parse_delete_snapshot_results, parse_store_image_tasks, snapshot_results,
    store_tasks, tag_first, tag_one, tags_all, task_views, xml_tag_or_empty, xml_tags_all,
};
use vstd::prelude::*;
use vstd::string::*;

verus! {

/// The account in the reply to `get_caller_identity`.
pub open spec fn account(reply: Result<HttpResultView, AwsErrorView>) -> Result<
    Seq<char>,
    AnyErrorView,
> {
    match reply {
        Ok(r) => {
            let found = or_empty(tag_first(lossy_text(r.body), seq!["Account"@]));
            if found.len() == 0 {
                Err(AnyErrorView::Message("empty account in STS response"@))
            } else {
                Ok(found)
            }
        },
        Err(e) => Err(AnyErrorView::Aws(e)),
    }
}

/// Reads the account out of the reply to `get_caller_identity`.
pub fn read_account(reply: Result<HttpResult, AwsError>) -> (r: Result<String, AnyError>)
    ensures
        seen(r) == account(reply_view(reply)),
{
    match reply {
        Ok(reply) => {
            let tags = vec!["Account"];
            assert(slices(tags@) == seq!["Account"@]);
            let found = xml_tag_or_empty(reply.text().as_str(), tags.as_slice());
            if found.as_str().is_empty() {
                Err(AnyError::text("empty account in STS response"))
            } else {
                Ok(found)
            }
        },
        Err(e) => Err(AnyError::Aws(e)),
    }
}

/// A request for a trial is granted where EC2 says that the operation would have succeeded.
pub open spec fn trial(reply: Result<HttpResultView, AwsErrorView>) -> Result<(), AnyErrorView> {
    match reply {
        Ok(_) => Ok(()),
        Err(e) => if find(aws_message(e), "DryRunOperation"@) is Some {
            Ok(())
        } else {
            Err(AnyErrorView::Aws(e))
        },
    }
}

/// The failure, if there is one, can be told.
pub open spec fn readable(reply: Result<HttpResultView, AwsErrorView>) -> bool {
    reply matches Err(e) ==> summarizable(e.body)
}

/// Reads the reply to a request for a trial.
pub fn read_trial(reply: Result<HttpResult, AwsError>) -> (r: Result<(), AnyError>)
    requires
        readable(reply_view(reply)),
    ensures
        seen(r) == trial(reply_view(reply)),
{
    match reply {
        Ok(_) => Ok(()),
        Err(e) => if contains(e.message().as_str(), "DryRunOperation") {
            Ok(())
        } else {
            Err(AnyError::Aws(e))
        },
    }
}

/// A text that the reply has to hold: that of the first of `tags` that it has as an element.
pub open spec fn required_text(
    reply: Result<HttpResultView, AwsErrorView>,
    tags: Seq<Seq<char>>,
    missing: Seq<char>,
) -> Result<Seq<char>, AnyErrorView> {
    match reply {
        Ok(r) => {
            let body = lossy_text(r.body);
            let found = or_empty(tag_first(body, tags));
            if found.len() == 0 {
                Err(AnyErrorView::Incomplete { what: missing, body })
            } else {
                Ok(found)
            }
        },
        Err(e) => Err(AnyErrorView::Aws(e)),
    }
}

/// Reads a text that the reply has to hold.
fn read_required(reply: Result<HttpResult, AwsError>, tags: Vec<&str>, missing: &str) -> (r: Result<
    String,
    AnyError,
>)
    ensures
        seen(r) == required_text(reply_view(reply), slices(tags@), missing@),
{
    match reply {
        Ok(reply) => {
            let body = reply.text();
            let found = xml_tag_or_empty(body.as_str(), tags.as_slice());
            if found.as_str().is_empty() {
                Err(AnyError::Incomplete { what: missing.to_owned(), body })
            } else {
                Ok(found)
            }
        },
        Err(e) => Err(AnyError::Aws(e)),
    }
}

/// The key of the object that a new store task writes.
pub open spec fn object_key(reply: Result<HttpResultView, AwsErrorView>) -> Result<
    Seq<char>,
    AnyErrorView,
> {
    required_text(
        reply,
        seq!["objectKey"@, "s3ObjectKey"@, "s3objectKey"@],
        "objectKey not found in CreateStoreImageTask response"@,
    )
}

/// Reads the key of the object that a new store task writes.
pub fn read_object_key(reply: Result<HttpResult, AwsError>) -> (r: Result<String, AnyError>)
    ensures
        seen(r) == object_key(reply_view(reply)),
{
    let tags = vec!["objectKey", "s3ObjectKey", "s3objectKey"];
    assert(slices(tags@) == seq!["objectKey"@, "s3ObjectKey"@, "s3objectKey"@]);
    read_required(reply, tags, "objectKey not found in CreateStoreImageTask response")
}

/// The identifier of a new multipart upload.
pub open spec fn upload_id(reply: Result<HttpResultView, AwsErrorView>) -> Result<
    Seq<char>,
    AnyErrorView,
> {
    required_text(
        reply,
        seq!["UploadId"@],
        "UploadId missing in CreateMultipartUpload response"@,
    )
}

/// Reads the identifier of a new multipart upload.
pub fn read_upload_id(reply: Result<HttpResult, AwsError>) -> (r: Result<String, AnyError>)
    ensures
        seen(r) == upload_id(reply_view(reply)),
{
    let tags = vec!["UploadId"];
    assert(slices(tags@) == seq!["UploadId"@]);
    read_required(reply, tags, "UploadId missing in CreateMultipartUpload response")
}

/// The tag of a part that was copied.
pub open spec fn etag(reply: Result<HttpResultView, AwsErrorView>) -> Result<
    Seq<char>,
    AnyErrorView,
> {
    required_text(reply, seq!["ETag"@], "ETag missing in UploadPartCopy response"@)
}

/// Reads the tag of a part that was copied.
pub fn read_etag(reply: Result<HttpResult, AwsError>) -> (r: Result<String, AnyError>)
    ensures
        seen(r) == etag(reply_view(reply)),
{
    let tags = vec!["ETag"];
    assert(slices(tags@) == seq!["ETag"@]);
    read_required(reply, tags, "ETag missing in UploadPartCopy response")
}

/// The last of the store tasks that a reply lists.
pub open spec fn latest_task(reply: Result<HttpResultView, AwsErrorView>) -> Result<
    StoreImageTaskView,
    AnyErrorView,
> {
    match reply {
        Ok(r) => {
            let tasks = store_tasks(lossy_text(r.body));
            Ok(
                if tasks.len() == 0 {
                    no_task()
                } else {
                    tasks.last()
                },
            )
        },
        Err(e) => Err(AnyErrorView::Aws(e)),
    }
}

/// Reads the last of the store tasks that a reply lists.
pub fn read_latest_task(reply: Result<HttpResult, AwsError>) -> (r: Result<
    StoreImageTask,
    AnyError,
>)
    ensures
        seen(r) == latest_task(reply_view(reply)),
{
    match reply {
        Ok(reply) => {
            let mut tasks = parse_store_image_tasks(reply.text().as_str());
            let ghost views = task_views(tasks@);
            assert(views.len() > 0 ==> views.last() == tasks@.last()@);
            match tasks.pop() {
                Some(task) => Ok(task),
                None => Ok(StoreImageTask::default()),
            }
        },
        Err(e) => Err(AnyError::Aws(e)),
    }
}

/// The snapshots that a reply to `ec2_deregister_image_delete_snapshots` tells of, each with its
/// return code.
pub open spec fn deleted_snapshots(reply: Result<HttpResultView, AwsErrorView>) -> Result<
    Seq<(Seq<char>, Seq<char>)>,
    AnyErrorView,
> {
    match reply {
        Ok(r) => Ok(snapshot_results(lossy_text(r.body))),
        Err(e) => Err(AnyErrorView::Aws(e)),
    }
}

/// Reads the snapshots that a reply tells of, each with its return code.
pub fn read_deleted_snapshots(reply: Result<HttpResult, AwsError>) -> (r: Result<
    Vec<(String, String)>,
    AnyError,
>)
    ensures
        match r {
            Ok(list) => deleted_snapshots(reply_view(reply)) == Ok::<
                Seq<(Seq<char>, Seq<char>)>,
                AnyErrorView,
            >(pair_texts(list@)),
            Err(e) => deleted_snapshots(reply_view(reply)) == Err::<
                Seq<(Seq<char>, Seq<char>)>,
                AnyErrorView,
            >(e@),
        },
{
    match reply {
        Ok(reply) => Ok(parse_delete_snapshot_results(reply.text().as_str())),
        Err(e) => Err(AnyError::Aws(e)),
    }
}

/// Whether a return code tells that a snapshot is deleted; no code tells so, too.
pub fn is_deleted(code: &str) -> (r: bool)
    ensures
        r == (lowered(code@) == lowered("success"@) || code@.len() == 0),
{
    same_but_case(code, "success") || code.is_empty()
}

/// The texts of `list` that begin with `snap-`, each where it stands first.
pub open spec fn distinct_snapshots(list: Seq<Seq<char>>) -> Seq<Seq<char>>
    decreases list.len(),
{
    if list.len() == 0 {
        Seq::empty()
    } else {
        let earlier = distinct_snapshots(list.drop_last());
        if "snap-"@.is_prefix_of(list.last()) && !earlier.contains(list.last()) {
            earlier.push(list.last())
        } else {
            earlier
        }
    }
}

/// The snapshots of an image.
pub open spec fn snapshot_ids(reply: Result<HttpResultView, AwsErrorView>) -> Result<
    Seq<Seq<char>>,
    AnyErrorView,
> {
    match reply {
        Ok(r) => Ok(distinct_snapshots(tags_all(lossy_text(r.body), "snapshotId"@))),
        Err(e) => Err(AnyErrorView::Aws(e)),
    }
}

/// Whether `text` is one of `list`.
fn is_listed(list: &Vec<String>, text: &str) -> (r: bool)
    ensures
        r == texts(list@).contains(text@),
{
    for i in 0..list.len()
        invariant
            forall|j: int| 0 <= j < i ==> texts(list@)[j] != text@,
    {
        assert(texts(list@)[i as int] == list@[i as int]@);
        if same(list[i].as_str(), text) {
            return true;
        }
    }
    false
}

/// Reads the snapshots of an image.
pub fn read_snapshot_ids(reply: Result<HttpResult, AwsError>) -> (r: Result<Vec<String>, AnyError>)
    ensures
        match r {
            Ok(list) => snapshot_ids(reply_view(reply)) == Ok::<Seq<Seq<char>>, AnyErrorView>(
                texts(list@),
            ),
            Err(e) => snapshot_ids(reply_view(reply)) == Err::<Seq<Seq<char>>, AnyErrorView>(e@),
        },
{
    match reply {
        Ok(reply) => {
            let all = xml_tags_all(reply.text().as_str(), "snapshotId");
            let ghost found = texts(all@);
            let mut out: Vec<String> = Vec::new();
            for i in 0..all.len()
                invariant
                    found == texts(all@),
                    texts(out@) == distinct_snapshots(found.take(i as int)),
            {
                let ghost earlier = texts(out@);
                assert(found.take(i + 1).drop_last() == found.take(i as int));
                assert(found.take(i + 1).last() == all@[i as int]@);
                if starts_with(all[i].as_str(), "snap-") && !is_listed(&out, all[i].as_str()) {
                    out.push(all[i].clone());
                    assert(texts(out@) == earlier.push(all@[i as int]@));
                }
            }
            assert(found.take(found.len() as int) == found);
            Ok(out)
        },
        Err(e) => Err(AnyError::Aws(e)),
    }
}

/// Whether a bucket is there.
pub open spec fn bucket_exists(reply: Result<HttpResultView, AwsErrorView>) -> Result<
    bool,
    AnyErrorView,
> {
    match reply {
        Ok(_) => Ok(true),
        Err(e) => if e.status == 404 {
            Ok(false)
        } else if e.status == 301 {
            Err(AnyErrorView::Message("bucket exists in another region or endpoint mismatch"@))
        } else {
            Err(AnyErrorView::Aws(e))
        },
    }
}

/// Reads whether a bucket is there.
pub fn read_bucket_exists(reply: Result<HttpResult, AwsError>) -> (r: Result<bool, AnyError>)
    ensures
        seen(r) == bucket_exists(reply_view(reply)),
{
    match reply {
        Ok(_) => Ok(true),
        Err(e) => if e.status == 404 {
            Ok(false)
        } else if e.status == 301 {
            Err(AnyError::text("bucket exists in another region or endpoint mismatch"))
        } else {
            Err(AnyError::Aws(e))
        },
    }
}

/// Whether a request was granted.
pub open spec fn done(reply: Result<HttpResultView, AwsErrorView>) -> Result<(), AnyErrorView> {
    match reply {
        Ok(_) => Ok(()),
        Err(e) => Err(AnyErrorView::Aws(e)),
    }
}

/// Reads whether a request was granted.
pub fn read_done(reply: Result<HttpResult, AwsError>) -> (r: Result<(), AnyError>)
    ensures
        seen(r) == done(reply_view(reply)),
{
    match reply {
        Ok(_) => Ok(()),
        Err(e) => Err(AnyError::Aws(e)),
    }
}

/// What a reply says of an object. A length that is missing or that is no number counts as 0.
pub open spec fn object_head(reply: Result<HttpResultView, AwsErrorView>) -> Result<
    ObjectHeadView,
    AnyErrorView,
> {
    match reply {
        Ok(r) => Ok(
            ObjectHeadView {
                exists: true,
                storage_class: or_empty(header_text(r.headers, "x-amz-storage-class"@)),
                content_length: match header_text(r.headers, "content-length"@) {
                    Some(text) => match parsed_i64(text) {
                        Some(n) => n,
                        None => 0,
                    },
                    None => 0,
                },
            },
        ),
        Err(e) => if e.status == 404 {
            Ok(no_object())
        } else {
            Err(AnyErrorView::Aws(e))
        },
    }
}

/// Reads what a reply says of an object.
pub fn read_object_head(reply: Result<HttpResult, AwsError>) -> (r: Result<ObjectHead, AnyError>)
    ensures
        seen(r) == object_head(reply_view(reply)),
{
    match reply {
        Ok(reply) => {
            let storage_class = match reply.header("x-amz-storage-class") {
                Some(text) => text,
                None => String::new(),
            };
            let content_length: i64 = match reply.header("content-length") {
                Some(text) => match parse_i64(text.as_str()) {
                    Some(n) => n,
                    None => 0,
                },
                None => 0,
            };
            Ok(ObjectHead { exists: true, storage_class, content_length })
        },
        Err(e) => if e.status == 404 {
            Ok(ObjectHead::default())
        } else {
            Err(AnyError::Aws(e))
        },
    }
}

/// The identifiers in `ids` whose keys, at the same places of `keys`, are `key`.
pub open spec fn ids_under(
    keys: Seq<Seq<char>>,
    ids: Seq<Seq<char>>,
    key: Seq<char>,
) -> Seq<Seq<char>>
    decreases keys.len(),
{
    if keys.len() == 0 || ids.len() == 0 {
        Seq::empty()
    } else if keys[0] == key {
        seq![ids[0]] + ids_under(keys.drop_first(), ids.drop_first(), key)
    } else {
        ids_under(keys.drop_first(), ids.drop_first(), key)
    }
}

/// The unfinished uploads of the object `key` that a reply lists.
pub open spec fn open_uploads(
    reply: Result<HttpResultView, AwsErrorView>,
    key: Seq<char>,
) -> Result<Seq<Seq<char>>, AnyErrorView> {
    match reply {
        Ok(r) => {
            let body = lossy_text(r.body);
            Ok(ids_under(tags_all(body, "Key"@), tags_all(body, "UploadId"@), key))
        },
        Err(e) => Err(AnyErrorView::Aws(e)),
    }
}

/// Reads the unfinished uploads of the object `key` that a reply lists.
pub fn read_open_uploads(reply: Result<HttpResult, AwsError>, key: &str) -> (r: Result<
    Vec<String>,
    AnyError,
>)
    ensures
        match r {
            Ok(list) => open_uploads(reply_view(reply), key@) == Ok::<Seq<Seq<char>>, AnyErrorView>(
                texts(list@),
            ),
            Err(e) => open_uploads(reply_view(reply), key@) == Err::<Seq<Seq<char>>, AnyErrorView>(
                e@,
            ),
        },
{
    match reply {
        Ok(reply) => {
            let body = reply.text();
            let keys = xml_tags_all(body.as_str(), "Key");
            let ids = xml_tags_all(body.as_str(), "UploadId");
            let ghost all_keys = texts(keys@);
            let ghost all_ids = texts(ids@);
            let mut out: Vec<String> = Vec::new();
            let mut i: usize = 0;
            assert(all_keys.skip(0) == all_keys);
            assert(all_ids.skip(0) == all_ids);
            assert(texts(out@) + ids_under(all_keys, all_ids, key@) == ids_under(
                all_keys,
                all_ids,
                key@,
            ));
            while i < keys.len() && i < ids.len()
                invariant
                    i <= keys.len(),
                    i <= ids.len(),
                    all_keys == texts(keys@),
                    all_ids == texts(ids@),
                    texts(out@) + ids_under(all_keys.skip(i as int), all_ids.skip(i as int), key@)
                        == ids_under(all_keys, all_ids, key@),
                decreases keys.len() - i,
            {
                let ghost earlier = texts(out@);
                let ghost rest = ids_under(all_keys.skip(i + 1), all_ids.skip(i + 1), key@);
                assert(all_keys.skip(i as int).drop_first() == all_keys.skip(i + 1));
                assert(all_ids.skip(i as int).drop_first() == all_ids.skip(i + 1));
                if same(keys[i].as_str(), key) {
                    out.push(ids[i].clone());
                    assert(texts(out@) == earlier.push(ids@[i as int]@));
                    assert(texts(out@) + rest == earlier + (seq![ids@[i as int]@] + rest));
                }
                i += 1;
            }
            assert(ids_under(all_keys.skip(i as int), all_ids.skip(i as int), key@).len() == 0);
            Ok(out)
        },
        Err(e) => Err(AnyError::Aws(e)),
    }
}

/// Each snapshot of an image is listed once: what is listed begins with `snap-` and stands in the
/// reply, everything in the reply that begins so is listed, and nothing is listed twice.
pub proof fn law_snapshots_are_listed_once(list: Seq<Seq<char>>)
    ensures
        distinct_snapshots(list).no_duplicates(),
        forall|s: Seq<char>| #[trigger]
            distinct_snapshots(list).contains(s) <==> list.contains(s) && "snap-"@.is_prefix_of(s),
    decreases list.len(),
{
    if list.len() > 0 {
        let init = list.drop_last();
        let earlier = distinct_snapshots(init);
        law_snapshots_are_listed_once(init);
        assert forall|s: Seq<char>| #[trigger] distinct_snapshots(list).contains(s) <==> list.contains(
            s,
        ) && "snap-"@.is_prefix_of(s) by {
            assert(earlier.contains(s) <==> init.contains(s) && "snap-"@.is_prefix_of(s));
            if list.contains(s) && !init.contains(s) {
                let i = choose|i: int| 0 <= i < list.len() && list[i] == s;
                if i < list.len() - 1 {
                    assert(init[i] == s);
                }
                assert(s == list.last());
            }
            if init.contains(s) {
                let i = choose|i: int| 0 <= i < init.len() && init[i] == s;
                assert(list[i] == s);
            }
            assert(list[list.len() - 1] == list.last());
            if earlier.contains(s) {
                let i = choose|i: int| 0 <= i < earlier.len() && earlier[i] == s;
                assert(distinct_snapshots(list)[i] == s);
            }
            if distinct_snapshots(list).contains(s) && !earlier.contains(s) {
                let i = choose|i: int|
                    0 <= i < distinct_snapshots(list).len() && distinct_snapshots(list)[i] == s;
                if i < earlier.len() {
                    assert(earlier[i] == s);
                }
            }
            if s == list.last() && "snap-"@.is_prefix_of(s) && !earlier.contains(s) {
                assert(distinct_snapshots(list)[earlier.len() as int] == s);
            }
        }
    }
}

/// The account is the text of the element `Account`; a reply without it, or with an empty one, is
/// a failure.
pub proof fn law_account_is_read(r: HttpResultView, e: AwsErrorView)
    ensures
        ({
            let found = tag_one(lossy_text(r.body), "Account"@);
            if found is Some && found->0.len() > 0 {
                account(Ok(r)) == Ok::<Seq<char>, AnyErrorView>(found->0)
            } else {
                account(Ok(r)) == Err::<Seq<char>, AnyErrorView>(
                    AnyErrorView::Message("empty account in STS response"@),
                )
            }
        }),
        account(Err(e)) == Err::<Seq<char>, AnyErrorView>(AnyErrorView::Aws(e)),
{
    lemma_only_tag(lossy_text(r.body), "Account"@);
}

proof fn lemma_only_tag(body: Seq<char>, tag: Seq<char>)
    ensures
        tag_first(body, seq![tag]) == tag_one(body, tag),
{
    assert(seq![tag].drop_first().len() == 0);
    assert(tag_first(body, seq![tag].drop_first()) is None);
}

/// A trial succeeds exactly where the request does, or where its failure, as it is told, names
/// `DryRunOperation`; otherwise it fails with that failure.
pub proof fn law_trials_are_granted(r: HttpResultView, e: AwsErrorView)
    ensures
        trial(Ok(r)) is Ok,
        is_within("DryRunOperation"@, aws_message(e)) ==> trial(Err(e)) is Ok,
        !is_within("DryRunOperation"@, aws_message(e)) ==> trial(Err(e)) == Err::<(), AnyErrorView>(
            AnyErrorView::Aws(e),
        ),
{
    lemma_within("DryRunOperation"@, aws_message(e));
}

/// `out` is what is read of a reply with the text `body` that has to tell `found`: an empty text is
/// as good as none, and a failure that tells what is `missing`.
pub open spec fn is_required(
    body: Seq<char>,
    found: Option<Seq<char>>,
    missing: Seq<char>,
    out: Result<Seq<char>, AnyErrorView>,
) -> bool {
    if found is Some && found->0.len() > 0 {
        out == Ok::<Seq<char>, AnyErrorView>(found->0)
    } else {
        out == Err::<Seq<char>, AnyErrorView>(AnyErrorView::Incomplete { what: missing, body })
    }
}

/// The key of a stored object, the identifier of an upload and the tag of a part are the texts of
/// their elements. The key is looked for under three names, and the first of them that is there
/// counts. A reply that lacks them is a failure that shows the reply.
pub proof fn law_replies_tell_what_was_made(r: HttpResultView, e: AwsErrorView)
    ensures
        ({
            let body = lossy_text(r.body);
            let a = tag_one(body, "objectKey"@);
            let b = tag_one(body, "s3ObjectKey"@);
            let c = tag_one(body, "s3objectKey"@);
            &&& is_required(
                body,
                if a is Some {
                    a
                } else if b is Some {
                    b
                } else {
                    c
                },
                "objectKey not found in CreateStoreImageTask response"@,
                object_key(Ok(r)),
            )
            &&& is_required(
                body,
                tag_one(body, "UploadId"@),
                "UploadId missing in CreateMultipartUpload response"@,
                upload_id(Ok(r)),
            )
            &&& is_required(
                body,
                tag_one(body, "ETag"@),
                "ETag missing in UploadPartCopy response"@,
                etag(Ok(r)),
            )
        }),
        object_key(Err(e)) == Err::<Seq<char>, AnyErrorView>(AnyErrorView::Aws(e)),
        upload_id(Err(e)) == Err::<Seq<char>, AnyErrorView>(AnyErrorView::Aws(e)),
        etag(Err(e)) == Err::<Seq<char>, AnyErrorView>(AnyErrorView::Aws(e)),
{
    let body = lossy_text(r.body);
    lemma_only_tag(body, "UploadId"@);
    lemma_only_tag(body, "ETag"@);
    lemma_only_tag(body, "s3objectKey"@);
    let keys = seq!["objectKey"@, "s3ObjectKey"@, "s3objectKey"@];
    assert(keys.drop_first() == seq!["s3ObjectKey"@, "s3objectKey"@]);
    assert(keys.drop_first().drop_first() == seq!["s3objectKey"@]);
    assert(tag_first(body, keys.drop_first()) == if tag_one(body, "s3ObjectKey"@) is Some {
        tag_one(body, "s3ObjectKey"@)
    } else {
        tag_one(body, "s3objectKey"@)
    });
}

/// The latest task is the last that the reply lists; where it lists none, there is a task without
/// an image.
pub proof fn law_latest_task_is_the_last(r: HttpResultView, e: AwsErrorView)
    ensures
        ({
            let tasks = store_tasks(lossy_text(r.body));
            &&& tasks.len() > 0 ==> latest_task(Ok(r)) == Ok::<StoreImageTaskView, AnyErrorView>(
                tasks[tasks.len() - 1],
            )
            &&& tasks.len() == 0 ==> latest_task(Ok(r)) is Ok && {
                let task = latest_task(Ok(r))->Ok_0;
                &&& task.image_id.len() == 0 && task.bucket.len() == 0 && task.object_key.len() == 0
                &&& task.state.len() == 0 && task.progress.len() == 0
            }
        }),
        latest_task(Err(e)) == Err::<StoreImageTaskView, AnyErrorView>(AnyErrorView::Aws(e)),
        deleted_snapshots(Ok(r)) == Ok::<Seq<(Seq<char>, Seq<char>)>, AnyErrorView>(
            snapshot_results(lossy_text(r.body)),
        ),
        deleted_snapshots(Err(e)) == Err::<Seq<(Seq<char>, Seq<char>)>, AnyErrorView>(
            AnyErrorView::Aws(e),
        ),
{
}

/// A snapshot is listed where the reply first names it.
pub proof fn law_snapshots_are_listed_in_order(
    list: Seq<Seq<char>>,
    s: Seq<char>,
    r: HttpResultView,
    e: AwsErrorView,
)
    ensures
        distinct_snapshots(list.push(s)) == if "snap-"@.is_prefix_of(s) && !list.contains(s) {
            distinct_snapshots(list).push(s)
        } else {
            distinct_snapshots(list)
        },
        snapshot_ids(Ok(r)) == Ok::<Seq<Seq<char>>, AnyErrorView>(
            distinct_snapshots(tags_all(lossy_text(r.body), "snapshotId"@)),
        ),
        snapshot_ids(Err(e)) == Err::<Seq<Seq<char>>, AnyErrorView>(AnyErrorView::Aws(e)),
{
    assert(list.push(s).drop_last() == list);
    law_snapshots_are_listed_once(list);
    assert(distinct_snapshots(list).contains(s) <==> list.contains(s) && "snap-"@.is_prefix_of(s));
}

/// A bucket is there where the request is granted and missing where the status is 404; a bucket
/// somewhere else, which has the status 301, is a failure, and so is every other status.
pub proof fn law_buckets_are_missing_by_status(r: HttpResultView, e: AwsErrorView)
    ensures
        bucket_exists(Ok(r)) == Ok::<bool, AnyErrorView>(true),
        e.status == 404 ==> bucket_exists(Err(e)) == Ok::<bool, AnyErrorView>(false),
        e.status == 301 ==> bucket_exists(Err(e)) == Err::<bool, AnyErrorView>(
            AnyErrorView::Message("bucket exists in another region or endpoint mismatch"@),
        ),
        e.status != 404 && e.status != 301 ==> bucket_exists(Err(e)) == Err::<bool, AnyErrorView>(
            AnyErrorView::Aws(e),
        ),
        done(Ok(r)) is Ok,
        done(Err(e)) == Err::<(), AnyErrorView>(AnyErrorView::Aws(e)),
{
}

/// An object that is there has the storage class and the length that its headers tell; a length
/// that is no number counts as 0. An object is missing where the status is 404, and every other
/// failure is one.
pub proof fn law_objects_are_told_by_headers(r: HttpResultView, e: AwsErrorView)
    ensures
        object_head(Ok(r)) is Ok,
        ({
            let head = object_head(Ok(r))->Ok_0;
            let class = header_text(r.headers, "x-amz-storage-class"@);
            let length = header_text(r.headers, "content-length"@);
            &&& head.exists
            &&& class is Some ==> head.storage_class == class->0
            &&& class is None ==> head.storage_class.len() == 0
            &&& length is Some && parsed_i64(length->0) is Some ==> head.content_length
                == parsed_i64(length->0)->0
            &&& length is None || parsed_i64(length->0) is None ==> head.content_length == 0
        }),
        e.status == 404 ==> object_head(Err(e)) is Ok && {
            let head = object_head(Err(e))->Ok_0;
            !head.exists && head.storage_class.len() == 0 && head.content_length == 0
        },
        e.status != 404 ==> object_head(Err(e)) == Err::<ObjectHeadView, AnyErrorView>(
            AnyErrorView::Aws(e),
        ),
{
}

/// Uploads are told of in order, by a key and an identifier each; those of the object are the ones
/// with exactly its key. A key without an identifier does not count, nor an identifier without a
/// key.
pub proof fn law_uploads_go_by_their_keys(
    keys: Seq<Seq<char>>,
    ids: Seq<Seq<char>>,
    k: Seq<char>,
    id: Seq<char>,
    more: Seq<Seq<char>>,
    key: Seq<char>,
)
    requires
        keys.len() == ids.len(),
    ensures
        ids_under(Seq::empty(), more, key).len() == 0,
        ids_under(keys + more, ids, key) == ids_under(keys, ids, key),
        ids_under(keys, ids + more, key) == ids_under(keys, ids, key),
        ids_under(keys.push(k), ids.push(id), key) == if k == key {
            ids_under(keys, ids, key).push(id)
        } else {
            ids_under(keys, ids, key)
        },
    decreases keys.len(),
{
    if keys.len() == 0 {
        assert(keys.push(k) == seq![k]);
        assert(ids.push(id) == seq![id]);
        assert(seq![k].drop_first().len() == 0);
        assert(ids_under(seq![k].drop_first(), seq![id].drop_first(), key).len() == 0);
        assert(ids_under(keys, ids, key) == Seq::<Seq<char>>::empty());
        assert(ids_under(keys + more, ids, key) == ids_under(keys, ids, key));
        assert(ids_under(keys, ids + more, key) == ids_under(keys, ids, key));
        assert(ids_under(keys.push(k), ids.push(id), key) == if k == key {
            ids_under(keys, ids, key).push(id)
        } else {
            ids_under(keys, ids, key)
        });
    } else {
        let a = keys.drop_first();
        let b = ids.drop_first();
        law_uploads_go_by_their_keys(a, b, k, id, more, key);
        assert((keys + more).drop_first() == a + more);
        assert((ids + more).drop_first() == b + more);
        assert(keys.push(k).drop_first() == a.push(k));
        assert(ids.push(id).drop_first() == b.push(id));
        assert(seq![ids[0]] + ids_under(a, b, key).push(id) == (seq![ids[0]] + ids_under(a, b, key)).push(
            id,
        ));
    }
}

/// The uploads of an object are read out of the elements `Key` and `UploadId`.
pub proof fn law_uploads_are_read(r: HttpResultView, e: AwsErrorView, key: Seq<char>)
    ensures
        ({
            let body = lossy_text(r.body);
            open_uploads(Ok(r), key) == Ok::<Seq<Seq<char>>, AnyErrorView>(
                ids_under(tags_all(body, "Key"@), tags_all(body, "UploadId"@), key),
            )
        }),
        open_uploads(Err(e), key) == Err::<Seq<Seq<char>>, AnyErrorView>(AnyErrorView::Aws(e)),
{
}

/// A reply can be read, and a failure that can be told.
pub proof fn law_told_failures_can_be_read(r: HttpResultView, e: AwsErrorView)
    ensures
        readable(Ok(r)),
        readable(Err(e)) <==> tellable(AnyErrorView::Aws(e)),
{
}

}
