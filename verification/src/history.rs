//! What holds of every run, whatever comes of its actions.
use crate::config::ConfigView;
use crate::error::{or_default, AnyErrorView};
use crate::rollback::{nothing_changed, tried, RollbackView, Undo, Undone};
use crate::types::{ObjectHeadView, StoreImageTaskView};
use crate::workflow::{
    begun, bucket_for, bucket_prompt, cleanup_prompt, resumable, step, step_bucket, step_cleanup,
    step_identity, step_object, step_task, there, ActionView, AnswerView, RunView, StageView,
    StepView,
};
use vstd::prelude::*;

verus! {

/// What a run does after its actions have been answered by `answers`, one after the other.
pub open spec fn after(s: StepView, answers: Seq<AnswerView>) -> StepView
    decreases answers.len(),
{
    if answers.len() == 0 {
        s
    } else {
        match after(s, answers.drop_last()) {
            StepView::Go(run) => step(run, answers.last()),
            over => over,
        }
    }
}

/// The actions that were answered by `answers`, each with its answer, in order.
pub open spec fn history(s: StepView, answers: Seq<AnswerView>) -> Seq<(ActionView, AnswerView)>
    decreases answers.len(),
{
    if answers.len() == 0 {
        Seq::empty()
    } else {
        let earlier = history(s, answers.drop_last());
        match after(s, answers.drop_last()) {
            StepView::Go(run) => earlier.push((run.action(), answers.last())),
            StepView::Finish(_) => earlier,
        }
    }
}

/// An action that was carried out.
pub open spec fn was_done(h: Seq<(ActionView, AnswerView)>, action: ActionView) -> bool {
    h.contains((action, AnswerView::Done(Ok(()))))
}

/// A question, asked of the user or of S3, that got this answer.
pub open spec fn was_told(h: Seq<(ActionView, AnswerView)>, action: ActionView, flag: bool) -> bool {
    h.contains((action, AnswerView::Flag(Ok(flag))))
}

/// The object was looked at, and this was there of it.
pub open spec fn was_seen(
    h: Seq<(ActionView, AnswerView)>,
    bucket: Seq<char>,
    key: Seq<char>,
    head: ObjectHeadView,
) -> bool {
    h.contains((ActionView::Head { bucket, key }, AnswerView::Head(Ok(head))))
}

/// A store task that writes the object `key` was started in this run.
pub open spec fn was_started_at(
    h: Seq<(ActionView, AnswerView)>,
    image: Seq<char>,
    bucket: Seq<char>,
    key: Seq<char>,
) -> bool {
    h.contains((ActionView::StartTask { image, bucket }, AnswerView::Key(Ok(key))))
}

/// A store task was started in this run.
pub open spec fn was_started(
    h: Seq<(ActionView, AnswerView)>,
    image: Seq<char>,
    bucket: Seq<char>,
) -> bool {
    exists|key: Seq<char>| was_started_at(h, image, bucket, key)
}

/// The image was found fit to be stored in the bucket.
pub open spec fn was_tried(
    h: Seq<(ActionView, AnswerView)>,
    image: Seq<char>,
    bucket: Seq<char>,
) -> bool {
    was_done(h, ActionView::TryStore { image, bucket })
}

/// Public access to the bucket was blocked, and the bucket was encrypted.
pub open spec fn was_hardened(h: Seq<(ActionView, AnswerView)>, bucket: Seq<char>) -> bool {
    was_done(h, ActionView::BlockPublicAccess { bucket }) && was_done(
        h,
        ActionView::EncryptBucket { bucket },
    )
}

/// The object was seen, and was in the storage class that is asked for or was brought into it.
pub open spec fn was_archived(
    c: ConfigView,
    h: Seq<(ActionView, AnswerView)>,
    bucket: Seq<char>,
    key: Seq<char>,
) -> bool {
    exists|head: ObjectHeadView|
        {
            &&& #[trigger] was_seen(h, bucket, key, head)
            &&& head.exists
            &&& {
                ||| or_default(head.storage_class, "STANDARD"@) == c.storage_class
                ||| was_done(
                    h,
                    ActionView::Convert {
                        bucket,
                        key,
                        storage_class: c.storage_class,
                        size: head.content_length,
                    },
                )
            }
        }
}

/// Some change of the storage class failed.
pub open spec fn conversion_failed(h: Seq<(ActionView, AnswerView)>) -> bool {
    exists|i: int|
        0 <= i < h.len() && (#[trigger] h[i]).0 is Convert && h[i].1.done() is Err
}

/// An object was looked at and was there.
pub open spec fn sees_object(entry: (ActionView, AnswerView)) -> bool {
    entry.0 is Head && there(entry.1)
}

/// No object that was looked at was there.
pub open spec fn no_object_seen(h: Seq<(ActionView, AnswerView)>) -> bool {
    forall|i: int| 0 <= i < h.len() ==> !sees_object(#[trigger] h[i])
}

/// No store task was asked for.
pub open spec fn no_start(h: Seq<(ActionView, AnswerView)>) -> bool {
    forall|i: int| 0 <= i < h.len() ==> !((#[trigger] h[i]).0 is StartTask)
}

/// A store task was asked for at most once.
pub open spec fn one_start(h: Seq<(ActionView, AnswerView)>) -> bool {
    forall|i: int, j: int|
        0 <= i < j < h.len() ==> !((#[trigger] h[i]).0 is StartTask && (#[trigger] h[j]).0
            is StartTask)
}

/// The history begins with the account.
pub open spec fn knows_account(h: Seq<(ActionView, AnswerView)>, account: Seq<char>) -> bool {
    h.len() > 0 && h[0] == (ActionView::Identify, AnswerView::Account(Ok(account)))
}

/// The bucket was chosen once the account was known.
pub open spec fn knows_bucket(
    c: ConfigView,
    h: Seq<(ActionView, AnswerView)>,
    bucket: Seq<char>,
) -> bool {
    exists|account: Seq<char>| #[trigger]
        knows_account(h, account) && bucket == bucket_for(c, account)
}

/// Nothing but the bucket was changed.
spec fn no_object_changes(r: RollbackView) -> bool {
    !r.object_existed_before && !r.store_task_started_this_run && !r.archive_object_ready
        && !r.conversion_attempted && !r.storage_class_changed
}

/// The stages before the object is looked at for the first time.
spec fn is_early(s: StageView) -> bool {
    s is CheckBucket || s is AskBucket || s is CreateBucket || s is BlockPublicAccess
        || s is EncryptBucket || s is Inspect
}

/// The stages of the cleanup.
spec fn is_cleanup(s: StageView) -> bool {
    s is ListSnapshots || s is TryDeregister || s is AskCleanup || s is Deregister
}

/// The stages that follow the hardening of the bucket.
spec fn is_hardened(s: StageView) -> bool {
    s is Inspect || s is FindTask || s is StartTask || s is AwaitTask || s is Verify || s is Convert
        || is_cleanup(s)
}

/// The run is at this point of being undone.
spec fn undoes(s: StageView, undo: Undo) -> bool {
    s matches StageView::Undo { undo: u, error } && u == undo
}

/// What holds of the bucket.
spec fn inv_bucket(c: ConfigView, run: RunView, h: Seq<(ActionView, AnswerView)>) -> bool {
    let s = run.stage;
    let r = run.rollback;
    let bucket = r.bucket;
    &&& run.cfg == c
    &&& r.dry_run == c.dry_run
    &&& s is Identify ==> h.len() == 0 && r == nothing_changed(
        c.bucket,
        Seq::empty(),
        c.dry_run,
    )
    &&& !(s is Identify) ==> knows_bucket(c, h, bucket)
    &&& !(s is Identify) && c.bucket.len() == 0 ==> c.create_bucket || c.yes
    &&& c.dry_run ==> (s is Identify || s is TryStore || s is ListSnapshots || s is TryDeregister)
        && no_object_changes(r) && !r.created_bucket
    &&& !c.dry_run ==> !(s is TryStore) && !(s is TryDeregister)
    &&& c.dry_run && is_cleanup(s) ==> was_tried(h, c.ami_id, bucket)
    &&& r.created_bucket <==> was_done(h, ActionView::CreateBucket { bucket })
    &&& s is AskBucket || s is CreateBucket ==> was_told(
        h,
        ActionView::CheckBucket { bucket },
        false,
    ) && (c.create_bucket || c.yes)
    &&& s is CreateBucket ==> c.yes || was_told(
        h,
        ActionView::Ask { prompt: bucket_prompt(bucket, c.region) },
        true,
    )
    &&& s is EncryptBucket ==> was_done(h, ActionView::BlockPublicAccess { bucket })
    &&& is_hardened(s) && !c.dry_run ==> was_hardened(h, bucket)
    &&& undoes(s, Undo::DeleteBucket) ==> r.created_bucket
}

/// What holds of the store task.
spec fn inv_task(c: ConfigView, run: RunView, h: Seq<(ActionView, AnswerView)>) -> bool {
    let s = run.stage;
    let r = run.rollback;
    let bucket = r.bucket;
    &&& is_early(s) ==> r.object_key == c.ami_id + ".bin"@ && no_object_changes(r)
    &&& s is FindTask || s is StartTask ==> no_object_changes(r) && exists|head: ObjectHeadView|
        #[trigger] was_seen(h, bucket, c.ami_id + ".bin"@, head) && !head.exists
    &&& s is StartTask ==> h.len() > 0 && h.last().0 == (ActionView::FindTask { image: c.ami_id })
        && (h.last().1 matches AnswerView::Task(Ok(task)) && !resumable(task, bucket))
    &&& is_early(s) || s is Identify || s is TryStore || s is FindTask || s is StartTask
        || c.dry_run ==> no_start(h)
    &&& one_start(h)
    &&& r.store_task_started_this_run <==> was_started(h, c.ami_id, bucket)
}

/// What holds of the object.
spec fn inv_object(c: ConfigView, run: RunView, h: Seq<(ActionView, AnswerView)>) -> bool {
    let s = run.stage;
    let r = run.rollback;
    let bucket = r.bucket;
    let key = r.object_key;
    &&& s is AwaitTask || s is Verify ==> !r.archive_object_ready && !r.conversion_attempted
        && !r.storage_class_changed
    &&& s matches StageView::Convert { size } ==> {
        &&& r.archive_object_ready && r.conversion_attempted && !r.storage_class_changed
        &&& exists|head: ObjectHeadView|
            {
                &&& #[trigger] was_seen(h, bucket, key, head)
                &&& head.exists
                &&& or_default(head.storage_class, "STANDARD"@) != c.storage_class
                &&& size == head.content_length
            }
    }
    &&& r.archive_object_ready ==> exists|head: ObjectHeadView|
        #[trigger] was_seen(h, bucket, key, head) && head.exists
    &&& r.conversion_attempted && !r.storage_class_changed && !(s is Convert)
        ==> conversion_failed(h)
    &&& !r.object_existed_before && !r.archive_object_ready && !undoes(s, Undo::DeleteObject)
        && !undoes(s, Undo::DeleteBucket) ==> no_object_seen(h)
    &&& is_cleanup(s) ==> c.cleanup
    &&& is_cleanup(s) && !c.dry_run ==> was_archived(c, h, bucket, key)
        && !(r.conversion_attempted && !r.storage_class_changed)
    &&& s is Deregister ==> c.yes || was_told(
        h,
        ActionView::Ask { prompt: cleanup_prompt(c.ami_id) },
        true,
    )
}

/// What holds while a run is undone.
spec fn inv_undo(c: ConfigView, run: RunView, h: Seq<(ActionView, AnswerView)>) -> bool {
    let r = run.rollback;
    &&& undoes(run.stage, Undo::AbortUploads) ==> r.aborts_uploads()
    &&& undoes(run.stage, Undo::InspectObject) ==> r.deletes_object()
    &&& undoes(run.stage, Undo::DeleteObject) ==> {
        &&& r.deletes_object()
        &&& h.len() > 0
        &&& sees_object(h.last())
        &&& h.last().0 == (ActionView::Head { bucket: r.bucket, key: r.object_key })
        &&& no_object_seen(h.drop_last())
    }
}

/// What holds of a run that waits for an answer.
spec fn inv(c: ConfigView, run: RunView, h: Seq<(ActionView, AnswerView)>) -> bool {
    inv_bucket(c, run, h) && inv_task(c, run, h) && inv_object(c, run, h) && inv_undo(c, run, h)
}

/// What a run has come to that succeeded.
pub open spec fn succeeded(c: ConfigView, h: Seq<(ActionView, AnswerView)>) -> bool {
    if c.dry_run {
        &&& exists|bucket: Seq<char>| was_tried(h, c.ami_id, bucket)
        &&& c.cleanup ==> was_done(h, ActionView::TryDeregister { image: c.ami_id })
    } else {
        &&& exists|bucket: Seq<char>, key: Seq<char>|
            #[trigger] was_archived(c, h, bucket, key) && was_hardened(h, bucket)
        &&& c.cleanup ==> {
            ||| was_done(h, ActionView::Deregister { image: c.ami_id })
            ||| was_told(h, ActionView::Ask { prompt: cleanup_prompt(c.ami_id) }, false)
        }
    }
}

/// What holds of a run that is over.
spec fn inv_over(
    c: ConfigView,
    r: Result<(), AnyErrorView>,
    h: Seq<(ActionView, AnswerView)>,
) -> bool {
    one_start(h) && (r is Ok ==> succeeded(c, h))
}

/// What holds of what a run does next.
spec fn inv_step(c: ConfigView, s: StepView, h: Seq<(ActionView, AnswerView)>) -> bool {
    match s {
        StepView::Go(run) => inv(c, run, h),
        StepView::Finish(r) => inv_over(c, r, h),
    }
}

/// What was done before is still part of a longer history.
proof fn lemma_longer(h: Seq<(ActionView, AnswerView)>, x: (ActionView, AnswerView))
    ensures
        forall|y: (ActionView, AnswerView)| h.contains(y) ==> #[trigger] h.push(x).contains(y),
        forall|y: (ActionView, AnswerView)| #[trigger]
            h.push(x).contains(y) ==> h.contains(y) || y == x,
        h.push(x).contains(x),
        h.push(x).last() == x,
        h.push(x).drop_last() == h,
{
    assert(h.push(x)[h.len() as int] == x);
    assert forall|y: (ActionView, AnswerView)| h.contains(y) implies #[trigger] h.push(x).contains(
        y,
    ) by {
        let i = choose|i: int| 0 <= i < h.len() && h[i] == y;
        assert(h.push(x)[i] == y);
    }
    assert(h.push(x).drop_last() == h);
}


/// What was found out before stays so in a longer history.
proof fn lemma_facts_stay(
    c: ConfigView,
    h: Seq<(ActionView, AnswerView)>,
    x: (ActionView, AnswerView),
    bucket: Seq<char>,
    key: Seq<char>,
)
    ensures
        knows_bucket(c, h, bucket) ==> knows_bucket(c, h.push(x), bucket),
        was_archived(c, h, bucket, key) ==> was_archived(c, h.push(x), bucket, key),
        was_hardened(h, bucket) ==> was_hardened(h.push(x), bucket),
        was_started(h, c.ami_id, bucket) ==> was_started(h.push(x), c.ami_id, bucket),
        forall|k: Seq<char>, head: ObjectHeadView| #[trigger]
            was_seen(h, bucket, k, head) ==> was_seen(h.push(x), bucket, k, head),
        conversion_failed(h) ==> conversion_failed(h.push(x)),
        no_object_seen(h) && !sees_object(x) ==> no_object_seen(h.push(x)),
        no_start(h) && !(x.0 is StartTask) ==> no_start(h.push(x)),
        no_start(h) || (one_start(h) && !(x.0 is StartTask)) ==> one_start(h.push(x)),
        !(x.0 is StartTask && x.1.key() is Ok) ==> (was_started(h, c.ami_id, bucket) <==> was_started(
            h.push(x),
            c.ami_id,
            bucket,
        )),
{
    lemma_longer(h, x);
    let more = h.push(x);
    if knows_bucket(c, h, bucket) {
        let account = choose|account: Seq<char>| #[trigger]
            knows_account(h, account) && bucket == bucket_for(c, account);
        assert(knows_account(more, account));
    }
    if was_archived(c, h, bucket, key) {
        let head = choose|head: ObjectHeadView|
            {
                &&& #[trigger] was_seen(h, bucket, key, head)
                &&& head.exists
                &&& {
                    ||| or_default(head.storage_class, "STANDARD"@) == c.storage_class
                    ||| was_done(
                        h,
                        ActionView::Convert {
                            bucket,
                            key,
                            storage_class: c.storage_class,
                            size: head.content_length,
                        },
                    )
                }
            };
        assert(was_seen(more, bucket, key, head));
    }
    if was_started(h, c.ami_id, bucket) {
        let k = choose|k: Seq<char>| was_started_at(h, c.ami_id, bucket, k);
        assert(was_started_at(more, c.ami_id, bucket, k));
    }
    if was_started(more, c.ami_id, bucket) && !(x.0 is StartTask && x.1.key() is Ok) {
        let k = choose|k: Seq<char>| was_started_at(more, c.ami_id, bucket, k);
        assert(was_started_at(h, c.ami_id, bucket, k));
    }
    if conversion_failed(h) {
        let i = choose|i: int|
            0 <= i < h.len() && (#[trigger] h[i]).0 is Convert && h[i].1.done() is Err;
        assert(more[i] == h[i]);
    }
    if no_object_seen(h) && !sees_object(x) {
        assert forall|i: int| 0 <= i < more.len() implies !sees_object(#[trigger] more[i]) by {
            if i < h.len() {
                assert(more[i] == h[i]);
            }
        }
    }
    assert forall|i: int| 0 <= i < h.len() implies #[trigger] more[i] == h[i] by {}
}

/// What the last answer shows.
proof fn lemma_facts_come(
    c: ConfigView,
    run: RunView,
    h: Seq<(ActionView, AnswerView)>,
    answer: AnswerView,
)
    requires
        inv(c, run, h),
    ensures
        ({
            let more = h.push((run.action(), answer));
            let bucket = run.rollback.bucket;
            let key = run.rollback.object_key;
            &&& run.stage is Identify && answer.account() is Ok ==> knows_account(
                more,
                answer.account()->Ok_0,
            )
            &&& answer.done() is Ok ==> was_done(more, run.action())
            &&& answer.flag() is Ok ==> was_told(more, run.action(), answer.flag()->Ok_0)
            &&& (run.stage is Inspect || run.stage is Verify) && answer.head() is Ok ==> was_seen(
                more,
                bucket,
                key,
                answer.head()->Ok_0,
            )
            &&& run.stage is StartTask && answer.key() is Ok ==> was_started(
                more,
                c.ami_id,
                bucket,
            )
            &&& run.stage is Verify && there(answer) && or_default(
                answer.head()->Ok_0.storage_class,
                "STANDARD"@,
            ) == c.storage_class ==> was_archived(c, more, bucket, key)
            &&& run.stage is Convert && answer.done() is Ok ==> was_archived(c, more, bucket, key)
            &&& run.stage is Convert && answer.done() is Err ==> conversion_failed(more)
        }),
{
    let x = (run.action(), answer);
    let more = h.push(x);
    let bucket = run.rollback.bucket;
    let key = run.rollback.object_key;
    lemma_longer(h, x);
    lemma_facts_stay(c, h, x, bucket, key);
    assert(more[more.len() - 1] == x);
    if answer.done() is Ok {
        assert(answer.done()->Ok_0 == ());
        assert(answer == AnswerView::Done(Ok(())));
    }
    if run.stage is Identify && answer.account() is Ok {
        assert(more[0] == x);
    }
    if run.stage is StartTask && answer.key() is Ok {
        assert(was_started_at(more, c.ami_id, bucket, answer.key()->Ok_0));
    }
    if (run.stage is Inspect || run.stage is Verify) && answer.head() is Ok {
        assert(was_seen(more, bucket, key, answer.head()->Ok_0));
    }
    if run.stage is Convert && answer.done() is Ok {
        let size = run.stage->Convert_size;
        let head = choose|head: ObjectHeadView|
            {
                &&& #[trigger] was_seen(h, bucket, key, head)
                &&& head.exists
                &&& or_default(head.storage_class, "STANDARD"@) != c.storage_class
                &&& size == head.content_length
            };
        assert(was_seen(more, bucket, key, head));
        assert(was_done(more, run.action()));
    }
}

/// Every answer keeps what holds of a run.
#[verifier::spinoff_prover]
#[verifier::rlimit(50)]
proof fn lemma_inv_step(
    c: ConfigView,
    run: RunView,
    h: Seq<(ActionView, AnswerView)>,
    answer: AnswerView,
)
    requires
        inv(c, run, h),
    ensures
        inv_step(c, step(run, answer), h.push((run.action(), answer))),
{
    let x = (run.action(), answer);
    let more = h.push(x);
    lemma_longer(h, x);
    lemma_facts_come(c, run, h, answer);
    lemma_facts_stay(c, h, x, run.rollback.bucket, run.rollback.object_key);
    match step(run, answer) {
        StepView::Go(next) => {
            lemma_facts_stay(c, h, x, next.rollback.bucket, next.rollback.object_key);
            assert(inv_bucket(c, next, more));
            assert(inv_task(c, next, more));
            assert(inv_object(c, next, more));
            assert(inv_undo(c, next, more));
        },
        StepView::Finish(r) => {
            if r is Ok && c.dry_run {
                assert(was_tried(more, c.ami_id, run.rollback.bucket));
            }
            assert(inv_over(c, r, more));
        },
    }
}


/// What holds of a run holds whatever the answers are.
proof fn lemma_inv(c: ConfigView, answers: Seq<AnswerView>)
    ensures
        inv_step(
            c,
            after(StepView::Go(begun(c)), answers),
            history(StepView::Go(begun(c)), answers),
        ),
    decreases answers.len(),
{
    let first = StepView::Go(begun(c));
    if answers.len() == 0 {
        let h = history(first, answers);
        assert(h.len() == 0);
        assert(!was_started(h, c.ami_id, c.bucket)) by {
            assert forall|k: Seq<char>| !was_started_at(h, c.ami_id, c.bucket, k) by {}
        }
        assert(inv(c, begun(c), h));
    } else {
        let init = answers.drop_last();
        lemma_inv(c, init);
        match after(first, init) {
            StepView::Go(run) => {
                lemma_inv_step(c, run, history(first, init), answers.last());
            },
            StepView::Finish(_) => {},
        }
    }
}

/// The action changes something at AWS.
pub open spec fn changes(action: ActionView) -> bool {
    match action {
        ActionView::CreateBucket { .. }
        | ActionView::BlockPublicAccess { .. }
        | ActionView::EncryptBucket { .. }
        | ActionView::StartTask { .. }
        | ActionView::Convert { .. }
        | ActionView::Deregister { .. }
        | ActionView::AbortUploads { .. }
        | ActionView::DeleteObject { .. }
        | ActionView::DeleteBucket { .. } => true,
        _ => false,
    }
}

/// What a run of `c` wants done, and what was done before, after `answers`.
pub open spec fn wants(
    c: ConfigView,
    answers: Seq<AnswerView>,
    action: ActionView,
    h: Seq<(ActionView, AnswerView)>,
) -> bool {
    &&& after(StepView::Go(begun(c)), answers) matches StepView::Go(run) && run.action() == action
    &&& h == history(StepView::Go(begun(c)), answers)
}

/// A trial run changes nothing.
pub proof fn law_trial_changes_nothing(
    c: ConfigView,
    answers: Seq<AnswerView>,
    action: ActionView,
    h: Seq<(ActionView, AnswerView)>,
)
    requires
        c.dry_run,
        wants(c, answers, action, h),
    ensures
        !changes(action),
{
    lemma_inv(c, answers);
}

/// A bucket is made only where it was found missing, where the run may make one, and where the
/// user agreed, beforehand or when asked.
pub proof fn law_bucket_is_made_by_consent(
    c: ConfigView,
    answers: Seq<AnswerView>,
    bucket: Seq<char>,
    h: Seq<(ActionView, AnswerView)>,
)
    requires
        wants(c, answers, ActionView::CreateBucket { bucket }, h),
    ensures
        knows_bucket(c, h, bucket),
        was_told(h, ActionView::CheckBucket { bucket }, false),
        c.create_bucket || c.yes,
        c.yes || was_told(
            h,
            ActionView::Ask { prompt: bucket_prompt(bucket, c.region) },
            true,
        ),
{
    lemma_inv(c, answers);
}

/// An image is stored only in a bucket that was hardened before, only where the object was looked
/// for and was not there, only where the latest store task cannot be resumed, and at most once.
pub proof fn law_image_is_stored_only_where_needed(
    c: ConfigView,
    answers: Seq<AnswerView>,
    image: Seq<char>,
    bucket: Seq<char>,
    h: Seq<(ActionView, AnswerView)>,
)
    requires
        wants(c, answers, ActionView::StartTask { image, bucket }, h),
    ensures
        image == c.ami_id,
        knows_bucket(c, h, bucket),
        was_hardened(h, bucket),
        exists|head: ObjectHeadView| #[trigger]
            was_seen(h, bucket, image + ".bin"@, head) && !head.exists,
        exists|task: StoreImageTaskView|
            !(#[trigger] resumable(task, bucket)) && h.contains(
                (ActionView::FindTask { image }, AnswerView::Task(Ok(task))),
            ),
        no_start(h),
{
    lemma_inv(c, answers);
    let task = h.last().1->Task_0->Ok_0;
    assert(!resumable(task, bucket));
    assert(h[h.len() - 1] == (ActionView::FindTask { image }, AnswerView::Task(Ok(task))));
}

/// The storage class of an object is changed only where the object was seen in another class than
/// the one that is asked for.
pub proof fn law_object_is_converted_only_where_needed(
    c: ConfigView,
    answers: Seq<AnswerView>,
    bucket: Seq<char>,
    key: Seq<char>,
    storage_class: Seq<char>,
    size: int,
    h: Seq<(ActionView, AnswerView)>,
)
    requires
        wants(c, answers, ActionView::Convert { bucket, key, storage_class, size }, h),
    ensures
        storage_class == c.storage_class,
        was_hardened(h, bucket),
        exists|head: ObjectHeadView|
            {
                &&& #[trigger] was_seen(h, bucket, key, head)
                &&& head.exists
                &&& or_default(head.storage_class, "STANDARD"@) != storage_class
                &&& size == head.content_length
            },
{
    lemma_inv(c, answers);
}

/// An image is deregistered only where this was asked for, where the user agreed, beforehand or
/// when asked, and where the archive was seen in the storage class that is asked for or was brought
/// into it.
pub proof fn law_image_is_deregistered_only_once_archived(
    c: ConfigView,
    answers: Seq<AnswerView>,
    image: Seq<char>,
    h: Seq<(ActionView, AnswerView)>,
)
    requires
        wants(c, answers, ActionView::Deregister { image }, h),
    ensures
        image == c.ami_id,
        !c.dry_run,
        c.cleanup,
        c.yes || was_told(h, ActionView::Ask { prompt: cleanup_prompt(image) }, true),
        exists|bucket: Seq<char>, key: Seq<char>| #[trigger]
            was_archived(c, h, bucket, key) && was_hardened(h, bucket),
{
    lemma_inv(c, answers);
    let run = after(StepView::Go(begun(c)), answers)->Go_0;
    assert(was_archived(c, h, run.rollback.bucket, run.rollback.object_key));
}

/// An object is deleted only where this run started the task that writes it, and where it was not
/// there whenever it was looked at before the run failed: a complete archive is never deleted. It
/// is deleted only once it was looked at again and found.
pub proof fn law_object_is_deleted_only_where_incomplete(
    c: ConfigView,
    answers: Seq<AnswerView>,
    bucket: Seq<char>,
    key: Seq<char>,
    h: Seq<(ActionView, AnswerView)>,
)
    requires
        wants(c, answers, ActionView::DeleteObject { bucket, key }, h),
    ensures
        was_started(h, c.ami_id, bucket),
        h.len() > 0,
        h.last().0 == (ActionView::Head { bucket, key }),
        there(h.last().1),
        no_object_seen(h.drop_last()),
{
    lemma_inv(c, answers);
}

/// Unfinished uploads are given up only where a change of the storage class failed, and a bucket
/// is deleted only where this run made it.
pub proof fn law_only_own_changes_are_undone(
    c: ConfigView,
    answers: Seq<AnswerView>,
    action: ActionView,
    h: Seq<(ActionView, AnswerView)>,
)
    requires
        wants(c, answers, action, h),
    ensures
        action is AbortUploads ==> conversion_failed(h),
        action matches ActionView::DeleteBucket { bucket } ==> was_done(
            h,
            ActionView::CreateBucket { bucket },
        ),
{
    lemma_inv(c, answers);
}

/// A run that succeeds has archived the image: the object was seen in a hardened bucket, in the
/// storage class that is asked for or was brought into it, and the cleanup that was asked for was
/// carried out or declined. A trial run that succeeds has found that all this would be permitted.
pub proof fn law_success_means_archived(c: ConfigView, answers: Seq<AnswerView>)
    requires
        after(StepView::Go(begun(c)), answers) matches StepView::Finish(Ok(_)),
    ensures
        succeeded(c, history(StepView::Go(begun(c)), answers)),
{
    lemma_inv(c, answers);
}

/// A run that is repeated goes on where the work was left. Where the object is there, nothing is
/// stored; where it is there in the storage class that is asked for, nothing is converted either;
/// where a store task is complete or in progress it is resumed; and only otherwise one is started.
pub proof fn law_repeated_run_resumes(run: RunView, head: ObjectHeadView, task: StoreImageTaskView)
    ensures
        run.stage is Inspect ==> (step(run, AnswerView::Head(Ok(head))) matches StepView::Go(next)
            && next.stage == (if head.exists {
            StageView::Verify
        } else {
            StageView::FindTask
        })),
        run.stage is Verify && head.exists && or_default(head.storage_class, "STANDARD"@)
            == run.cfg.storage_class ==> step(run, AnswerView::Head(Ok(head))) == run.with(
            RollbackView { archive_object_ready: true, ..run.rollback },
        ).ready(),
        run.stage is FindTask ==> (step(run, AnswerView::Task(Ok(task))) matches StepView::Go(next)
            && next.stage == (if !resumable(task, run.rollback.bucket) {
            StageView::StartTask
        } else if run.cfg.wait {
            StageView::AwaitTask { key: or_default(task.object_key, run.rollback.object_key) }
        } else {
            StageView::Verify
        })),
{
}

/// A run that is being undone fails as it failed at first, whatever comes of the undoing.
pub proof fn law_undoing_keeps_the_failure(
    run: RunView,
    undo: Undo,
    error: AnyErrorView,
    answer: AnswerView,
)
    requires
        run.stage == (StageView::Undo { undo, error }),
    ensures
        match step(run, answer) {
            StepView::Go(next) => next.stage matches StageView::Undo { undo: _, error: e } && e
                == error && next.rollback == run.rollback,
            StepView::Finish(r) => r == Err::<(), AnyErrorView>(error),
        },
{
}

/// How many answers a run waits for at most.
spec fn steps_left(s: StageView) -> nat {
    match s {
        StageView::Identify => 20,
        StageView::CheckBucket => 19,
        StageView::AskBucket => 18,
        StageView::CreateBucket => 17,
        StageView::BlockPublicAccess => 16,
        StageView::EncryptBucket => 15,
        StageView::Inspect => 14,
        StageView::FindTask => 13,
        StageView::StartTask => 12,
        StageView::AwaitTask { .. } => 11,
        StageView::Verify => 10,
        StageView::Convert { .. } => 9,
        StageView::TryStore => 8,
        StageView::ListSnapshots => 7,
        StageView::TryDeregister => 6,
        StageView::AskCleanup => 6,
        StageView::Deregister => 5,
        StageView::Undo { undo, error } => match undo {
            Undo::AbortUploads => 4,
            Undo::InspectObject => 3,
            Undo::DeleteObject => 2,
            Undo::DeleteBucket => 1,
        },
    }
}

/// Every run comes to its end: it is over after at most twenty answers.
pub proof fn law_every_run_ends(c: ConfigView, answers: Seq<AnswerView>)
    requires
        answers.len() >= 20,
    ensures
        after(StepView::Go(begun(c)), answers) is Finish,
{
    lemma_steps_left(c, answers);
}

/// What is tried next to undo a run stands behind what was tried.
proof fn lemma_undo_nearer(run: RunView, done: Undone, error: AnyErrorView)
    ensures
        run.undo(done, error) matches StepView::Go(next) ==> {
            &&& 0 < steps_left(next.stage) <= 4
            &&& done is Uploads ==> steps_left(next.stage) <= 3
            &&& done is Inspection ==> steps_left(next.stage) <= 2
            &&& done is Object ==> steps_left(next.stage) <= 1
            &&& !(done is Bucket)
        },
{
}

/// An answer brings a run nearer to its end.
#[verifier::spinoff_prover]
proof fn lemma_nearer(run: RunView, answer: AnswerView)
    ensures
        step(run, answer) matches StepView::Go(next) ==> 0 < steps_left(next.stage) < steps_left(
            run.stage,
        ),
{
    assert forall|error: AnyErrorView| (#[trigger] run.fail(error)) is Go implies 0 < steps_left(
        run.fail(error)->Go_0.stage,
    ) <= 4 by {
        lemma_undo_nearer(run, Undone::Nothing, error);
    }
    match run.stage {
        StageView::Identify => {
            assert(step(run, answer) == step_identity(run, answer));
        },
        StageView::CheckBucket
        | StageView::AskBucket
        | StageView::CreateBucket
        | StageView::BlockPublicAccess
        | StageView::EncryptBucket => {
            assert(step(run, answer) == step_bucket(run, answer));
        },
        StageView::TryStore => {},
        StageView::FindTask | StageView::StartTask | StageView::AwaitTask { .. } => {
            assert(step(run, answer) == step_task(run, answer));
        },
        StageView::Inspect | StageView::Verify | StageView::Convert { .. } => {
            assert(step(run, answer) == step_object(run, answer));
        },
        StageView::ListSnapshots
        | StageView::TryDeregister
        | StageView::AskCleanup
        | StageView::Deregister => {
            assert(step(run, answer) == step_cleanup(run, answer));
        },
        StageView::Undo { undo, error } => {
            lemma_undo_nearer(run, tried(undo, there(answer)), error);
        },
    }
}

/// Each answer brings a run nearer to its end.
proof fn lemma_steps_left(c: ConfigView, answers: Seq<AnswerView>)
    ensures
        after(StepView::Go(begun(c)), answers) matches StepView::Go(run) ==> 0 < steps_left(
            run.stage,
        ) && steps_left(run.stage) + answers.len() <= 20,
    decreases answers.len(),
{
    let first = StepView::Go(begun(c));
    if answers.len() > 0 {
        lemma_steps_left(c, answers.drop_last());
        if let StepView::Go(run) = after(first, answers.drop_last()) {
            lemma_nearer(run, answers.last());
        }
    } else {
        assert(begun(c).stage is Identify);
    }
}

}
