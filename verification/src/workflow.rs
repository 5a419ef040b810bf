//! The archive workflow, one step at a time.
//!
//! A run asks for one action after the other. Whoever carries the actions out hands back what came
//! of each, and learns what the run does next.
use crate::config::{Config, ConfigView};
use crate::error::{empty_default, or_default, AnyError, AnyErrorView};
use crate::rollback::{nothing_changed, tried, RollbackContext, RollbackView, Undo, Undone};
use crate::text::{lowered, same, same_but_case};
use crate::types::{ObjectHead, ObjectHeadView, StoreImageTask, StoreImageTaskView};
use vstd::prelude::*;
use vstd::string::*;

verus! {

/// Something that a run wants done.
pub enum Action {
    /// Find out whose credentials are used.
    Identify,
    /// See whether a bucket is there.
    CheckBucket { bucket: String },
    /// Ask the user a question.
    Ask { prompt: String },
    /// Make a bucket.
    CreateBucket { bucket: String },
    /// Block public access to a bucket.
    BlockPublicAccess { bucket: String },
    /// Encrypt what a bucket holds.
    EncryptBucket { bucket: String },
    /// See whether an image may be stored.
    TryStore { image: String, bucket: String },
    /// Look at an object.
    Head { bucket: String, key: String },
    /// Look for the latest store task of an image.
    FindTask { image: String },
    /// Store an image.
    StartTask { image: String, bucket: String },
    /// Wait for the store task of an image.
    AwaitTask { image: String, bucket: String, poll_seconds: u64 },
    /// Copy an object onto itself in another storage class.
    Convert { bucket: String, key: String, storage_class: String, size: i64 },
    /// List the snapshots of an image.
    ListSnapshots { image: String },
    /// See whether an image may be deregistered.
    TryDeregister { image: String },
    /// Deregister an image and delete its snapshots.
    Deregister { image: String },
    /// Give up the unfinished uploads of an object.
    AbortUploads { bucket: String, key: String },
    /// Delete an object.
    DeleteObject { bucket: String, key: String },
    /// Delete a bucket.
    DeleteBucket { bucket: String },
}

/// [`Action`] with the texts of its fields.
pub enum ActionView {
    Identify,
    CheckBucket { bucket: Seq<char> },
    Ask { prompt: Seq<char> },
    CreateBucket { bucket: Seq<char> },
    BlockPublicAccess { bucket: Seq<char> },
    EncryptBucket { bucket: Seq<char> },
    TryStore { image: Seq<char>, bucket: Seq<char> },
    Head { bucket: Seq<char>, key: Seq<char> },
    FindTask { image: Seq<char> },
    StartTask { image: Seq<char>, bucket: Seq<char> },
    AwaitTask { image: Seq<char>, bucket: Seq<char>, poll_seconds: nat },
    Convert { bucket: Seq<char>, key: Seq<char>, storage_class: Seq<char>, size: int },
    ListSnapshots { image: Seq<char> },
    TryDeregister { image: Seq<char> },
    Deregister { image: Seq<char> },
    AbortUploads { bucket: Seq<char>, key: Seq<char> },
    DeleteObject { bucket: Seq<char>, key: Seq<char> },
    DeleteBucket { bucket: Seq<char> },
}

impl View for Action {
    type V = ActionView;

    open spec fn view(&self) -> ActionView {
        match self {
            Action::Identify => ActionView::Identify,
            Action::CheckBucket { bucket } => ActionView::CheckBucket { bucket: bucket@ },
            Action::Ask { prompt } => ActionView::Ask { prompt: prompt@ },
            Action::CreateBucket { bucket } => ActionView::CreateBucket { bucket: bucket@ },
            Action::BlockPublicAccess { bucket } => ActionView::BlockPublicAccess {
                bucket: bucket@,
            },
            Action::EncryptBucket { bucket } => ActionView::EncryptBucket { bucket: bucket@ },
            Action::TryStore { image, bucket } => ActionView::TryStore {
                image: image@,
                bucket: bucket@,
            },
            Action::Head { bucket, key } => ActionView::Head { bucket: bucket@, key: key@ },
            Action::FindTask { image } => ActionView::FindTask { image: image@ },
            Action::StartTask { image, bucket } => ActionView::StartTask {
                image: image@,
                bucket: bucket@,
            },
            Action::AwaitTask { image, bucket, poll_seconds } => ActionView::AwaitTask {
                image: image@,
                bucket: bucket@,
                poll_seconds: *poll_seconds as nat,
            },
            Action::Convert { bucket, key, storage_class, size } => ActionView::Convert {
                bucket: bucket@,
                key: key@,
                storage_class: storage_class@,
                size: *size as int,
            },
            Action::ListSnapshots { image } => ActionView::ListSnapshots { image: image@ },
            Action::TryDeregister { image } => ActionView::TryDeregister { image: image@ },
            Action::Deregister { image } => ActionView::Deregister { image: image@ },
            Action::AbortUploads { bucket, key } => ActionView::AbortUploads {
                bucket: bucket@,
                key: key@,
            },
            Action::DeleteObject { bucket, key } => ActionView::DeleteObject {
                bucket: bucket@,
                key: key@,
            },
            Action::DeleteBucket { bucket } => ActionView::DeleteBucket { bucket: bucket@ },
        }
    }
}

/// What came of an action.
pub enum Answer {
    /// The account, from `Identify`.
    Account(Result<String, AnyError>),
    /// Yes or no, from `CheckBucket` and `Ask`.
    Flag(Result<bool, AnyError>),
    /// What is there of an object, from `Head`.
    Head(Result<ObjectHead, AnyError>),
    /// A store task, from `FindTask` and `AwaitTask`.
    Task(Result<StoreImageTask, AnyError>),
    /// The key of the object that is written, from `StartTask`.
    Key(Result<String, AnyError>),
    /// Whether it was done, from everything else.
    Done(Result<(), AnyError>),
}

/// [`Answer`] with the texts of its fields.
pub enum AnswerView {
    Account(Result<Seq<char>, AnyErrorView>),
    Flag(Result<bool, AnyErrorView>),
    Head(Result<ObjectHeadView, AnyErrorView>),
    Task(Result<StoreImageTaskView, AnyErrorView>),
    Key(Result<Seq<char>, AnyErrorView>),
    Done(Result<(), AnyErrorView>),
}

impl View for Answer {
    type V = AnswerView;

    open spec fn view(&self) -> AnswerView {
        match self {
            Answer::Account(Ok(a)) => AnswerView::Account(Ok(a@)),
            Answer::Account(Err(e)) => AnswerView::Account(Err(e@)),
            Answer::Flag(Ok(b)) => AnswerView::Flag(Ok(*b)),
            Answer::Flag(Err(e)) => AnswerView::Flag(Err(e@)),
            Answer::Head(Ok(h)) => AnswerView::Head(Ok(h@)),
            Answer::Head(Err(e)) => AnswerView::Head(Err(e@)),
            Answer::Task(Ok(t)) => AnswerView::Task(Ok(t@)),
            Answer::Task(Err(e)) => AnswerView::Task(Err(e@)),
            Answer::Key(Ok(k)) => AnswerView::Key(Ok(k@)),
            Answer::Key(Err(e)) => AnswerView::Key(Err(e@)),
            Answer::Done(Ok(_)) => AnswerView::Done(Ok(())),
            Answer::Done(Err(e)) => AnswerView::Done(Err(e@)),
        }
    }
}

/// How an answer that does not belong to its action is told.
pub open spec fn misfit() -> AnyErrorView {
    AnyErrorView::Message("unexpected answer"@)
}

impl AnswerView {
    /// The account; an answer of another kind is a failure.
    pub open spec fn account(self) -> Result<Seq<char>, AnyErrorView> {
        match self {
            AnswerView::Account(r) => r,
            _ => Err(misfit()),
        }
    }

    /// Yes or no; an answer of another kind is a failure.
    pub open spec fn flag(self) -> Result<bool, AnyErrorView> {
        match self {
            AnswerView::Flag(r) => r,
            _ => Err(misfit()),
        }
    }

    /// What is there of an object; an answer of another kind is a failure.
    pub open spec fn head(self) -> Result<ObjectHeadView, AnyErrorView> {
        match self {
            AnswerView::Head(r) => r,
            _ => Err(misfit()),
        }
    }

    /// A store task; an answer of another kind is a failure.
    pub open spec fn task(self) -> Result<StoreImageTaskView, AnyErrorView> {
        match self {
            AnswerView::Task(r) => r,
            _ => Err(misfit()),
        }
    }

    /// The key of an object; an answer of another kind is a failure.
    pub open spec fn key(self) -> Result<Seq<char>, AnyErrorView> {
        match self {
            AnswerView::Key(r) => r,
            _ => Err(misfit()),
        }
    }

    /// Whether it was done; an answer of another kind is a failure.
    pub open spec fn done(self) -> Result<(), AnyErrorView> {
        match self {
            AnswerView::Done(r) => r,
            _ => Err(misfit()),
        }
    }
}

/// How far a run has come: the action that it waits for an answer to.
pub enum Stage {
    /// Whose credentials are used.
    Identify,
    /// Whether the bucket is there.
    CheckBucket,
    /// Whether the user wants the bucket made.
    AskBucket,
    /// The making of the bucket.
    CreateBucket,
    /// The blocking of public access.
    BlockPublicAccess,
    /// The encryption of the bucket.
    EncryptBucket,
    /// Whether the image may be stored.
    TryStore,
    /// Whether the object is there before anything is stored.
    Inspect,
    /// Which store task there is.
    FindTask,
    /// The start of a store task.
    StartTask,
    /// The end of the store task, which writes the object `key` as far as is known.
    AwaitTask { key: String },
    /// Whether the object is there once it is stored.
    Verify,
    /// The change of the storage class of an object of so many bytes.
    Convert { size: i64 },
    /// Which snapshots the image has.
    ListSnapshots,
    /// Whether the image may be deregistered.
    TryDeregister,
    /// Whether the user wants the image deregistered.
    AskCleanup,
    /// The deregistration of the image.
    Deregister,
    /// The undoing of the run, which failed with `error`.
    Undo { undo: Undo, error: AnyError },
}

/// [`Stage`] with the texts of its fields.
pub enum StageView {
    Identify,
    CheckBucket,
    AskBucket,
    CreateBucket,
    BlockPublicAccess,
    EncryptBucket,
    TryStore,
    Inspect,
    FindTask,
    StartTask,
    AwaitTask { key: Seq<char> },
    Verify,
    Convert { size: int },
    ListSnapshots,
    TryDeregister,
    AskCleanup,
    Deregister,
    Undo { undo: Undo, error: AnyErrorView },
}

impl View for Stage {
    type V = StageView;

    open spec fn view(&self) -> StageView {
        match self {
            Stage::Identify => StageView::Identify,
            Stage::CheckBucket => StageView::CheckBucket,
            Stage::AskBucket => StageView::AskBucket,
            Stage::CreateBucket => StageView::CreateBucket,
            Stage::BlockPublicAccess => StageView::BlockPublicAccess,
            Stage::EncryptBucket => StageView::EncryptBucket,
            Stage::TryStore => StageView::TryStore,
            Stage::Inspect => StageView::Inspect,
            Stage::FindTask => StageView::FindTask,
            Stage::StartTask => StageView::StartTask,
            Stage::AwaitTask { key } => StageView::AwaitTask { key: key@ },
            Stage::Verify => StageView::Verify,
            Stage::Convert { size } => StageView::Convert { size: *size as int },
            Stage::ListSnapshots => StageView::ListSnapshots,
            Stage::TryDeregister => StageView::TryDeregister,
            Stage::AskCleanup => StageView::AskCleanup,
            Stage::Deregister => StageView::Deregister,
            Stage::Undo { undo, error } => StageView::Undo { undo: *undo, error: error@ },
        }
    }
}

/// A run that waits for an answer.
pub struct Run {
    pub cfg: Config,
    pub rollback: RollbackContext,
    pub stage: Stage,
}

/// [`Run`] with the texts of its fields.
pub struct RunView {
    pub cfg: ConfigView,
    pub rollback: RollbackView,
    pub stage: StageView,
}

impl View for Run {
    type V = RunView;

    open spec fn view(&self) -> RunView {
        RunView { cfg: self.cfg@, rollback: self.rollback@, stage: self.stage@ }
    }
}

/// What a run does next.
pub enum Step {
    /// It wants an action done.
    Go(Run),
    /// It is over.
    Finish(Result<(), AnyError>),
}

/// [`Step`] with the texts of its fields.
pub enum StepView {
    Go(RunView),
    Finish(Result<(), AnyErrorView>),
}

impl View for Step {
    type V = StepView;

    open spec fn view(&self) -> StepView {
        match self {
            Step::Go(run) => StepView::Go(run@),
            Step::Finish(Ok(_)) => StepView::Finish(Ok(())),
            Step::Finish(Err(e)) => StepView::Finish(Err(e@)),
        }
    }
}

/// The question whether a bucket is to be made.
pub open spec fn bucket_prompt(bucket: Seq<char>, region: Seq<char>) -> Seq<char> {
    "Create bucket s3://"@ + bucket + " in region "@ + region + "?"@
}

/// The question whether an image is to be deregistered.
pub open spec fn cleanup_prompt(image: Seq<char>) -> Seq<char> {
    "Deregister "@ + image + " and delete associated EBS snapshots?"@
}

impl RunView {
    /// The action that the run waits for an answer to.
    pub open spec fn action(self) -> ActionView {
        let image = self.cfg.ami_id;
        let bucket = self.rollback.bucket;
        let key = self.rollback.object_key;
        match self.stage {
            StageView::Identify => ActionView::Identify,
            StageView::CheckBucket => ActionView::CheckBucket { bucket },
            StageView::AskBucket => ActionView::Ask {
                prompt: bucket_prompt(bucket, self.cfg.region),
            },
            StageView::CreateBucket => ActionView::CreateBucket { bucket },
            StageView::BlockPublicAccess => ActionView::BlockPublicAccess { bucket },
            StageView::EncryptBucket => ActionView::EncryptBucket { bucket },
            StageView::TryStore => ActionView::TryStore { image, bucket },
            StageView::Inspect => ActionView::Head { bucket, key },
            StageView::FindTask => ActionView::FindTask { image },
            StageView::StartTask => ActionView::StartTask { image, bucket },
            StageView::AwaitTask { .. } => ActionView::AwaitTask {
                image,
                bucket,
                poll_seconds: self.cfg.poll_seconds,
            },
            StageView::Verify => ActionView::Head { bucket, key },
            StageView::Convert { size } => ActionView::Convert {
                bucket,
                key,
                storage_class: self.cfg.storage_class,
                size,
            },
            StageView::ListSnapshots => ActionView::ListSnapshots { image },
            StageView::TryDeregister => ActionView::TryDeregister { image },
            StageView::AskCleanup => ActionView::Ask { prompt: cleanup_prompt(image) },
            StageView::Deregister => ActionView::Deregister { image },
            StageView::Undo { undo, error } => match undo {
                Undo::AbortUploads => ActionView::AbortUploads { bucket, key },
                Undo::InspectObject => ActionView::Head { bucket, key },
                Undo::DeleteObject => ActionView::DeleteObject { bucket, key },
                Undo::DeleteBucket => ActionView::DeleteBucket { bucket },
            },
        }
    }

    /// The run goes on at `stage`.
    pub open spec fn at(self, stage: StageView) -> StepView {
        StepView::Go(RunView { stage, ..self })
    }

    /// The run, with these changes made.
    pub open spec fn with(self, rollback: RollbackView) -> RunView {
        RunView { rollback, ..self }
    }

    /// The run, which failed with `error`, is undone further, once `done` was tried.
    pub open spec fn undo(self, done: Undone, error: AnyErrorView) -> StepView {
        match self.rollback.undo_after(self.cfg.dry_run, done) {
            Some(undo) => self.at(StageView::Undo { undo, error }),
            None => StepView::Finish(Err(error)),
        }
    }

    /// The run fails: it is undone, and is over then.
    pub open spec fn fail(self, error: AnyErrorView) -> StepView {
        self.undo(Undone::Nothing, error)
    }

    /// The run goes on at `stage` where `r` is a success, and fails otherwise.
    pub open spec fn then_at(self, r: Result<(), AnyErrorView>, stage: StageView) -> StepView {
        match r {
            Ok(_) => self.at(stage),
            Err(e) => self.fail(e),
        }
    }

    /// The run is over where `r` is a success, and fails otherwise.
    pub open spec fn then_over(self, r: Result<(), AnyErrorView>) -> StepView {
        match r {
            Ok(_) => StepView::Finish(Ok(())),
            Err(e) => self.fail(e),
        }
    }

    /// The archive is ready: the run is over, but for the cleanup that may be asked for.
    pub open spec fn ready(self) -> StepView {
        if self.cfg.cleanup {
            self.at(StageView::ListSnapshots)
        } else {
            StepView::Finish(Ok(()))
        }
    }

    /// The run may make a bucket.
    pub open spec fn may_create(self) -> bool {
        self.cfg.create_bucket || self.cfg.yes
    }

    /// The run archives to the object `key`, which is stored.
    pub open spec fn stored(self, key: Seq<char>) -> StepView {
        self.with(RollbackView { object_key: key, ..self.rollback }).at(StageView::Verify)
    }

    /// A store task that writes the object `key` is under way, or was before: the run waits for
    /// it, where it is to wait.
    pub open spec fn storing(self, key: Seq<char>) -> StepView {
        if self.cfg.wait {
            self.at(StageView::AwaitTask { key })
        } else {
            self.stored(key)
        }
    }
}

/// The bucket that a run archives to: the one it was given, or one that is named after the
/// account and the region.
pub open spec fn bucket_for(c: ConfigView, account: Seq<char>) -> Seq<char> {
    if c.bucket.len() == 0 {
        "ami-archive-"@ + account + "-"@ + c.region
    } else {
        c.bucket
    }
}

/// A run that waits to learn whose credentials are used.
pub open spec fn begun(c: ConfigView) -> RunView {
    RunView {
        cfg: c,
        rollback: nothing_changed(c.bucket, Seq::empty(), c.dry_run),
        stage: StageView::Identify,
    }
}

/// What a run does once it knows the account.
pub open spec fn step_identity(run: RunView, answer: AnswerView) -> StepView {
    match answer.account() {
        Err(e) => StepView::Finish(Err(e)),
        Ok(account) => {
            let bucket = bucket_for(run.cfg, account);
            let next = run.with(
                nothing_changed(bucket, run.cfg.ami_id + ".bin"@, run.cfg.dry_run),
            );
            if run.cfg.bucket.len() == 0 && !run.may_create() {
                StepView::Finish(
                    Err(
                        AnyErrorView::Message(
                            "bucket not provided. Re-run with --s3-uri s3://bucket, or allow proposed bucket creation with --create-bucket"@,
                        ),
                    ),
                )
            } else if run.cfg.dry_run {
                next.at(StageView::TryStore)
            } else {
                next.at(StageView::CheckBucket)
            }
        },
    }
}

/// What a run does next while it prepares the bucket.
pub open spec fn step_bucket(run: RunView, answer: AnswerView) -> StepView {
    match run.stage {
        StageView::CheckBucket => match answer.flag() {
            Err(e) => run.fail(e),
            Ok(true) => run.at(StageView::BlockPublicAccess),
            Ok(false) => if !run.may_create() {
                run.fail(
                    AnyErrorView::Message(
                        "bucket s3://"@ + run.rollback.bucket
                            + " does not exist; pass --create-bucket or create it first"@,
                    ),
                )
            } else if run.cfg.yes {
                run.at(StageView::CreateBucket)
            } else {
                run.at(StageView::AskBucket)
            },
        },
        StageView::AskBucket => match answer.flag() {
            Err(e) => run.fail(e),
            Ok(true) => run.at(StageView::CreateBucket),
            Ok(false) => run.fail(AnyErrorView::Message("bucket creation declined"@)),
        },
        StageView::CreateBucket => match answer.done() {
            Err(e) => run.fail(e),
            Ok(_) => run.with(RollbackView { created_bucket: true, ..run.rollback }).at(
                StageView::BlockPublicAccess,
            ),
        },
        StageView::BlockPublicAccess => run.then_at(answer.done(), StageView::EncryptBucket),
        _ => run.then_at(answer.done(), StageView::Inspect),
    }
}

/// The task stores the image in this bucket, and is in this state.
pub open spec fn task_here(task: StoreImageTaskView, bucket: Seq<char>, state: Seq<char>) -> bool {
    task.image_id.len() > 0 && lowered(task.bucket) == lowered(bucket) && lowered(task.state)
        == lowered(state)
}

/// The task has stored the image in this bucket, or is doing so.
pub open spec fn resumable(task: StoreImageTaskView, bucket: Seq<char>) -> bool {
    ||| task_here(task, bucket, "Completed"@) && task.object_key.len() > 0
    ||| task_here(task, bucket, "InProgress"@)
}

/// What a run does next while the image is stored.
pub open spec fn step_task(run: RunView, answer: AnswerView) -> StepView {
    match run.stage {
        StageView::FindTask => match answer.task() {
            Err(e) => run.fail(e),
            Ok(task) => if resumable(task, run.rollback.bucket) {
                run.storing(or_default(task.object_key, run.rollback.object_key))
            } else {
                run.at(StageView::StartTask)
            },
        },
        StageView::StartTask => match answer.key() {
            Err(e) => run.fail(e),
            Ok(key) => run.with(
                RollbackView {
                    object_key: key,
                    store_task_started_this_run: true,
                    ..run.rollback
                },
            ).storing(key),
        },
        StageView::AwaitTask { key } => match answer.task() {
            Err(e) => run.fail(e),
            Ok(task) => run.stored(or_default(task.object_key, key)),
        },
        _ => run.fail(misfit()),
    }
}

/// What a run does next while it looks at the object.
pub open spec fn step_object(run: RunView, answer: AnswerView) -> StepView {
    match run.stage {
        StageView::Inspect => match answer.head() {
            Err(e) => run.fail(e),
            Ok(head) => run.with(
                RollbackView { object_existed_before: head.exists, ..run.rollback },
            ).at(
                if head.exists {
                    StageView::Verify
                } else {
                    StageView::FindTask
                },
            ),
        },
        StageView::Verify => match answer.head() {
            Err(e) => run.fail(e),
            Ok(head) => if !head.exists {
                run.fail(
                    AnyErrorView::Message(
                        "expected object not found after completed store task: s3://"@
                            + run.rollback.bucket + "/"@ + run.rollback.object_key,
                    ),
                )
            } else if or_default(head.storage_class, "STANDARD"@) != run.cfg.storage_class {
                run.with(
                    RollbackView {
                        archive_object_ready: true,
                        conversion_attempted: true,
                        ..run.rollback
                    },
                ).at(StageView::Convert { size: head.content_length })
            } else {
                run.with(RollbackView { archive_object_ready: true, ..run.rollback }).ready()
            },
        },
        _ => match answer.done() {
            Err(e) => run.fail(e),
            Ok(_) => run.with(
                RollbackView { storage_class_changed: true, ..run.rollback },
            ).ready(),
        },
    }
}

/// What a run does next while it cleans up.
pub open spec fn step_cleanup(run: RunView, answer: AnswerView) -> StepView {
    match run.stage {
        StageView::ListSnapshots => run.at(
            if run.cfg.dry_run {
                StageView::TryDeregister
            } else if run.cfg.yes {
                StageView::Deregister
            } else {
                StageView::AskCleanup
            },
        ),
        StageView::AskCleanup => match answer.flag() {
            Err(e) => run.fail(e),
            Ok(true) => run.at(StageView::Deregister),
            Ok(false) => StepView::Finish(Ok(())),
        },
        _ => run.then_over(answer.done()),
    }
}

/// The object was seen.
pub open spec fn there(answer: AnswerView) -> bool {
    answer.head() matches Ok(head) && head.exists
}

/// What a run does next, once its action was answered.
pub open spec fn step(run: RunView, answer: AnswerView) -> StepView {
    match run.stage {
        StageView::Identify => step_identity(run, answer),
        StageView::CheckBucket
        | StageView::AskBucket
        | StageView::CreateBucket
        | StageView::BlockPublicAccess
        | StageView::EncryptBucket => step_bucket(run, answer),
        StageView::TryStore => match answer.done() {
            Err(e) => run.fail(e),
            Ok(_) => run.ready(),
        },
        StageView::FindTask | StageView::StartTask | StageView::AwaitTask { .. } => step_task(
            run,
            answer,
        ),
        StageView::Inspect | StageView::Verify | StageView::Convert { .. } => step_object(
            run,
            answer,
        ),
        StageView::ListSnapshots
        | StageView::TryDeregister
        | StageView::AskCleanup
        | StageView::Deregister => step_cleanup(run, answer),
        StageView::Undo { undo, error } => run.undo(tried(undo, there(answer)), error),
    }
}


impl Answer {
    /// The account; an answer of another kind is a failure.
    fn account(self) -> (r: Result<String, AnyError>)
        ensures
            match r {
                Ok(a) => self@.account() == Ok::<Seq<char>, AnyErrorView>(a@),
                Err(e) => self@.account() == Err::<Seq<char>, AnyErrorView>(e@),
            },
    {
        match self {
            Answer::Account(r) => r,
            _ => Err(AnyError::text("unexpected answer")),
        }
    }

    /// Yes or no; an answer of another kind is a failure.
    fn flag(self) -> (r: Result<bool, AnyError>)
        ensures
            match r {
                Ok(b) => self@.flag() == Ok::<bool, AnyErrorView>(b),
                Err(e) => self@.flag() == Err::<bool, AnyErrorView>(e@),
            },
    {
        match self {
            Answer::Flag(r) => r,
            _ => Err(AnyError::text("unexpected answer")),
        }
    }

    /// What is there of an object; an answer of another kind is a failure.
    fn head(self) -> (r: Result<ObjectHead, AnyError>)
        ensures
            match r {
                Ok(h) => self@.head() == Ok::<ObjectHeadView, AnyErrorView>(h@),
                Err(e) => self@.head() == Err::<ObjectHeadView, AnyErrorView>(e@),
            },
    {
        match self {
            Answer::Head(r) => r,
            _ => Err(AnyError::text("unexpected answer")),
        }
    }

    /// A store task; an answer of another kind is a failure.
    fn task(self) -> (r: Result<StoreImageTask, AnyError>)
        ensures
            match r {
                Ok(t) => self@.task() == Ok::<StoreImageTaskView, AnyErrorView>(t@),
                Err(e) => self@.task() == Err::<StoreImageTaskView, AnyErrorView>(e@),
            },
    {
        match self {
            Answer::Task(r) => r,
            _ => Err(AnyError::text("unexpected answer")),
        }
    }

    /// The key of an object; an answer of another kind is a failure.
    fn key(self) -> (r: Result<String, AnyError>)
        ensures
            match r {
                Ok(k) => self@.key() == Ok::<Seq<char>, AnyErrorView>(k@),
                Err(e) => self@.key() == Err::<Seq<char>, AnyErrorView>(e@),
            },
    {
        match self {
            Answer::Key(r) => r,
            _ => Err(AnyError::text("unexpected answer")),
        }
    }

    /// Whether it was done; an answer of another kind is a failure.
    fn done(self) -> (r: Result<(), AnyError>)
        ensures
            match r {
                Ok(_) => self@.done() == Ok::<(), AnyErrorView>(()),
                Err(e) => self@.done() == Err::<(), AnyErrorView>(e@),
            },
    {
        match self {
            Answer::Done(r) => r,
            _ => Err(AnyError::text("unexpected answer")),
        }
    }
}

/// The bucket that a run archives to.
pub fn target_bucket(cfg: &Config, account: &str) -> (r: String)
    ensures
        r@ == bucket_for(cfg@, account@),
{
    if !cfg.bucket.as_str().is_empty() {
        return cfg.bucket.clone();
    }
    let mut bucket = "ami-archive-".to_owned();
    bucket.append(account);
    bucket.append("-");
    bucket.append(cfg.region.as_str());
    bucket
}

/// Begins a run.
pub fn run(cfg: &Config) -> (r: Run)
    ensures
        r@ == begun(cfg@),
{
    Run {
        cfg: cfg.clone(),
        rollback: RollbackContext::new(cfg.bucket.clone(), String::new(), cfg.dry_run),
        stage: Stage::Identify,
    }
}

impl Run {
    /// The action that the run waits for an answer to.
    pub fn action(&self) -> (r: Action)
        ensures
            r@ == self@.action(),
    {
        let image = self.cfg.ami_id.clone();
        let bucket = self.rollback.bucket.clone();
        let key = self.rollback.object_key.clone();
        match &self.stage {
            Stage::Identify => Action::Identify,
            Stage::CheckBucket => Action::CheckBucket { bucket },
            Stage::AskBucket => {
                let mut prompt = "Create bucket s3://".to_owned();
                prompt.append(bucket.as_str());
                prompt.append(" in region ");
                prompt.append(self.cfg.region.as_str());
                prompt.append("?");
                Action::Ask { prompt }
            },
            Stage::CreateBucket => Action::CreateBucket { bucket },
            Stage::BlockPublicAccess => Action::BlockPublicAccess { bucket },
            Stage::EncryptBucket => Action::EncryptBucket { bucket },
            Stage::TryStore => Action::TryStore { image, bucket },
            Stage::Inspect => Action::Head { bucket, key },
            Stage::FindTask => Action::FindTask { image },
            Stage::StartTask => Action::StartTask { image, bucket },
            Stage::AwaitTask { .. } => Action::AwaitTask {
                image,
                bucket,
                poll_seconds: self.cfg.poll_seconds,
            },
            Stage::Verify => Action::Head { bucket, key },
            Stage::Convert { size } => Action::Convert {
                bucket,
                key,
                storage_class: self.cfg.storage_class.clone(),
                size: *size,
            },
            Stage::ListSnapshots => Action::ListSnapshots { image },
            Stage::TryDeregister => Action::TryDeregister { image },
            Stage::AskCleanup => {
                let mut prompt = "Deregister ".to_owned();
                prompt.append(image.as_str());
                prompt.append(" and delete associated EBS snapshots?");
                Action::Ask { prompt }
            },
            Stage::Deregister => Action::Deregister { image },
            Stage::Undo { undo, error: _ } => match undo {
                Undo::AbortUploads => Action::AbortUploads { bucket, key },
                Undo::InspectObject => Action::Head { bucket, key },
                Undo::DeleteObject => Action::DeleteObject { bucket, key },
                Undo::DeleteBucket => Action::DeleteBucket { bucket },
            },
        }
    }

    /// The run goes on at `stage`.
    fn at(self, stage: Stage) -> (r: Step)
        ensures
            r@ == self@.at(stage@),
    {
        Step::Go(Run { cfg: self.cfg, rollback: self.rollback, stage })
    }

    /// The run, which failed with `error`, is undone further, once `done` was tried.
    fn undo(self, done: Undone, error: AnyError) -> (r: Step)
        ensures
            r@ == self@.undo(done, error@),
    {
        match self.rollback.execute(self.cfg.dry_run, done) {
            Some(undo) => self.at(Stage::Undo { undo, error }),
            None => Step::Finish(Err(error)),
        }
    }

    /// The run fails.
    fn fail(self, error: AnyError) -> (r: Step)
        ensures
            r@ == self@.fail(error@),
    {
        self.undo(Undone::Nothing, error)
    }

    /// The run goes on at `stage` where `r` is a success, and fails otherwise.
    fn then_at(self, result: Result<(), AnyError>, stage: Stage) -> (r: Step)
        ensures
            match result {
                Ok(_) => r@ == self@.then_at(Ok(()), stage@),
                Err(e) => r@ == self@.then_at(Err(e@), stage@),
            },
    {
        match result {
            Ok(_) => self.at(stage),
            Err(e) => self.fail(e),
        }
    }

    /// The archive is ready.
    fn ready(self) -> (r: Step)
        ensures
            r@ == self@.ready(),
    {
        if self.cfg.cleanup {
            self.at(Stage::ListSnapshots)
        } else {
            Step::Finish(Ok(()))
        }
    }

    /// The run archives to the object `key`, which is stored.
    fn stored(self, key: String) -> (r: Step)
        ensures
            r@ == self@.stored(key@),
    {
        let mut run = self;
        run.rollback.set_object_key(key);
        run.at(Stage::Verify)
    }

    /// A store task that writes the object `key` is under way, or was before.
    fn storing(self, key: String) -> (r: Step)
        ensures
            r@ == self@.storing(key@),
    {
        if self.cfg.wait {
            self.at(Stage::AwaitTask { key })
        } else {
            self.stored(key)
        }
    }

    /// What the run does once it knows the account.
    fn run_workflow(self, answer: Answer) -> (r: Step)
        requires
            self@.stage is Identify,
        ensures
            r@ == step_identity(self@, answer@),
    {
        let account = match answer.account() {
            Ok(account) => account,
            Err(e) => {
                return Step::Finish(Err(e));
            },
        };
        let mut run = self;
        if run.cfg.bucket.as_str().is_empty() && !run.cfg.create_bucket && !run.cfg.yes {
            return Step::Finish(
                Err(
                    AnyError::text(
                        "bucket not provided. Re-run with --s3-uri s3://bucket, or allow proposed bucket creation with --create-bucket",
                    ),
                ),
            );
        }
        let bucket = target_bucket(&run.cfg, account.as_str());
        let mut key = run.cfg.ami_id.clone();
        key.append(".bin");
        run.rollback = RollbackContext::new(bucket, key, run.cfg.dry_run);
        if run.cfg.dry_run {
            run.at(Stage::TryStore)
        } else {
            run.at(Stage::CheckBucket)
        }
    }

    /// What the run does next while it prepares the bucket.
    fn ensure_bucket(self, answer: Answer) -> (r: Step)
        ensures
            r@ == step_bucket(self@, answer@),
    {
        match &self.stage {
            Stage::CheckBucket => match answer.flag() {
                Err(e) => self.fail(e),
                Ok(exists) => {
                    if exists {
                        self.at(Stage::BlockPublicAccess)
                    } else if !self.cfg.create_bucket && !self.cfg.yes {
                        let mut m = "bucket s3://".to_owned();
                        m.append(self.rollback.bucket.as_str());
                        m.append(" does not exist; pass --create-bucket or create it first");
                        self.fail(AnyError::Message(m))
                    } else if self.cfg.yes {
                        self.at(Stage::CreateBucket)
                    } else {
                        self.at(Stage::AskBucket)
                    }
                },
            },
            Stage::AskBucket => match answer.flag() {
                Err(e) => self.fail(e),
                Ok(yes) => {
                    if yes {
                        self.at(Stage::CreateBucket)
                    } else {
                        self.fail(AnyError::text("bucket creation declined"))
                    }
                },
            },
            Stage::CreateBucket => match answer.done() {
                Err(e) => self.fail(e),
                Ok(_) => {
                    let mut run = self;
                    run.rollback.created_bucket = true;
                    run.at(Stage::BlockPublicAccess)
                },
            },
            Stage::BlockPublicAccess => self.then_at(answer.done(), Stage::EncryptBucket),
            _ => self.then_at(answer.done(), Stage::Inspect),
        }
    }

    /// What the run does next while the image is stored.
    fn start_or_resume_store_task(self, answer: Answer) -> (r: Step)
        ensures
            r@ == step_task(self@, answer@),
    {
        match &self.stage {
            Stage::FindTask => match answer.task() {
                Err(e) => self.fail(e),
                Ok(task) => {
                    let bucket = self.rollback.bucket.as_str();
                    let here = !task.image_id.as_str().is_empty() && same_but_case(
                        task.bucket.as_str(),
                        bucket,
                    );
                    let completed = same_but_case(task.state.as_str(), "Completed");
                    let in_progress = same_but_case(task.state.as_str(), "InProgress");
                    if here && ((completed && !task.object_key.as_str().is_empty()) || in_progress) {
                        let key = empty_default(
                            task.object_key.as_str(),
                            self.rollback.object_key.as_str(),
                        ).to_owned();
                        self.storing(key)
                    } else {
                        self.at(Stage::StartTask)
                    }
                },
            },
            Stage::StartTask => match answer.key() {
                Err(e) => self.fail(e),
                Ok(key) => {
                    let mut run = self;
                    run.rollback.store_task_started_this_run = true;
                    run.rollback.set_object_key(key.clone());
                    run.storing(key)
                },
            },
            Stage::AwaitTask { key } => match answer.task() {
                Err(e) => self.fail(e),
                Ok(task) => {
                    let key = empty_default(task.object_key.as_str(), key.as_str()).to_owned();
                    self.stored(key)
                },
            },
            _ => self.fail(AnyError::text("unexpected answer")),
        }
    }

    /// What the run does next while it looks at the object.
    fn archive_object(self, answer: Answer) -> (r: Step)
        ensures
            r@ == step_object(self@, answer@),
    {
        match &self.stage {
            Stage::Inspect => match answer.head() {
                Err(e) => self.fail(e),
                Ok(head) => {
                    let mut run = self;
                    run.rollback.object_existed_before = head.exists;
                    if head.exists {
                        run.at(Stage::Verify)
                    } else {
                        run.at(Stage::FindTask)
                    }
                },
            },
            Stage::Verify => match answer.head() {
                Err(e) => self.fail(e),
                Ok(head) => {
                    if !head.exists {
                        let mut m =
                            "expected object not found after completed store task: s3://".to_owned();
                        m.append(self.rollback.bucket.as_str());
                        m.append("/");
                        m.append(self.rollback.object_key.as_str());
                        return self.fail(AnyError::Message(m));
                    }
                    let mut run = self;
                    run.rollback.mark_archive_ready();
                    let class = empty_default(head.storage_class.as_str(), "STANDARD");
                    if same(class, run.cfg.storage_class.as_str()) {
                        run.ready()
                    } else {
                        run.rollback.conversion_attempted = true;
                        run.at(Stage::Convert { size: head.content_length })
                    }
                },
            },
            _ => match answer.done() {
                Err(e) => self.fail(e),
                Ok(_) => {
                    let mut run = self;
                    run.rollback.storage_class_changed = true;
                    run.ready()
                },
            },
        }
    }

    /// What the run does next while it cleans up.
    fn maybe_cleanup(self, answer: Answer) -> (r: Step)
        ensures
            r@ == step_cleanup(self@, answer@),
    {
        match &self.stage {
            Stage::ListSnapshots => {
                if self.cfg.dry_run {
                    self.at(Stage::TryDeregister)
                } else if self.cfg.yes {
                    self.at(Stage::Deregister)
                } else {
                    self.at(Stage::AskCleanup)
                }
            },
            Stage::AskCleanup => match answer.flag() {
                Err(e) => self.fail(e),
                Ok(yes) => {
                    if yes {
                        self.at(Stage::Deregister)
                    } else {
                        Step::Finish(Ok(()))
                    }
                },
            },
            _ => match answer.done() {
                Err(e) => self.fail(e),
                Ok(_) => Step::Finish(Ok(())),
            },
        }
    }

    /// What the run does next, once its action was answered.
    pub fn next(self, answer: Answer) -> (r: Step)
        ensures
            r@ == step(self@, answer@),
    {
        match &self.stage {
            Stage::Identify => self.run_workflow(answer),
            Stage::CheckBucket => self.ensure_bucket(answer),
            Stage::AskBucket => self.ensure_bucket(answer),
            Stage::CreateBucket => self.ensure_bucket(answer),
            Stage::BlockPublicAccess => self.ensure_bucket(answer),
            Stage::EncryptBucket => self.ensure_bucket(answer),
            Stage::TryStore => match answer.done() {
                Err(e) => self.fail(e),
                Ok(_) => self.ready(),
            },
            Stage::Inspect => self.archive_object(answer),
            Stage::FindTask => self.start_or_resume_store_task(answer),
            Stage::StartTask => self.start_or_resume_store_task(answer),
            Stage::AwaitTask { .. } => self.start_or_resume_store_task(answer),
            Stage::Verify => self.archive_object(answer),
            Stage::Convert { .. } => self.archive_object(answer),
            Stage::ListSnapshots => self.maybe_cleanup(answer),
            Stage::TryDeregister => self.maybe_cleanup(answer),
            Stage::AskCleanup => self.maybe_cleanup(answer),
            Stage::Deregister => self.maybe_cleanup(answer),
            Stage::Undo { .. } => self.undo_further(answer),
        }
    }

    /// What the run does next while it is undone.
    fn undo_further(self, answer: Answer) -> (r: Step)
        requires
            self@.stage is Undo,
        ensures
            r@ == step(self@, answer@),
    {
        let Run { cfg, rollback, stage } = self;
        match stage {
            Stage::Undo { undo, error } => {
                let done = match undo {
                    Undo::AbortUploads => Undone::Uploads,
                    Undo::InspectObject => Undone::Inspection(
                        match answer.head() {
                            Ok(head) => head.exists,
                            Err(_) => false,
                        },
                    ),
                    Undo::DeleteObject => Undone::Object,
                    Undo::DeleteBucket => Undone::Bucket,
                };
                Run { cfg, rollback, stage: Stage::Identify }.undo(done, error)
            },
            _ => Step::Finish(Ok(())),
        }
    }
}

/// How a run that fails with `error` goes on: it is undone, but for a dry run, from the latest of
/// its changes on. A change of the storage class that did not come to its end is given up, an
/// object that the run began and never saw complete is looked for, and a bucket that it made is
/// deleted; where there is nothing to undo, the run is over with the failure.
pub open spec fn breaks_off(run: RunView, error: AnyErrorView, next: StepView) -> bool {
    let r = run.rollback;
    let first = if r.conversion_attempted && !r.storage_class_changed {
        Some(Undo::AbortUploads)
    } else if r.store_task_started_this_run && !r.object_existed_before && !r.archive_object_ready {
        Some(Undo::InspectObject)
    } else if r.created_bucket {
        Some(Undo::DeleteBucket)
    } else {
        None
    };
    if r.dry_run || run.cfg.dry_run || first is None {
        next == StepView::Finish(Err(error))
    } else {
        next == StepView::Go(RunView { stage: StageView::Undo { undo: first->0, error }, ..run })
    }
}

/// The run goes on at `stage`, with these changes made.
pub open spec fn goes_on(
    run: RunView,
    rollback: RollbackView,
    stage: StageView,
    next: StepView,
) -> bool {
    next == StepView::Go(RunView { cfg: run.cfg, rollback, stage })
}

/// The archive of the run is ready, with these changes made: the run is over, but where cleanup is
/// asked for it goes on to list the snapshots.
pub open spec fn is_archived(run: RunView, rollback: RollbackView, next: StepView) -> bool {
    if run.cfg.cleanup {
        goes_on(run, rollback, StageView::ListSnapshots, next)
    } else {
        next == StepView::Finish(Ok(()))
    }
}

/// A run begins with the question whose credentials are used, before it has changed anything.
pub proof fn law_runs_begin_with_the_account(c: ConfigView)
    ensures
        begun(c).cfg == c,
        begun(c).stage is Identify,
        begun(c).action() is Identify,
        ({
            let r = begun(c).rollback;
            &&& r.bucket == c.bucket
            &&& r.dry_run == c.dry_run
            &&& !r.created_bucket && !r.object_existed_before && !r.store_task_started_this_run
            &&& !r.archive_object_ready && !r.conversion_attempted && !r.storage_class_changed
        }),
{
}

/// Once the account is known, the run archives to the bucket it was given, or to one named after
/// the account and the region, into an object named after the image. It is over at once where no
/// bucket was given and neither `--create-bucket` nor `--yes`; a dry run only sees whether the
/// image may be stored, and any other run looks for the bucket.
pub proof fn law_account_decides_the_bucket(run: RunView, account: Seq<char>, e: AnyErrorView)
    requires
        run.stage is Identify,
    ensures
        step(run, AnswerView::Account(Err(e))) == StepView::Finish(Err(e)),
        ({
            let next = step(run, AnswerView::Account(Ok(account)));
            let c = run.cfg;
            if c.bucket.len() == 0 && !c.create_bucket && !c.yes {
                next == StepView::Finish(
                    Err(
                        AnyErrorView::Message(
                            "bucket not provided. Re-run with --s3-uri s3://bucket, or allow proposed bucket creation with --create-bucket"@,
                        ),
                    ),
                )
            } else {
                next matches StepView::Go(run1) && {
                    &&& run1.cfg == c
                    &&& c.bucket.len() > 0 ==> run1.rollback.bucket == c.bucket
                    &&& c.bucket.len() == 0 ==> run1.rollback.bucket == "ami-archive-"@ + account
                        + "-"@ + c.region
                    &&& run1.rollback.object_key == c.ami_id + ".bin"@
                    &&& run1.rollback.dry_run == c.dry_run
                    &&& !run1.rollback.created_bucket
                    &&& !run1.rollback.object_existed_before
                    &&& !run1.rollback.store_task_started_this_run
                    &&& !run1.rollback.archive_object_ready
                    &&& !run1.rollback.conversion_attempted
                    &&& !run1.rollback.storage_class_changed
                    &&& c.dry_run ==> run1.stage is TryStore
                    &&& !c.dry_run ==> run1.stage is CheckBucket
                }
            }
        }),
{
}

/// A bucket that is missing is made without a question where `--yes` was given, with or without
/// `--create-bucket`; with `--create-bucket` alone the user is asked first; and the run fails for
/// want of permission exactly where neither was given. A bucket that is there is used.
pub proof fn law_missing_bucket_is_made_where_it_may_be(run: RunView, e: AnyErrorView)
    requires
        run.stage is CheckBucket,
    ensures
        ({
            let missing = step(run, AnswerView::Flag(Ok(false)));
            &&& run.cfg.yes ==> goes_on(run, run.rollback, StageView::CreateBucket, missing)
            &&& !run.cfg.yes && run.cfg.create_bucket ==> goes_on(
                run,
                run.rollback,
                StageView::AskBucket,
                missing,
            )
            &&& !run.cfg.yes && !run.cfg.create_bucket ==> breaks_off(
                run,
                AnyErrorView::Message(
                    "bucket s3://"@ + run.rollback.bucket
                        + " does not exist; pass --create-bucket or create it first"@,
                ),
                missing,
            )
        }),
        goes_on(
            run,
            run.rollback,
            StageView::BlockPublicAccess,
            step(run, AnswerView::Flag(Ok(true))),
        ),
        breaks_off(run, e, step(run, AnswerView::Flag(Err(e)))),
{
    lemma_breaks_off(run, e);
    lemma_breaks_off(
        run,
        AnyErrorView::Message(
            "bucket s3://"@ + run.rollback.bucket
                + " does not exist; pass --create-bucket or create it first"@,
        ),
    );
}

/// A run that fails breaks off.
proof fn lemma_breaks_off(run: RunView, error: AnyErrorView)
    ensures
        breaks_off(run, error, run.fail(error)),
{
}

/// A bucket is made where the user wants it, and it is noted that the run made it. Then public
/// access is blocked and the bucket is encrypted, before the object is looked for. Whatever fails
/// breaks the run off.
pub proof fn law_bucket_is_prepared(run: RunView, e: AnyErrorView)
    ensures
        run.stage is AskBucket ==> {
            &&& goes_on(
                run,
                run.rollback,
                StageView::CreateBucket,
                step(run, AnswerView::Flag(Ok(true))),
            )
            &&& breaks_off(
                run,
                AnyErrorView::Message("bucket creation declined"@),
                step(run, AnswerView::Flag(Ok(false))),
            )
            &&& breaks_off(run, e, step(run, AnswerView::Flag(Err(e))))
        },
        run.stage is CreateBucket ==> {
            &&& goes_on(
                run,
                (RollbackView { created_bucket: true, ..run.rollback }),
                StageView::BlockPublicAccess,
                step(run, AnswerView::Done(Ok(()))),
            )
            &&& breaks_off(run, e, step(run, AnswerView::Done(Err(e))))
        },
        run.stage is BlockPublicAccess ==> {
            &&& goes_on(
                run,
                run.rollback,
                StageView::EncryptBucket,
                step(run, AnswerView::Done(Ok(()))),
            )
            &&& breaks_off(run, e, step(run, AnswerView::Done(Err(e))))
        },
        run.stage is EncryptBucket ==> {
            &&& goes_on(
                run,
                run.rollback,
                StageView::Inspect,
                step(run, AnswerView::Done(Ok(()))),
            )
            &&& breaks_off(run, e, step(run, AnswerView::Done(Err(e))))
        },
{
    lemma_breaks_off(run, e);
    lemma_breaks_off(run, AnyErrorView::Message("bucket creation declined"@));
}

/// An object that is there already is taken as it is; where it is missing, the store tasks of the
/// image are looked at. It is noted which of the two it was.
pub proof fn law_object_is_looked_for(run: RunView, head: ObjectHeadView, e: AnyErrorView)
    requires
        run.stage is Inspect,
    ensures
        goes_on(
            run,
            (RollbackView { object_existed_before: head.exists, ..run.rollback }),
            if head.exists {
                StageView::Verify
            } else {
                StageView::FindTask
            },
            step(run, AnswerView::Head(Ok(head))),
        ),
        breaks_off(run, e, step(run, AnswerView::Head(Err(e)))),
{
    lemma_breaks_off(run, e);
}

/// A store task of the image that writes to the bucket is taken up where it is completed and names
/// its object, or where it is in progress, whatever the case its bucket and state are written in;
/// otherwise a new one is started. A task is waited for where the run is to wait.
pub proof fn law_store_task_is_taken_up(run: RunView, task: StoreImageTaskView, e: AnyErrorView)
    requires
        run.stage is FindTask,
    ensures
        ({
            let next = step(run, AnswerView::Task(Ok(task)));
            let here = task.image_id.len() > 0 && lowered(task.bucket) == lowered(
                run.rollback.bucket,
            );
            let completed = lowered(task.state) == "completed"@;
            let in_progress = lowered(task.state) == "inprogress"@;
            let key = if task.object_key.len() > 0 {
                task.object_key
            } else {
                run.rollback.object_key
            };
            if here && ((completed && task.object_key.len() > 0) || in_progress) {
                if run.cfg.wait {
                    goes_on(run, run.rollback, StageView::AwaitTask { key }, next)
                } else {
                    goes_on(
                        run,
                        RollbackView { object_key: key, ..run.rollback },
                        StageView::Verify,
                        next,
                    )
                }
            } else {
                goes_on(run, run.rollback, StageView::StartTask, next)
            }
        }),
        breaks_off(run, e, step(run, AnswerView::Task(Err(e)))),
{
    lemma_breaks_off(run, e);
    reveal_strlit("Completed");
    reveal_strlit("completed");
    reveal_strlit("InProgress");
    reveal_strlit("inprogress");
    assert(lowered("Completed"@) == "completed"@);
    assert(lowered("InProgress"@) == "inprogress"@);
}

/// A store task that was started is noted, with the object it writes, and waited for where the run
/// is to wait. A task that was waited for has the last word on which object it wrote.
pub proof fn law_store_task_is_waited_for(
    run: RunView,
    key: Seq<char>,
    task: StoreImageTaskView,
    e: AnyErrorView,
)
    ensures
        run.stage is StartTask ==> {
            let started = RollbackView {
                object_key: key,
                store_task_started_this_run: true,
                ..run.rollback
            };
            &&& goes_on(
                run,
                started,
                if run.cfg.wait {
                    StageView::AwaitTask { key }
                } else {
                    StageView::Verify
                },
                step(run, AnswerView::Key(Ok(key))),
            )
            &&& breaks_off(run, e, step(run, AnswerView::Key(Err(e))))
        },
        run.stage matches StageView::AwaitTask { key: known } ==> {
            &&& goes_on(
                run,
                (RollbackView {
                    object_key: if task.object_key.len() > 0 {
                        task.object_key
                    } else {
                        known
                    },
                    ..run.rollback
                }),
                StageView::Verify,
                step(run, AnswerView::Task(Ok(task))),
            )
            &&& breaks_off(run, e, step(run, AnswerView::Task(Err(e))))
        },
{
    lemma_breaks_off(run, e);
}

/// The archive is ready once its object is seen. An object in another storage class than the one
/// asked for is converted, and one that tells of none is in the class `STANDARD`; an object that
/// is not there breaks the run off.
pub proof fn law_object_is_converted_where_it_must_be(
    run: RunView,
    head: ObjectHeadView,
    e: AnyErrorView,
)
    requires
        run.stage is Verify,
    ensures
        ({
            let next = step(run, AnswerView::Head(Ok(head)));
            let class = if head.storage_class.len() > 0 {
                head.storage_class
            } else {
                "STANDARD"@
            };
            if !head.exists {
                breaks_off(
                    run,
                    AnyErrorView::Message(
                        "expected object not found after completed store task: s3://"@
                            + run.rollback.bucket + "/"@ + run.rollback.object_key,
                    ),
                    next,
                )
            } else if class == run.cfg.storage_class {
                is_archived(run, RollbackView { archive_object_ready: true, ..run.rollback }, next)
            } else {
                goes_on(
                    run,
                    RollbackView {
                        archive_object_ready: true,
                        conversion_attempted: true,
                        ..run.rollback
                    },
                    StageView::Convert { size: head.content_length },
                    next,
                )
            }
        }),
        breaks_off(run, e, step(run, AnswerView::Head(Err(e)))),
{
    lemma_breaks_off(run, e);
    lemma_breaks_off(
        run,
        AnyErrorView::Message(
            "expected object not found after completed store task: s3://"@ + run.rollback.bucket
                + "/"@ + run.rollback.object_key,
        ),
    );
}

/// A conversion that succeeds is noted, and the archive is ready; a dry run is ready once it is
/// known that the image may be stored. What fails breaks the run off.
pub proof fn law_archive_is_ready(run: RunView, e: AnyErrorView)
    ensures
        run.stage is Convert ==> {
            &&& is_archived(
                run,
                (RollbackView { storage_class_changed: true, ..run.rollback }),
                step(run, AnswerView::Done(Ok(()))),
            )
            &&& breaks_off(run, e, step(run, AnswerView::Done(Err(e))))
        },
        run.stage is TryStore ==> {
            &&& is_archived(run, run.rollback, step(run, AnswerView::Done(Ok(()))))
            &&& breaks_off(run, e, step(run, AnswerView::Done(Err(e))))
        },
{
    lemma_breaks_off(run, e);
}

/// The snapshots are listed for information only. A dry run then sees whether the image may be
/// deregistered; another run deregisters it, without a question where `--yes` was given. An image
/// that the user wants to keep stays, and the run succeeds.
pub proof fn law_cleanup_needs_consent(run: RunView, answer: AnswerView, e: AnyErrorView)
    ensures
        run.stage is ListSnapshots ==> goes_on(
            run,
            run.rollback,
            if run.cfg.dry_run {
                StageView::TryDeregister
            } else if run.cfg.yes {
                StageView::Deregister
            } else {
                StageView::AskCleanup
            },
            step(run, answer),
        ),
        run.stage is AskCleanup ==> {
            &&& goes_on(
                run,
                run.rollback,
                StageView::Deregister,
                step(run, AnswerView::Flag(Ok(true))),
            )
            &&& step(run, AnswerView::Flag(Ok(false))) == StepView::Finish(Ok(()))
            &&& breaks_off(run, e, step(run, AnswerView::Flag(Err(e))))
        },
        run.stage is TryDeregister || run.stage is Deregister ==> {
            &&& step(run, AnswerView::Done(Ok(()))) == StepView::Finish(Ok(()))
            &&& breaks_off(run, e, step(run, AnswerView::Done(Err(e))))
        },
{
    lemma_breaks_off(run, e);
}

/// A failed run is undone step by step, whatever comes of each step, and then is over with the
/// failure it broke off with. The object is deleted only where it is seen; the bucket comes last.
pub proof fn law_undoing_goes_to_its_end(run: RunView, answer: AnswerView, head: ObjectHeadView)
    requires
        run.stage is Undo,
        !run.cfg.dry_run,
        !run.rollback.dry_run,
    ensures
        ({
            let error = run.stage->error;
            let r = run.rollback;
            let over = StepView::Finish(Err(error));
            let object = StepView::Go(
                RunView { stage: StageView::Undo { undo: Undo::DeleteObject, error }, ..run },
            );
            let look = StepView::Go(
                RunView { stage: StageView::Undo { undo: Undo::InspectObject, error }, ..run },
            );
            let last = if r.created_bucket {
                StepView::Go(
                    RunView { stage: StageView::Undo { undo: Undo::DeleteBucket, error }, ..run },
                )
            } else {
                over
            };
            let begun_here = r.store_task_started_this_run && !r.object_existed_before
                && !r.archive_object_ready;
            match run.stage->undo {
                Undo::AbortUploads => step(run, answer) == if begun_here {
                    look
                } else {
                    last
                },
                Undo::InspectObject => {
                    &&& step(run, AnswerView::Head(Ok(head))) == if head.exists {
                        object
                    } else {
                        last
                    }
                    &&& !(answer matches AnswerView::Head(Ok(h)) && h.exists) ==> step(run, answer)
                        == last
                },
                Undo::DeleteObject => step(run, answer) == last,
                Undo::DeleteBucket => step(run, answer) == over,
            }
        }),
{
}

/// What a run asks for at each stage: it names the image, the bucket and the object of the run.
pub proof fn law_actions_name_what_they_are_about(run: RunView)
    ensures
        ({
            let image = run.cfg.ami_id;
            let bucket = run.rollback.bucket;
            let key = run.rollback.object_key;
            let action = run.action();
            match run.stage {
                StageView::Identify => action is Identify,
                StageView::CheckBucket => action == (ActionView::CheckBucket { bucket }),
                StageView::AskBucket => action == (ActionView::Ask {
                    prompt: "Create bucket s3://"@ + bucket + " in region "@ + run.cfg.region
                        + "?"@,
                }),
                StageView::CreateBucket => action == (ActionView::CreateBucket { bucket }),
                StageView::BlockPublicAccess => action == (ActionView::BlockPublicAccess {
                    bucket,
                }),
                StageView::EncryptBucket => action == (ActionView::EncryptBucket { bucket }),
                StageView::TryStore => action == (ActionView::TryStore { image, bucket }),
                StageView::Inspect | StageView::Verify => action == (ActionView::Head {
                    bucket,
                    key,
                }),
                StageView::FindTask => action == (ActionView::FindTask { image }),
                StageView::StartTask => action == (ActionView::StartTask { image, bucket }),
                StageView::AwaitTask { .. } => action == (ActionView::AwaitTask {
                    image,
                    bucket,
                    poll_seconds: run.cfg.poll_seconds,
                }),
                StageView::Convert { size } => action == (ActionView::Convert {
                    bucket,
                    key,
                    storage_class: run.cfg.storage_class,
                    size,
                }),
                StageView::ListSnapshots => action == (ActionView::ListSnapshots { image }),
                StageView::TryDeregister => action == (ActionView::TryDeregister { image }),
                StageView::AskCleanup => action == (ActionView::Ask {
                    prompt: "Deregister "@ + image + " and delete associated EBS snapshots?"@,
                }),
                StageView::Deregister => action == (ActionView::Deregister { image }),
                StageView::Undo { undo, error } => match undo {
                    Undo::AbortUploads => action == (ActionView::AbortUploads { bucket, key }),
                    Undo::InspectObject => action == (ActionView::Head { bucket, key }),
                    Undo::DeleteObject => action == (ActionView::DeleteObject { bucket, key }),
                    Undo::DeleteBucket => action == (ActionView::DeleteBucket { bucket }),
                },
            }
        }),
{
}

/// An answer that does not belong to the action is a failure.
pub proof fn law_other_answers_are_failures(run: RunView, answer: AnswerView)
    ensures
        ({
            let next = step(run, answer);
            let error = AnyErrorView::Message("unexpected answer"@);
            match run.stage {
                StageView::Identify => !(answer is Account) ==> next == StepView::Finish(
                    Err(error),
                ),
                StageView::CheckBucket
                | StageView::AskBucket
                | StageView::AskCleanup => !(answer is Flag) ==> breaks_off(run, error, next),
                StageView::Inspect | StageView::Verify => !(answer is Head) ==> breaks_off(
                    run,
                    error,
                    next,
                ),
                StageView::FindTask | StageView::AwaitTask { .. } => !(answer is Task)
                    ==> breaks_off(run, error, next),
                StageView::StartTask => !(answer is Key) ==> breaks_off(run, error, next),
                StageView::ListSnapshots | StageView::Undo { .. } => true,
                _ => !(answer is Done) ==> breaks_off(run, error, next),
            }
        }),
{
    lemma_breaks_off(run, AnyErrorView::Message("unexpected answer"@));
}

}
