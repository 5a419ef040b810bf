//! What a run has changed so far, and how a failed run is undone.
use vstd::prelude::*;
use vstd::string::*;

verus! {

/// What a run has changed so far.
#[derive(Debug)]
pub struct RollbackContext {
    pub bucket: String,
    pub object_key: String,
    pub dry_run: bool,
    pub created_bucket: bool,
    pub object_existed_before: bool,
    pub store_task_started_this_run: bool,
    pub archive_object_ready: bool,
    pub conversion_attempted: bool,
    pub storage_class_changed: bool,
}

/// [`RollbackContext`] with the texts of its fields.
pub struct RollbackView {
    pub bucket: Seq<char>,
    pub object_key: Seq<char>,
    pub dry_run: bool,
    pub created_bucket: bool,
    pub object_existed_before: bool,
    pub store_task_started_this_run: bool,
    pub archive_object_ready: bool,
    pub conversion_attempted: bool,
    pub storage_class_changed: bool,
}

impl View for RollbackContext {
    type V = RollbackView;

    open spec fn view(&self) -> RollbackView {
        RollbackView {
            bucket: self.bucket@,
            object_key: self.object_key@,
            dry_run: self.dry_run,
            created_bucket: self.created_bucket,
            object_existed_before: self.object_existed_before,
            store_task_started_this_run: self.store_task_started_this_run,
            archive_object_ready: self.archive_object_ready,
            conversion_attempted: self.conversion_attempted,
            storage_class_changed: self.storage_class_changed,
        }
    }
}

impl Clone for RollbackContext {
    fn clone(&self) -> (r: Self)
        ensures
            r == *self,
    {
        RollbackContext {
            bucket: self.bucket.clone(),
            object_key: self.object_key.clone(),
            dry_run: self.dry_run,
            created_bucket: self.created_bucket,
            object_existed_before: self.object_existed_before,
            store_task_started_this_run: self.store_task_started_this_run,
            archive_object_ready: self.archive_object_ready,
            conversion_attempted: self.conversion_attempted,
            storage_class_changed: self.storage_class_changed,
        }
    }
}

/// A run that has changed nothing yet.
pub open spec fn nothing_changed(
    bucket: Seq<char>,
    object_key: Seq<char>,
    dry_run: bool,
) -> RollbackView {
    RollbackView {
        bucket,
        object_key,
        dry_run,
        created_bucket: false,
        object_existed_before: false,
        store_task_started_this_run: false,
        archive_object_ready: false,
        conversion_attempted: false,
        storage_class_changed: false,
    }
}

impl RollbackView {
    /// The object was begun by this run and never seen complete.
    pub open spec fn deletes_object(self) -> bool {
        self.store_task_started_this_run && !self.object_existed_before
            && !self.archive_object_ready
    }

    /// A change of the storage class was begun and did not come to its end.
    pub open spec fn aborts_uploads(self) -> bool {
        self.conversion_attempted && !self.storage_class_changed
    }

    /// The bucket was made by this run.
    pub open spec fn deletes_bucket(self) -> bool {
        self.created_bucket
    }
}

/// One thing that undoes a part of a run.
#[derive(Debug, Clone, Copy, PartialEq, Eq, Structural)]
pub enum Undo {
    /// Give up the unfinished uploads of the object.
    AbortUploads,
    /// See whether the object is there.
    InspectObject,
    /// Delete the object.
    DeleteObject,
    /// Delete the bucket, which succeeds only where it is empty.
    DeleteBucket,
}

/// The last thing that was tried to undo a run. Whether it succeeded does not matter.
#[derive(Debug, Clone, Copy, PartialEq, Eq, Structural)]
pub enum Undone {
    /// Nothing was tried yet.
    Nothing,
    /// Giving up the uploads.
    Uploads,
    /// Seeing whether the object is there, and whether it was seen there.
    Inspection(bool),
    /// Deleting the object.
    Object,
    /// Deleting the bucket.
    Bucket,
}

impl RollbackView {
    /// What is tried once the object has been dealt with.
    pub open spec fn undo_bucket(self) -> Option<Undo> {
        if self.deletes_bucket() {
            Some(Undo::DeleteBucket)
        } else {
            None
        }
    }

    /// What is tried once the uploads have been dealt with.
    pub open spec fn undo_object(self) -> Option<Undo> {
        if self.deletes_object() {
            Some(Undo::InspectObject)
        } else {
            self.undo_bucket()
        }
    }

    /// What is tried next to undo the run; a trial run is not undone.
    pub open spec fn undo_after(self, trial: bool, done: Undone) -> Option<Undo> {
        if self.dry_run || trial {
            None
        } else {
            match done {
                Undone::Nothing => if self.aborts_uploads() {
                    Some(Undo::AbortUploads)
                } else {
                    self.undo_object()
                },
                Undone::Uploads => self.undo_object(),
                Undone::Inspection(true) => Some(Undo::DeleteObject),
                Undone::Inspection(false) => self.undo_bucket(),
                Undone::Object => self.undo_bucket(),
                Undone::Bucket => None,
            }
        }
    }
}

impl RollbackContext {
    /// A run that has changed nothing yet.
    pub fn new(bucket: String, object_key: String, dry_run: bool) -> (r: Self)
        ensures
            r@ == nothing_changed(bucket@, object_key@, dry_run),
    {
        RollbackContext {
            bucket,
            object_key,
            dry_run,
            created_bucket: false,
            object_existed_before: false,
            store_task_started_this_run: false,
            archive_object_ready: false,
            conversion_attempted: false,
            storage_class_changed: false,
        }
    }

    /// The run archives to another key.
    pub fn set_object_key(&mut self, object_key: String)
        ensures
            final(self)@ == (RollbackView { object_key: object_key@, ..old(self)@ }),
    {
        self.object_key = object_key;
    }

    /// The archive was seen complete.
    pub fn mark_archive_ready(&mut self)
        ensures
            final(self)@ == (RollbackView { archive_object_ready: true, ..old(self)@ }),
    {
        self.archive_object_ready = true;
    }

    /// Whether the object was begun by this run and never seen complete.
    pub fn should_delete_incomplete_object(&self) -> (r: bool)
        ensures
            r == self@.deletes_object(),
    {
        self.store_task_started_this_run && !self.object_existed_before
            && !self.archive_object_ready
    }

    /// Whether a change of the storage class was begun and did not come to its end.
    pub fn should_abort_multipart_uploads(&self) -> (r: bool)
        ensures
            r == self@.aborts_uploads(),
    {
        self.conversion_attempted && !self.storage_class_changed
    }

    /// Whether the bucket was made by this run.
    pub fn should_delete_created_bucket(&self) -> (r: bool)
        ensures
            r == self@.deletes_bucket(),
    {
        self.created_bucket
    }

    /// What to try next to undo the run, after `done` was tried; `trial` is set where the run was
    /// asked for as a trial.
    pub fn execute(&self, trial: bool, done: Undone) -> (r: Option<Undo>)
        ensures
            r == self@.undo_after(trial, done),
    {
        if self.dry_run || trial {
            return None;
        }
        let (uploads, object) = match done {
            Undone::Nothing => (true, true),
            Undone::Uploads => (false, true),
            Undone::Inspection(there) => {
                if there {
                    return Some(Undo::DeleteObject);
                }
                (false, false)
            },
            Undone::Object => (false, false),
            Undone::Bucket => {
                return None;
            },
        };
        if uploads && self.should_abort_multipart_uploads() {
            Some(Undo::AbortUploads)
        } else if object && self.should_delete_incomplete_object() {
            Some(Undo::InspectObject)
        } else if self.should_delete_created_bucket() {
            Some(Undo::DeleteBucket)
        } else {
            None
        }
    }
}

/// What was tried, once `undo` was; `there` tells whether the object was seen.
pub open spec fn tried(undo: Undo, there: bool) -> Undone {
    match undo {
        Undo::AbortUploads => Undone::Uploads,
        Undo::InspectObject => Undone::Inspection(there),
        Undo::DeleteObject => Undone::Object,
        Undo::DeleteBucket => Undone::Bucket,
    }
}

/// Everything that is tried to undo a run, in order, after `done` was tried; `there` tells whether
/// the object is seen when it is looked for.
pub open spec fn undone_by(r: RollbackView, trial: bool, done: Undone, there: bool) -> Seq<Undo>
    decreases
            (match done {
                Undone::Nothing => 4nat,
                Undone::Uploads => 3nat,
                Undone::Inspection(_) => 2nat,
                Undone::Object => 1nat,
                Undone::Bucket => 0nat,
            }),
{
    match r.undo_after(trial, done) {
        Some(undo) => seq![undo] + undone_by(r, trial, tried(undo, there), there),
        None => Seq::empty(),
    }
}

/// How a failed run is undone: unfinished uploads are given up exactly where a change of the
/// storage class did not come to its end; the object is looked for exactly where this run began it
/// and it was never seen complete, and deleted exactly where it is then found; the bucket is
/// deleted exactly where this run made it. A trial run is not undone at all, and a complete archive
/// is never deleted.
pub proof fn law_rollback(r: RollbackView, trial: bool, there: bool)
    ensures
        ({
            let all = undone_by(r, trial, Undone::Nothing, there);
            let earnest = !r.dry_run && !trial;
            &&& all.contains(Undo::AbortUploads) <==> earnest && r.conversion_attempted
                && !r.storage_class_changed
            &&& all.contains(Undo::InspectObject) <==> earnest && r.store_task_started_this_run
                && !r.object_existed_before && !r.archive_object_ready
            &&& all.contains(Undo::DeleteObject) <==> all.contains(Undo::InspectObject) && there
            &&& all.contains(Undo::DeleteBucket) <==> earnest && r.created_bucket
            &&& r.archive_object_ready ==> !all.contains(Undo::DeleteObject)
            &&& !earnest ==> all.len() == 0
            &&& all.no_duplicates()
        }),
{
    let earnest = !r.dry_run && !trial;
    let all = undone_by(r, trial, Undone::Nothing, there);
    reveal_with_fuel(undone_by, 6);
    let a = if earnest && r.aborts_uploads() {
        seq![Undo::AbortUploads]
    } else {
        Seq::empty()
    };
    let b = if earnest && r.deletes_object() {
        if there {
            seq![Undo::InspectObject, Undo::DeleteObject]
        } else {
            seq![Undo::InspectObject]
        }
    } else {
        Seq::empty()
    };
    let c = if earnest && r.deletes_bucket() {
        seq![Undo::DeleteBucket]
    } else {
        Seq::empty()
    };
    assert(all =~= a + b + c);
    assert(a.len() > 0 ==> all[0] == Undo::AbortUploads);
    assert(b.len() > 0 ==> all[a.len() as int] == Undo::InspectObject);
    assert(b.len() > 1 ==> all[a.len() as int + 1] == Undo::DeleteObject);
    assert(c.len() > 0 ==> all[(a.len() + b.len()) as int] == Undo::DeleteBucket);
}

}
