//! What a failed run undoes.
use ami_s3_archive::rollback::{RollbackContext, Undo, Undone};

#[test]
fn deletes_incomplete_object_only_when_store_started_and_not_ready() {
    let ctx = RollbackContext {
        bucket: "b".into(),
        object_key: "ami-1.bin".into(),
        dry_run: false,
        created_bucket: false,
        object_existed_before: false,
        store_task_started_this_run: true,
        archive_object_ready: false,
        conversion_attempted: false,
        storage_class_changed: false,
    };
    assert!(ctx.should_delete_incomplete_object());

    let mut ready = ctx.clone();
    ready.archive_object_ready = true;
    assert!(!ready.should_delete_incomplete_object());

    let mut existed = ctx.clone();
    existed.object_existed_before = true;
    assert!(!existed.should_delete_incomplete_object());
}

#[test]
fn aborts_multipart_only_when_conversion_failed() {
    let ctx = RollbackContext {
        bucket: "b".into(),
        object_key: "k".into(),
        dry_run: false,
        created_bucket: false,
        object_existed_before: true,
        store_task_started_this_run: false,
        archive_object_ready: true,
        conversion_attempted: true,
        storage_class_changed: false,
    };
    assert!(ctx.should_abort_multipart_uploads());

    let mut done = ctx.clone();
    done.storage_class_changed = true;
    assert!(!done.should_abort_multipart_uploads());
}

#[test]
fn rollback_goes_from_uploads_to_bucket() {
    let mut ctx = RollbackContext::new("b".to_string(), "k".to_string(), false);
    assert_eq!(ctx.execute(false, Undone::Nothing), None);
    ctx.created_bucket = true;
    ctx.store_task_started_this_run = true;
    ctx.conversion_attempted = true;
    assert_eq!(ctx.execute(false, Undone::Nothing), Some(Undo::AbortUploads));
    assert_eq!(ctx.execute(false, Undone::Uploads), Some(Undo::InspectObject));
    assert_eq!(ctx.execute(false, Undone::Inspection(true)), Some(Undo::DeleteObject));
    assert_eq!(ctx.execute(false, Undone::Inspection(false)), Some(Undo::DeleteBucket));
    assert_eq!(ctx.execute(false, Undone::Object), Some(Undo::DeleteBucket));
    assert_eq!(ctx.execute(false, Undone::Bucket), None);
    assert_eq!(ctx.execute(true, Undone::Nothing), None);
    ctx.mark_archive_ready();
    assert_eq!(ctx.execute(false, Undone::Uploads), Some(Undo::DeleteBucket));
    ctx.set_object_key("z".to_string());
    assert_eq!(ctx.object_key, "z");
    ctx.dry_run = true;
    assert_eq!(ctx.execute(false, Undone::Nothing), None);
    assert!(ctx.should_delete_created_bucket());
}
