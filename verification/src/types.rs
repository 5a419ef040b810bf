//! The values that the archive workflow passes around.
use vstd::prelude::*;

verus! {

/// What a request is signed with, and where it was found.
#[derive(Debug)]
pub struct Credentials {
    pub access_key_id: String,
    pub secret_access_key: String,
    pub session_token: String,
    pub source: String,
}

/// The texts of [`Credentials`].
pub struct CredentialsView {
    pub access_key_id: Seq<char>,
    pub secret_access_key: Seq<char>,
    pub session_token: Seq<char>,
    pub source: Seq<char>,
}

impl View for Credentials {
    type V = CredentialsView;

    open spec fn view(&self) -> CredentialsView {
        CredentialsView {
            access_key_id: self.access_key_id@,
            secret_access_key: self.secret_access_key@,
            session_token: self.session_token@,
            source: self.source@,
        }
    }
}

impl Clone for Credentials {
    fn clone(&self) -> (r: Self)
        ensures
            r == *self,
    {
        Credentials {
            access_key_id: self.access_key_id.clone(),
            secret_access_key: self.secret_access_key.clone(),
            session_token: self.session_token.clone(),
            source: self.source.clone(),
        }
    }
}

/// One EC2 task that stores an image in a bucket; a task without an image is no task.
#[derive(Debug)]
pub struct StoreImageTask {
    pub image_id: String,
    pub bucket: String,
    pub object_key: String,
    pub state: String,
    pub progress: String,
}

/// The texts of a [`StoreImageTask`].
pub struct StoreImageTaskView {
    pub image_id: Seq<char>,
    pub bucket: Seq<char>,
    pub object_key: Seq<char>,
    pub state: Seq<char>,
    pub progress: Seq<char>,
}

impl View for StoreImageTask {
    type V = StoreImageTaskView;

    open spec fn view(&self) -> StoreImageTaskView {
        StoreImageTaskView {
            image_id: self.image_id@,
            bucket: self.bucket@,
            object_key: self.object_key@,
            state: self.state@,
            progress: self.progress@,
        }
    }
}

impl Clone for StoreImageTask {
    fn clone(&self) -> (r: Self)
        ensures
            r == *self,
    {
        StoreImageTask {
            image_id: self.image_id.clone(),
            bucket: self.bucket.clone(),
            object_key: self.object_key.clone(),
            state: self.state.clone(),
            progress: self.progress.clone(),
        }
    }
}

/// The task that stands for no task.
pub open spec fn no_task() -> StoreImageTaskView {
    StoreImageTaskView {
        image_id: Seq::empty(),
        bucket: Seq::empty(),
        object_key: Seq::empty(),
        state: Seq::empty(),
        progress: Seq::empty(),
    }
}

impl Default for StoreImageTask {
    fn default() -> (r: Self)
        ensures
            r@ == no_task(),
    {
        StoreImageTask {
            image_id: String::new(),
            bucket: String::new(),
            object_key: String::new(),
            state: String::new(),
            progress: String::new(),
        }
    }
}

/// What a bucket says of one of its objects.
#[derive(Debug)]
pub struct ObjectHead {
    pub exists: bool,
    pub storage_class: String,
    pub content_length: i64,
}

/// [`ObjectHead`] with the text of its storage class.
pub struct ObjectHeadView {
    pub exists: bool,
    pub storage_class: Seq<char>,
    pub content_length: int,
}

impl View for ObjectHead {
    type V = ObjectHeadView;

    open spec fn view(&self) -> ObjectHeadView {
        ObjectHeadView {
            exists: self.exists,
            storage_class: self.storage_class@,
            content_length: self.content_length as int,
        }
    }
}

impl Clone for ObjectHead {
    fn clone(&self) -> (r: Self)
        ensures
            r == *self,
    {
        ObjectHead {
            exists: self.exists,
            storage_class: self.storage_class.clone(),
            content_length: self.content_length,
        }
    }
}

/// The head of an object that is not there.
pub open spec fn no_object() -> ObjectHeadView {
    ObjectHeadView { exists: false, storage_class: Seq::empty(), content_length: 0 }
}

impl Default for ObjectHead {
    fn default() -> (r: Self)
        ensures
            r@ == no_object(),
    {
        ObjectHead { exists: false, storage_class: String::new(), content_length: 0 }
    }
}

/// One part of a multipart upload that the bucket has accepted.
#[derive(Debug)]
pub struct MultipartPart {
    pub part_number: i32,
    pub etag: String,
}

/// [`MultipartPart`] with the text of its tag.
pub struct MultipartPartView {
    pub part_number: int,
    pub etag: Seq<char>,
}

impl View for MultipartPart {
    type V = MultipartPartView;

    open spec fn view(&self) -> MultipartPartView {
        MultipartPartView { part_number: self.part_number as int, etag: self.etag@ }
    }
}

impl Clone for MultipartPart {
    fn clone(&self) -> (r: Self)
        ensures
            r == *self,
    {
        MultipartPart {
            part_number: self.part_number,
            etag: self.etag.clone(),
        }
    }
}

}
