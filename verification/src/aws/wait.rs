//! Waiting for EC2 to store an image.
use crate::aws::client::ec2_request;
use crate::aws::request::{seen, AwsRequest};
use crate::aws::AwsClient;
use crate::error::{AnyError, AnyErrorView};
use crate::text::{lowered, same_but_case};
use crate::types::{StoreImageTask, StoreImageTaskView};
use vstd::prelude::*;
use vstd::string::*;

verus! {

/// What waiting does next.
pub enum WaitStep {
    /// It asks for the latest task.
    Ask(AwsRequest),
    /// It pauses for so many seconds, and then looks at the clock.
    Pause(u64),
    /// It is over.
    Over(Result<StoreImageTask, AnyError>),
}

/// The task is in this state, in whatever case it is written.
pub open spec fn in_state(task: StoreImageTaskView, state: Seq<char>) -> bool {
    lowered(task.state) == lowered(state)
}

/// How waiting ends once the latest task is known; it goes on where there is nothing. A task that
/// is not there yet is waited for.
pub open spec fn verdict(
    image_id: Seq<char>,
    latest: Result<StoreImageTaskView, AnyErrorView>,
) -> Option<Result<StoreImageTaskView, AnyErrorView>> {
    match latest {
        Err(e) => Some(Err(e)),
        Ok(task) => if task.image_id.len() == 0 {
            None
        } else if in_state(task, "Completed"@) {
            Some(Ok(task))
        } else if in_state(task, "Failed"@) {
            Some(Err(AnyErrorView::Message("store image task failed for "@ + image_id)))
        } else {
            None
        },
    }
}

/// How waiting that takes too long ends.
pub open spec fn timeout() -> AnyErrorView {
    AnyErrorView::Message("timeout while waiting for EC2 store image task"@)
}

/// How waiting ends, where each turn tells whether it is too late and what the latest task is
/// then; there is nothing where it has not ended yet.
pub open spec fn waited(
    image_id: Seq<char>,
    turns: Seq<(bool, Result<StoreImageTaskView, AnyErrorView>)>,
) -> Option<Result<StoreImageTaskView, AnyErrorView>>
    decreases turns.len(),
{
    if turns.len() == 0 {
        None
    } else if turns[0].0 {
        Some(Err(timeout()))
    } else if verdict(image_id, turns[0].1) is Some {
        verdict(image_id, turns[0].1)
    } else {
        waited(image_id, turns.drop_first())
    }
}

impl AwsClient {
    /// Begins a turn of waiting for the store task of an image; `late` tells that the time is up.
    pub fn ec2_wait_store_image_task(&self, image_id: &str, late: bool) -> (r: WaitStep)
        ensures
            match r {
                WaitStep::Over(out) => late && seen(out) == Err::<StoreImageTaskView, AnyErrorView>(
                    timeout(),
                ),
                WaitStep::Ask(request) => !late && request@ == ec2_request(
                    self.region@,
                    seq![("Action"@, "DescribeStoreImageTasks"@), ("ImageId.1"@, image_id@)],
                ),
                WaitStep::Pause(_) => false,
            },
    {
        if late {
            WaitStep::Over(Err(AnyError::text("timeout while waiting for EC2 store image task")))
        } else {
            WaitStep::Ask(self.ec2_latest_store_image_task(image_id))
        }
    }
}

/// Ends a turn of waiting: the wait is over, or pauses for `poll_seconds`.
pub fn wait_after(
    image_id: &str,
    poll_seconds: u64,
    latest: Result<StoreImageTask, AnyError>,
) -> (r: WaitStep)
    ensures
        match r {
            WaitStep::Over(out) => verdict(image_id@, seen(latest)) == Some(seen(out)),
            WaitStep::Pause(seconds) => verdict(image_id@, seen(latest)) is None && seconds
                == poll_seconds,
            WaitStep::Ask(_) => false,
        },
{
    match latest {
        Err(e) => WaitStep::Over(Err(e)),
        Ok(task) => {
            if task.image_id.as_str().is_empty() {
                WaitStep::Pause(poll_seconds)
            } else if same_but_case(task.state.as_str(), "Completed") {
                WaitStep::Over(Ok(task))
            } else if same_but_case(task.state.as_str(), "Failed") {
                let mut m = "store image task failed for ".to_owned();
                m.append(image_id);
                WaitStep::Over(Err(AnyError::Message(m)))
            } else {
                WaitStep::Pause(poll_seconds)
            }
        },
    }
}

/// The task is waited for, and stores the image in another bucket than the one that is asked for.
pub open spec fn stores_elsewhere(task: StoreImageTaskView, bucket: Seq<char>) -> bool {
    &&& task.image_id.len() > 0
    &&& !in_state(task, "Completed"@)
    &&& !in_state(task, "Failed"@)
    &&& bucket.len() > 0
    &&& task.bucket.len() > 0
    &&& lowered(task.bucket) != lowered(bucket)
}

/// Whether a task that is waited for stores the image in another bucket.
pub fn is_elsewhere(task: &StoreImageTask, bucket: &str) -> (r: bool)
    ensures
        r == stores_elsewhere(task@, bucket@),
{
    !task.image_id.as_str().is_empty() && !same_but_case(task.state.as_str(), "Completed")
        && !same_but_case(task.state.as_str(), "Failed") && !bucket.is_empty()
        && !task.bucket.as_str().is_empty() && !same_but_case(task.bucket.as_str(), bucket)
}

/// The task was seen at turn `i`, before the time was up, and no earlier turn ended the wait.
pub open spec fn seen_at(
    image_id: Seq<char>,
    turns: Seq<(bool, Result<StoreImageTaskView, AnyErrorView>)>,
    task: StoreImageTaskView,
    i: int,
) -> bool {
    &&& 0 <= i < turns.len()
    &&& turns[i] == (false, Ok::<StoreImageTaskView, AnyErrorView>(task))
    &&& forall|j: int|
        0 <= j < i ==> !(#[trigger] turns[j]).0 && verdict(image_id, turns[j].1) is None
}

/// Waiting succeeds exactly with a completed task of the image that was seen before the time was
/// up, and before anything else ended the wait.
pub proof fn law_waiting_ends_with_a_completed_task(
    image_id: Seq<char>,
    turns: Seq<(bool, Result<StoreImageTaskView, AnyErrorView>)>,
    task: StoreImageTaskView,
)
    ensures
        waited(image_id, turns) == Some(Ok::<StoreImageTaskView, AnyErrorView>(task)) <==> {
            &&& task.image_id.len() > 0
            &&& in_state(task, "Completed"@)
            &&& exists|i: int| seen_at(image_id, turns, task, i)
        },
    decreases turns.len(),
{
    if turns.len() > 0 {
        let rest = turns.drop_first();
        law_waiting_ends_with_a_completed_task(image_id, rest, task);
        if waited(image_id, turns) == Some(Ok::<StoreImageTaskView, AnyErrorView>(task)) {
            if verdict(image_id, turns[0].1) is Some {
                assert(seen_at(image_id, turns, task, 0));
            } else {
                let i = choose|i: int| seen_at(image_id, rest, task, i);
                assert forall|j: int| 0 <= j < i + 1 implies !(#[trigger] turns[j]).0 && verdict(
                    image_id,
                    turns[j].1,
                ) is None by {
                    if j > 0 {
                        assert(turns[j] == rest[j - 1]);
                    }
                }
                assert(seen_at(image_id, turns, task, i + 1));
            }
        }
        if exists|i: int| seen_at(image_id, turns, task, i) {
            let i = choose|i: int| seen_at(image_id, turns, task, i);
            if i > 0 {
                assert(rest[i - 1] == turns[i]);
                assert forall|j: int| 0 <= j < i - 1 implies !(#[trigger] rest[j]).0 && verdict(
                    image_id,
                    rest[j].1,
                ) is None by {
                    assert(rest[j] == turns[j + 1]);
                }
                assert(!turns[0].0 && verdict(image_id, turns[0].1) is None);
                assert(seen_at(image_id, rest, task, i - 1));
            }
        }
    }
}

/// A task is completed or failed where its state says so, in whatever case; a completed task ends
/// the wait with the task, a failed one with a failure that names the image, and a request that
/// fails with its failure. Anything else is waited for, and so is a task that is not there yet.
pub proof fn law_state_decides_the_wait(
    image_id: Seq<char>,
    task: StoreImageTaskView,
    e: AnyErrorView,
)
    ensures
        verdict(image_id, Err(e)) == Some(Err::<StoreImageTaskView, AnyErrorView>(e)),
        ({
            let end = verdict(image_id, Ok(task));
            let state = lowered(task.state);
            if task.image_id.len() > 0 && state == "completed"@ {
                end == Some(Ok::<StoreImageTaskView, AnyErrorView>(task))
            } else if task.image_id.len() > 0 && state == "failed"@ {
                end == Some(
                    Err::<StoreImageTaskView, AnyErrorView>(
                        AnyErrorView::Message("store image task failed for "@ + image_id),
                    ),
                )
            } else {
                end is None
            }
        }),
{
    lemma_states();
}

/// The names of the states in lower case.
proof fn lemma_states()
    ensures
        lowered("Completed"@) == "completed"@,
        lowered("Failed"@) == "failed"@,
        "completed"@ != "failed"@,
{
    reveal_strlit("Completed");
    reveal_strlit("completed");
    reveal_strlit("Failed");
    reveal_strlit("failed");
    assert(lowered("Completed"@) == "completed"@);
    assert(lowered("Failed"@) == "failed"@);
    assert("completed"@.len() != "failed"@.len());
}

/// Where the time is up, the wait ends with a failure that says so; turns that decide nothing do
/// not matter.
pub proof fn law_waiting_ends_in_time(
    image_id: Seq<char>,
    latest: Result<StoreImageTaskView, AnyErrorView>,
    rest: Seq<(bool, Result<StoreImageTaskView, AnyErrorView>)>,
)
    ensures
        waited(image_id, Seq::empty()) is None,
        waited(image_id, seq![(true, latest)] + rest) == Some(
            Err::<StoreImageTaskView, AnyErrorView>(
                AnyErrorView::Message("timeout while waiting for EC2 store image task"@),
            ),
        ),
        verdict(image_id, latest) is None ==> waited(image_id, seq![(false, latest)] + rest)
            == waited(image_id, rest),
        verdict(image_id, latest) is Some ==> waited(image_id, seq![(false, latest)] + rest)
            == verdict(image_id, latest),
{
    assert((seq![(true, latest)] + rest)[0] == (true, latest));
    assert((seq![(false, latest)] + rest)[0] == (false, latest));
    assert((seq![(false, latest)] + rest).drop_first() == rest);
}

/// A task that is waited for stores the image elsewhere exactly where both buckets are known and
/// their names differ in more than case.
pub proof fn law_other_buckets_are_told(task: StoreImageTaskView, bucket: Seq<char>)
    ensures
        stores_elsewhere(task, bucket) <==> {
            &&& task.image_id.len() > 0
            &&& lowered(task.state) != "completed"@
            &&& lowered(task.state) != "failed"@
            &&& bucket.len() > 0
            &&& task.bucket.len() > 0
            &&& lowered(task.bucket) != lowered(bucket)
        },
{
    lemma_states();
}

}
