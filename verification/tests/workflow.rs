//! Whole runs.
use ami_s3_archive::types::{ObjectHead, StoreImageTask};
use ami_s3_archive::workflow::{Action, Answer, Run, Step};
use ami_s3_archive::{parse_args, run, validate_config, AnyError, Config};

fn config(list: &[&str]) -> Config {
    let mut args: Vec<String> = ["--ami-id", "ami-01234567", "--region", "r"]
        .iter()
        .map(|s| s.to_string())
        .collect();
    args.extend(list.iter().map(|s| s.to_string()));
    let mut c = parse_args(&args).unwrap().unwrap();
    validate_config(&mut c, "").unwrap();
    c
}

fn name(a: &Action) -> String {
    match a {
        Action::Identify => "identify".to_string(),
        Action::CheckBucket { bucket } => format!("check {bucket}"),
        Action::Ask { prompt } => format!("ask {prompt}"),
        Action::CreateBucket { bucket } => format!("create {bucket}"),
        Action::BlockPublicAccess { bucket } => format!("block {bucket}"),
        Action::EncryptBucket { bucket } => format!("encrypt {bucket}"),
        Action::TryStore { image, bucket } => format!("try-store {image} {bucket}"),
        Action::Head { bucket, key } => format!("head {bucket} {key}"),
        Action::FindTask { image } => format!("find {image}"),
        Action::StartTask { image, bucket } => format!("start {image} {bucket}"),
        Action::AwaitTask { image, bucket, poll_seconds } => {
            format!("await {image} {bucket} {poll_seconds}")
        }
        Action::Convert { bucket, key, storage_class, size } => {
            format!("convert {bucket} {key} {storage_class} {size}")
        }
        Action::ListSnapshots { image } => format!("snapshots {image}"),
        Action::TryDeregister { image } => format!("try-deregister {image}"),
        Action::Deregister { image } => format!("deregister {image}"),
        Action::AbortUploads { bucket, key } => format!("abort {bucket} {key}"),
        Action::DeleteObject { bucket, key } => format!("delete {bucket} {key}"),
        Action::DeleteBucket { bucket } => format!("delete-bucket {bucket}"),
    }
}

/// Runs `c` with these answers; the actions, and the outcome or `None` where one is missing.
fn play(c: &Config, answers: Vec<Answer>) -> (Vec<String>, Option<Result<(), String>>) {
    let mut now: Run = run(c);
    let mut actions = vec![];
    for answer in answers {
        actions.push(name(&now.action()));
        match now.next(answer) {
            Step::Go(next) => now = next,
            Step::Finish(r) => return (actions, Some(r.map_err(|e| e.message()))),
        }
    }
    (actions, None)
}

fn account() -> Answer {
    Answer::Account(Ok("12".to_string()))
}

fn flag(b: bool) -> Answer {
    Answer::Flag(Ok(b))
}

fn done() -> Answer {
    Answer::Done(Ok(()))
}

fn failed() -> Answer {
    Answer::Done(Err(AnyError::text("failed")))
}

fn head(exists: bool, class: &str) -> Answer {
    Answer::Head(Ok(ObjectHead { exists, storage_class: class.to_string(), content_length: 9 }))
}

fn task(image: &str, bucket: &str, state: &str, key: &str) -> Answer {
    Answer::Task(Ok(StoreImageTask {
        image_id: image.to_string(),
        bucket: bucket.to_string(),
        object_key: key.to_string(),
        state: state.to_string(),
        progress: String::new(),
    }))
}

fn key(k: &str) -> Answer {
    Answer::Key(Ok(k.to_string()))
}

fn no_task() -> Answer {
    task("", "", "", "")
}

fn behind(n: usize, all: &[String]) -> Vec<&str> {
    all[n..].iter().map(|s| s.as_str()).collect()
}

/// A bucket that is there, and an object that is not.
fn nothing_there() -> Vec<Answer> {
    vec![account(), flag(true), done(), done(), head(false, "")]
}

fn with(mut first: Vec<Answer>, more: Vec<Answer>) -> Vec<Answer> {
    first.extend(more);
    first
}

#[test]
fn images_are_stored_converted_and_deregistered() {
    let c = config(&["--create-bucket", "--cleanup", "--yes"]);
    let (actions, end) = play(
        &c,
        vec![
            account(), flag(false), done(), done(), done(), head(false, ""), no_task(), key("k"),
            task("ami-01234567", "x", "Completed", ""), head(true, ""), done(), done(), done(),
        ],
    );
    assert_eq!(
        actions,
        vec![
            "identify",
            "check ami-archive-12-r",
            "create ami-archive-12-r",
            "block ami-archive-12-r",
            "encrypt ami-archive-12-r",
            "head ami-archive-12-r ami-01234567.bin",
            "find ami-01234567",
            "start ami-01234567 ami-archive-12-r",
            "await ami-01234567 ami-archive-12-r 15",
            "head ami-archive-12-r k",
            "convert ami-archive-12-r k STANDARD_IA 9",
            "snapshots ami-01234567",
            "deregister ami-01234567",
        ],
    );
    assert_eq!(end, Some(Ok(())));
}

#[test]
fn trial_runs_change_nothing() {
    let c = config(&["--s3-uri", "s3://b", "--dry-run", "--cleanup", "--yes"]);
    let (actions, end) = play(&c, vec![account(), done(), failed(), done()]);
    assert_eq!(
        actions,
        vec![
            "identify",
            "try-store ami-01234567 b",
            "snapshots ami-01234567",
            "try-deregister ami-01234567",
        ],
    );
    assert_eq!(end, Some(Ok(())));
    let (actions, end) = play(&c, vec![account(), failed()]);
    assert_eq!(actions.len(), 2);
    assert_eq!(end, Some(Err("failed".to_string())));
    let plain = config(&["--s3-uri", "s3://b", "--dry-run"]);
    assert_eq!(play(&plain, vec![account(), done()]).1, Some(Ok(())));
}

#[test]
fn runs_need_a_bucket() {
    let (actions, end) = play(&config(&[]), vec![account()]);
    assert_eq!(actions, vec!["identify"]);
    assert_eq!(
        end,
        Some(Err(
            "bucket not provided. Re-run with --s3-uri s3://bucket, or allow proposed bucket \
             creation with --create-bucket"
                .to_string()
        )),
    );
    let given = config(&["--s3-uri", "s3://b"]);
    let (_, end) = play(&given, vec![account(), flag(false)]);
    assert_eq!(
        end,
        Some(Err(
            "bucket s3://b does not exist; pass --create-bucket or create it first".to_string()
        )),
    );
    let (_, end) = play(&given, vec![Answer::Account(Err(AnyError::text("who")))]);
    assert_eq!(end, Some(Err("who".to_string())));
}

#[test]
fn buckets_are_made_by_consent() {
    let c = config(&["--s3-uri", "s3://b", "--create-bucket"]);
    let (actions, end) = play(&c, vec![account(), flag(false), flag(false)]);
    assert_eq!(
        behind(1, &actions),
        vec!["check b", "ask Create bucket s3://b in region r?"],
    );
    assert_eq!(end, Some(Err("bucket creation declined".to_string())));
    let (actions, end) =
        play(&c, vec![account(), flag(false), flag(true), done(), failed(), done()]);
    assert_eq!(behind(3, &actions), vec!["create b", "block b", "delete-bucket b"]);
    assert_eq!(end, Some(Err("failed".to_string())));
}

#[test]
fn archives_that_are_there_need_nothing() {
    let c = config(&["--s3-uri", "s3://b"]);
    let (actions, end) = play(
        &c,
        vec![
            account(), flag(true), done(), done(), head(true, "STANDARD_IA"),
            head(true, "STANDARD_IA"),
        ],
    );
    assert_eq!(behind(4, &actions), vec!["head b ami-01234567.bin", "head b ami-01234567.bin"]);
    assert_eq!(end, Some(Ok(())));
    let (actions, _) = play(
        &c,
        vec![account(), flag(true), done(), done(), head(true, ""), head(true, ""), done()],
    );
    assert_eq!(behind(6, &actions), vec!["convert b ami-01234567.bin STANDARD_IA 9"]);
}

#[test]
fn tasks_that_are_there_are_resumed() {
    let c = config(&["--s3-uri", "s3://b"]);
    for found in [
        task("i", "B", "completed", "k"),
        task("i", "b", "InProgress", "k"),
    ] {
        let (actions, _) =
            play(&c, with(nothing_there(), vec![found, task("i", "b", "Completed", ""), done()]));
        assert_eq!(behind(6, &actions), vec!["await ami-01234567 b 15", "head b k"]);
    }
    let keyless = task("i", "b", "InProgress", "");
    let (actions, _) =
        play(&c, with(nothing_there(), vec![keyless, task("i", "b", "Completed", "z"), done()]));
    assert_eq!(behind(7, &actions), vec!["head b z"]);
    for other in [
        task("i", "c", "Completed", "k"),
        task("i", "b", "Completed", ""),
        task("i", "b", "Failed", "k"),
        task("", "b", "Completed", "k"),
    ] {
        let (actions, _) = play(&c, with(nothing_there(), vec![other, done()]));
        assert_eq!(behind(6, &actions), vec!["start ami-01234567 b"]);
    }
    let hasty = config(&["--s3-uri", "s3://b", "--no-wait"]);
    let (actions, end) = play(
        &hasty,
        with(nothing_there(), vec![no_task(), key("k"), head(false, ""), head(false, "")]),
    );
    assert_eq!(
        behind(6, &actions),
        vec!["start ami-01234567 b", "head b k", "head b k"],
    );
    assert_eq!(
        end,
        Some(Err("expected object not found after completed store task: s3://b/k".to_string())),
    );
}

#[test]
fn incomplete_objects_are_deleted() {
    let c = config(&["--s3-uri", "s3://b"]);
    let lost = || Answer::Task(Err(AnyError::text("lost")));
    let (actions, end) = play(
        &c,
        with(nothing_there(), vec![no_task(), key("k"), lost(), head(true, ""), failed()]),
    );
    assert_eq!(
        behind(7, &actions),
        vec!["await ami-01234567 b 15", "head b k", "delete b k"],
    );
    assert_eq!(end, Some(Err("lost".to_string())));
    let (actions, end) =
        play(&c, with(nothing_there(), vec![no_task(), key("k"), lost(), head(false, "")]));
    assert_eq!(behind(8, &actions), vec!["head b k"]);
    assert_eq!(end, Some(Err("lost".to_string())));
    let resumed = task("i", "b", "InProgress", "k");
    let (actions, end) = play(&c, with(nothing_there(), vec![resumed, lost()]));
    assert_eq!(actions.len(), 7);
    assert_eq!(end, Some(Err("lost".to_string())));
}

#[test]
fn complete_archives_are_kept() {
    let c = config(&["--s3-uri", "s3://b", "--create-bucket", "--yes", "--cleanup"]);
    let stored = || {
        vec![
            account(), flag(false), done(), done(), done(), head(false, ""), no_task(), key("k"),
            task("i", "b", "Completed", ""), head(true, ""),
        ]
    };
    let (actions, end) = play(&c, with(stored(), vec![failed(), done(), done()]));
    assert_eq!(
        behind(10, &actions),
        vec!["convert b k STANDARD_IA 9", "abort b k", "delete-bucket b"],
    );
    assert_eq!(end, Some(Err("failed".to_string())));
    let (actions, end) = play(&c, with(stored(), vec![done(), done(), failed(), failed()]));
    assert_eq!(
        behind(11, &actions),
        vec!["snapshots ami-01234567", "deregister ami-01234567", "delete-bucket b"],
    );
    assert_eq!(end, Some(Err("failed".to_string())));
}

#[test]
fn images_are_deregistered_by_consent() {
    let c = config(&["--s3-uri", "s3://b", "--cleanup", "--storage-class", "STANDARD"]);
    let there = || {
        vec![account(), flag(true), done(), done(), head(true, ""), head(true, ""), failed()]
    };
    let (actions, end) = play(&c, with(there(), vec![flag(false)]));
    assert_eq!(
        behind(6, &actions),
        vec![
            "snapshots ami-01234567",
            "ask Deregister ami-01234567 and delete associated EBS snapshots?",
        ],
    );
    assert_eq!(end, Some(Ok(())));
    let (actions, end) = play(&c, with(there(), vec![flag(true), done()]));
    assert_eq!(behind(8, &actions), vec!["deregister ami-01234567"]);
    assert_eq!(end, Some(Ok(())));
}

#[test]
fn answers_of_another_kind_fail_the_run() {
    let c = config(&["--s3-uri", "s3://b"]);
    let (_, end) = play(&c, vec![account(), done()]);
    assert_eq!(end, Some(Err("unexpected answer".to_string())));
}

#[test]
fn keys_of_resumed_tasks_count_once_the_wait_is_over() {
    let c = config(&["--s3-uri", "s3://b"]);
    let mut now: Run = run(&c);
    for answer in with(nothing_there(), vec![task("i", "b", "InProgress", "k")]) {
        now = match now.next(answer) {
            Step::Go(next) => next,
            Step::Finish(_) => panic!("over"),
        };
    }
    assert_eq!(now.rollback.object_key, "ami-01234567.bin");
    assert!(!now.rollback.store_task_started_this_run);
    match now.next(task("i", "b", "Completed", "")) {
        Step::Go(next) => assert_eq!(next.rollback.object_key, "k"),
        Step::Finish(_) => panic!("over"),
    }
}
