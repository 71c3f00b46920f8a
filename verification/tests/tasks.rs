use mangalize::tasks::{Queue, TaskState};
use mangalize::update::{newer, offer, ReleaseAsset};

#[test]
fn a_settled_task_is_one_nothing_more_will_happen_to() {
    assert!(TaskState::Done.settled());
    assert!(TaskState::Failed.settled());
    assert!(TaskState::Cancelled.settled());
    assert!(!TaskState::Queued.settled());
    assert!(!TaskState::Running.settled(), "clearing finished tasks must never drop one still working");
}

#[test]
fn a_higher_patch_is_newer() {
    assert!(newer("1.9.1", "1.9.0"));
    assert!(!newer("1.9.0", "1.9.1"));
}

#[test]
fn the_same_version_is_not_an_update() {
    assert!(!newer("1.9.0", "1.9.0"));
}

#[test]
fn ten_sorts_after_nine_rather_than_before_it() {
    assert!(newer("1.10.0", "1.9.0"));
    assert!(!newer("1.9.0", "1.10.0"));
    assert!(newer("2.0.0", "1.99.99"));
}

#[test]
fn a_missing_field_counts_as_zero() {
    assert!(newer("1.9", "1.8.9"));
    assert!(!newer("1.9", "1.9.0"));
}

#[test]
fn unparseable_fields_count_as_zero_and_suffixes_are_fields() {
    assert!(newer("1.9.0-1", "1.9.0"));
    assert!(!newer("1.x.5", "1.0.5"));
    assert!(!newer("1.+2", "1.1"));
    assert!(newer("1.+2", "1.0"));
    assert!(!newer("1.99999999999", "1.0"));
}

fn asset(name: Option<&str>, url: Option<&str>, size: Option<u64>) -> ReleaseAsset {
    ReleaseAsset { name: name.map(str::to_string), url: url.map(str::to_string), size }
}

#[test]
fn a_newer_release_offers_its_apk() {
    let assets = vec![asset(Some("notes.txt"), Some("u0"), None), asset(Some("app.apk"), Some("u1"), Some(42))];
    let u = offer("vv1.2.0", "1.1.9", Some("fixes".to_string()), &assets).unwrap().unwrap();
    assert_eq!(u.version, "1.2.0");
    assert_eq!(u.url, "u1");
    assert_eq!(u.bytes, 42);
    assert_eq!(u.notes, "fixes");
    assert!(offer("v1.1.9", "1.1.9", None, &assets).unwrap().is_none());
    assert_eq!(offer("v", "1", None, &assets).unwrap_err(), "the latest release has no version tag");
    assert_eq!(offer("v2", "1", None, &vec![]).unwrap_err(), "release v2 has no APK to install");
    assert_eq!(
        offer("v2", "1", None, &vec![asset(Some("a.apk"), None, None)]).unwrap_err(),
        "that APK has no download URL"
    );
}

#[test]
fn a_task_moves_from_queued_to_settled() {
    let mut q = Queue::new();
    let a = q.enqueue("download", "Ichi");
    let b = q.enqueue("build", "Ichi v01");
    assert_eq!((a, b), (1, 2));
    assert_eq!(q.tasks[0].detail, "waiting");
    assert!(q.begin(a));
    assert_eq!(q.tasks[0].state, TaskState::Running);
    q.step(a, "chapter 7", 3, 12);
    assert_eq!((q.tasks[0].done, q.tasks[0].total), (3, 12));
    q.cancel(a);
    assert_eq!(q.tasks[0].detail, "stopping");
    q.settle(a, Ok(Some("3 of 12".to_string())));
    assert_eq!(q.tasks[0].state, TaskState::Cancelled);
    assert_eq!(q.tasks[0].summary.as_deref(), Some("3 of 12"));
    q.cancel(b);
    assert!(!q.begin(b), "a task cancelled while waiting never starts");
    assert_eq!(q.tasks[1].state, TaskState::Cancelled);
    let c = q.enqueue("download", "Other");
    assert!(q.begin(c));
    q.settle(c, Err("network".to_string()));
    assert_eq!(q.tasks[2].error.as_deref(), Some("network"));
    let d = q.enqueue("download", "Waiting");
    q.clear_finished();
    assert_eq!(q.tasks.len(), 1);
    assert_eq!(q.tasks[0].id, d);
    assert_eq!(q.cancels, vec![(d, false)]);
}
