use image::DynamicImage;
use image_tasks::queue::{TaskQueue, TaskState};
use image_tasks::TaskError;

fn failed_reason(state: &TaskState) -> Option<&str> {
    match state {
        TaskState::Failed(TaskError::SingleError(m)) => Some(m.as_str()),
        _ => None,
    }
}

#[test]
fn ids_strictly_increase_and_are_unique() {
    let mut q = TaskQueue::new();
    let a = q.new_task("a.png");
    let b = q.new_task("b.png");
    let c = q.new_task("c.png");
    assert_eq!(a, 1);
    assert_eq!(b, 2);
    assert_eq!(c, 3);
    assert!(a < b && b < c);

    // Completion frees no id for reuse: later tasks still get fresh ids.
    q.completed_task(b);
    let d = q.new_task("d.png");
    assert_eq!(d, 4);
    assert!(d > c);
}

#[test]
fn buffer_moves_in_and_second_buffer_wins() {
    let mut q = TaskQueue::new();
    let id = q.new_task("img.png");

    let mut buf = Some(DynamicImage::new_rgb8(1, 1));
    q.decoded_task(&mut buf, id);
    // The caller's handle is empty immediately after the call.
    assert!(buf.is_none());

    let task = q.task_by_id_mut(id).unwrap();
    assert_eq!(task.state, TaskState::Decoded);
    assert_eq!(task.image, Some(DynamicImage::new_rgb8(1, 1)));

    let mut buf2 = Some(DynamicImage::new_rgb8(2, 2));
    q.processed_task(&mut buf2, id);
    assert!(buf2.is_none());

    let task = q.task_by_id_mut(id).unwrap();
    assert_eq!(task.state, TaskState::Processed);
    // The stored buffer is the second one, not the first.
    assert_eq!(task.image, Some(DynamicImage::new_rgb8(2, 2)));
    assert_ne!(task.image, Some(DynamicImage::new_rgb8(1, 1)));
}

#[test]
fn completed_id_never_resolves_again() {
    let mut q = TaskQueue::new();
    let id = q.new_task("img.png");
    q.fail_task(id, "decode error");
    q.completed_task(id);

    assert!(q.task_by_id_mut(id).is_none());
    assert!(!q.has_failures());
    assert_eq!(q.count_failures(), 0);
    assert!(q.failed_tasks().is_empty());
    assert!(q.processed_tasks().is_empty());
    assert!(q.decoded_tasks().is_empty());
    assert!(q.decoded_task_ids().is_empty());

    // Late or duplicate calls against the removed id stay harmless no-ops.
    q.completed_task(id);
    q.working_task(id);
    assert!(q.task_by_id_mut(id).is_none());
}

#[test]
fn fail_twice_keeps_most_recent_reason() {
    let mut q = TaskQueue::new();
    let id = q.new_task("img.png");
    q.fail_task(id, "first reason");
    q.fail_task(id, "second reason");

    let task = q.task_by_id_mut(id).unwrap();
    assert_eq!(failed_reason(&task.state), Some("second reason"));
    assert_eq!(q.count_failures(), 1);
}

#[test]
fn count_failures_matches_failed_tasks_len() {
    let mut q = TaskQueue::new();
    assert_eq!(q.count_failures(), q.failed_tasks().len());

    let a = q.new_task("a.png");
    let b = q.new_task("b.png");
    let c = q.new_task("c.png");
    assert_eq!(q.count_failures(), q.failed_tasks().len());

    q.fail_task(a, "broken header");
    assert_eq!(q.count_failures(), q.failed_tasks().len());
    assert_eq!(q.count_failures(), 1);

    q.fail_task(c, "unsupported format");
    assert_eq!(q.count_failures(), q.failed_tasks().len());
    assert_eq!(q.count_failures(), 2);

    q.completed_task(a);
    assert_eq!(q.count_failures(), q.failed_tasks().len());
    assert_eq!(q.count_failures(), 1);

    let _ = b;
}

#[test]
fn mutators_ignore_unknown_ids() {
    let mut q = TaskQueue::new();
    let id = q.new_task("img.png");
    let mut buf = Some(DynamicImage::new_rgb8(1, 1));
    q.decoded_task(&mut buf, id);

    // No task ever had these ids; 0 is never issued.
    for ghost_id in [0u32, 7, 99] {
        q.working_task(ghost_id);
        let mut stray = Some(DynamicImage::new_rgb8(3, 3));
        q.decoded_task(&mut stray, ghost_id);
        // The caller keeps a buffer aimed at an unknown id.
        assert!(stray.is_some());
        q.processed_task(&mut stray, ghost_id);
        assert!(stray.is_some());
        q.fail_task(ghost_id, "nobody home");
        q.completed_task(ghost_id);
        let mut path = String::from("/elsewhere");
        q.set_task_out_path(ghost_id, &mut path);
        assert_eq!(path, "/elsewhere");
        assert!(q.task_by_id_mut(ghost_id).is_none());
    }

    // The one real task is untouched.
    assert_eq!(q.count_failures(), 0);
    assert!(!q.has_failures());
    assert_eq!(q.decoded_task_ids(), vec![id]);
    let task = q.task_by_id_mut(id).unwrap();
    assert_eq!(task.state, TaskState::Decoded);
    assert_eq!(task.image, Some(DynamicImage::new_rgb8(1, 1)));
    assert_eq!(task.image_path, "img.png");
    assert_eq!(task.out_path, "img.png");
}

#[test]
fn batch_of_three_with_one_failure() {
    let mut q = TaskQueue::new();
    let a = q.new_task("a.png");
    let b = q.new_task("b.png");
    let c = q.new_task("c.png");

    for id in [a, b, c] {
        let mut buf = Some(DynamicImage::new_rgb8(1, 1));
        q.decoded_task(&mut buf, id);
    }
    assert_eq!(q.decoded_task_ids(), vec![a, b, c]);

    let mut out_a = Some(DynamicImage::new_rgb8(2, 2));
    q.processed_task(&mut out_a, a);
    q.fail_task(b, "unsupported format");
    let mut out_c = Some(DynamicImage::new_rgb8(2, 2));
    q.processed_task(&mut out_c, c);

    assert!(q.has_failures());
    assert_eq!(q.count_failures(), 1);
    let processed: Vec<u32> = q.processed_tasks().iter().map(|t| t.id).collect();
    assert_eq!(processed, vec![a, c]);
    assert!(q.decoded_tasks().is_empty());

    q.completed_task(a);
    q.completed_task(c);
    let remaining: Vec<u32> = q.failed_tasks().iter().map(|t| t.id).collect();
    assert_eq!(remaining, vec![b]);
    assert!(q.task_by_id_mut(a).is_none());
    assert!(q.task_by_id_mut(c).is_none());
    assert_eq!(failed_reason(&q.task_by_id_mut(b).unwrap().state), Some("unsupported format"));

    q.completed_task(b);
    assert!(!q.has_failures());
    assert!(q.failed_tasks().is_empty());
    assert!(q.task_by_id_mut(b).is_none());
}

#[test]
fn pending_task_can_be_completed_at_once() {
    let mut q = TaskQueue::new();
    let id = q.new_task("img.png");
    assert_eq!(q.task_by_id_mut(id).unwrap().state, TaskState::Pending);
    q.completed_task(id);
    assert!(q.task_by_id_mut(id).is_none());
}

#[test]
fn set_out_path_changes_only_the_destination() {
    let mut q = TaskQueue::new();
    let id = q.new_task("img.png");

    let mut new_path = String::from("/out/img2.png");
    q.set_task_out_path(id, &mut new_path);
    // The registry takes the path over; the caller's string is left empty.
    assert_eq!(new_path, "");

    let task = q.task_by_id_mut(id).unwrap();
    assert_eq!(task.out_path, "/out/img2.png");
    assert_eq!(task.image_path, "img.png");
    assert_eq!(task.state, TaskState::Pending);
    assert!(task.image.is_none());
}

#[test]
fn working_marker_touches_only_the_state() {
    let mut q = TaskQueue::new();
    let id = q.new_task("img.png");
    let mut buf = Some(DynamicImage::new_rgb8(1, 1));
    q.decoded_task(&mut buf, id);

    q.working_task(id);
    let task = q.task_by_id_mut(id).unwrap();
    assert_eq!(task.state, TaskState::Working);
    // The buffer is not touched by the progress marker.
    assert_eq!(task.image, Some(DynamicImage::new_rgb8(1, 1)));
}

#[test]
fn lookup_allows_field_updates() {
    let mut q = TaskQueue::new();
    let id = q.new_task("img.png");
    {
        let task = q.task_by_id_mut(id).unwrap();
        task.out_path = String::from("/out/here.png");
    }
    assert_eq!(q.task_by_id_mut(id).unwrap().out_path, "/out/here.png");
}

#[test]
fn fresh_registry_is_empty() {
    let mut q = TaskQueue::new();
    assert!(!q.has_failures());
    assert_eq!(q.count_failures(), 0);
    assert!(q.failed_tasks().is_empty());
    assert!(q.processed_tasks().is_empty());
    assert!(q.decoded_tasks().is_empty());
    assert!(q.decoded_task_ids().is_empty());
    assert!(q.task_by_id_mut(1).is_none());
}

#[test]
fn equal_paths_still_get_distinct_tasks() {
    let mut q = TaskQueue::new();
    let a = q.new_task("same.png");
    let b = q.new_task("same.png");
    assert_ne!(a, b);

    q.fail_task(a, "decode error");
    // The sibling task for the same path is untouched.
    assert_eq!(q.task_by_id_mut(b).unwrap().state, TaskState::Pending);
    assert_eq!(q.count_failures(), 1);
}

#[test]
fn task_error_exposes_its_message() {
    let e = TaskError::SingleError(String::from("encode failed"));
    assert_eq!(e.message(), "encode failed");
}
