use io_lang::runtime::channel::Channel;
use io_lang::runtime::task::{Poll, Task, TaskIds};
use io_lang::runtime::ErrorCategory;
use io_lang::error::IoError;

#[test]
fn channel_delivers_in_order() {
    let mut ch: Channel<u32> = Channel::new();
    ch.send(1);
    ch.send(2);
    assert_eq!(ch.len(), 2);
    assert_eq!(ch.recv(), Some(1));
    assert_eq!(ch.recv(), Some(2));
    assert_eq!(ch.recv(), None);
}

#[test]
fn finished_task_is_unscheduled() {
    let mut ids = TaskIds::new();
    let _first = Task::new(&mut ids, 0);
    let mut task = Task::new(&mut ids, 100);
    assert_eq!(task.wake(true, Poll::Pending, 110), Some(Poll::Pending));
    assert!(task.is_scheduled());
    assert_eq!(task.wake(true, Poll::Ready, 120), None);
    task.mark_scheduled(false);
    assert_eq!(task.wake(true, Poll::Ready, 120), Some(Poll::Ready));
    assert!(!task.is_scheduled());
    let status = task.status();
    assert_eq!(status.id, 1);
    assert_eq!(status.run_count, 2);
    assert_eq!(status.last_poll, 120);
}

#[test]
fn a_finished_task_stays_ready() {
    let mut task = Task::new(&mut TaskIds::new(), 0);
    assert_eq!(task.poll(Poll::Pending), Poll::Pending);
    assert_eq!(task.poll(Poll::Ready), Poll::Ready);
    assert_eq!(task.poll(Poll::Pending), Poll::Ready);
    assert_eq!(task.status().run_count, 0);
}

#[test]
fn waking_without_a_scheduler_records_an_error() {
    let mut task = Task::new(&mut TaskIds::new(), 0);
    assert_eq!(task.wake(false, Poll::Ready, 5), None);
    let status = task.status();
    assert!(!status.is_scheduled);
    assert_eq!(status.run_count, 0);
    assert_eq!(
        status.last_error,
        Some(IoError::runtime_error("Attempted to wake task with uninitialized scheduler").to_string())
    );
}

#[test]
fn categories_are_listed_in_order() {
    let all = ErrorCategory::all();
    assert_eq!(all.len(), 8);
    for (i, c) in all.iter().enumerate() {
        assert_eq!(c.index(), i);
    }
}

#[test]
fn status_reflects_the_calls_made() {
    let mut ids = TaskIds::new();
    for _ in 0..3 {
        let _ = ids.next_id();
    }
    let mut task = Task::new(&mut ids, 5);
    let fresh = task.status();
    assert_eq!((fresh.id, fresh.run_count, fresh.is_scheduled), (3, 0, false));
    assert!(fresh.last_error.is_none());
    task.record_poll(10);
    task.mark_scheduled(true);
    task.record_error(IoError::runtime_error("first"));
    task.record_poll(20);
    task.mark_scheduled(false);
    task.record_error(IoError::runtime_error("second"));
    task.record_poll(30);
    let status = task.status();
    assert_eq!(status.id, 3);
    assert_eq!(status.run_count, 3);
    assert_eq!(status.last_poll, 30);
    assert!(!status.is_scheduled);
    assert_eq!(status.last_error, Some(IoError::runtime_error("second").to_string()));
}

#[test]
fn task_ids_increase() {
    let mut ids = TaskIds::new();
    let a = Task::new(&mut ids, 0);
    let b = Task::new(&mut ids, 0);
    let c = Task::new(&mut ids, 0);
    assert_eq!((a.status().id, b.status().id, c.status().id), (0, 1, 2));
}
