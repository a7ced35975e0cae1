use vibelang::async_runtime::{AsyncRuntime, RuntimeError};
use vibelang::error::Span;

#[test]
fn runtime_error_keeps_message_and_span() {
    let e = RuntimeError::new("boom".to_string(), Some(Span::new(2, 3, 1)));
    assert_eq!(e.message, "boom");
    assert_eq!(e.span, Some(Span::new(2, 3, 1)));
}

#[test]
fn spawn_ready_allocates_increasing_ids_and_queues_in_order() {
    let mut rt: AsyncRuntime<u32, i64> = AsyncRuntime::new();
    let a = rt.spawn_ready(10);
    let b = rt.spawn_ready(20);
    assert_eq!(a, 1);
    assert_eq!(b, 2);
    assert_eq!(rt.alloc_id(), 3);
    assert_eq!(rt.pop_ready(), Some(1));
    assert_eq!(rt.pop_ready(), Some(2));
    assert_eq!(rt.pop_ready(), None);
}

#[test]
fn take_ready_ctx_returns_context_once() {
    let mut rt: AsyncRuntime<u32, i64> = AsyncRuntime::new();
    let a = rt.spawn_ready(7);
    assert_eq!(rt.take_ready_ctx(a), Some(7));
    assert_eq!(rt.take_ready_ctx(a), None);
    rt.set_ready(a, 8);
    assert_eq!(rt.take_ready_ctx(a), Some(8));
}

#[test]
fn take_ready_ctx_leaves_waiting_task_alone() {
    let mut rt: AsyncRuntime<u32, i64> = AsyncRuntime::new();
    let a = rt.alloc_id();
    let b = rt.alloc_id();
    rt.set_waiting_on(a, 5, b);
    assert_eq!(rt.take_ready_ctx(a), None);
    assert_eq!(rt.take_waiting_ctx_if_awakened(a), Some((5, b)));
    assert_eq!(rt.take_waiting_ctx_if_awakened(a), None);
}

#[test]
fn complete_records_value_and_wakes_waiters() {
    let mut rt: AsyncRuntime<u32, i64> = AsyncRuntime::new();
    let worker = rt.alloc_id();
    let w1 = rt.alloc_id();
    let w2 = rt.alloc_id();
    rt.set_waiting_on(w1, 100, worker);
    rt.set_waiting_on(w2, 200, worker);
    assert!(!rt.is_completed(worker));
    rt.complete(worker, 42);
    assert!(rt.is_completed(worker));
    assert_eq!(rt.completed_value(worker), Some(&42));
    assert_eq!(rt.pop_ready(), Some(w1));
    assert_eq!(rt.pop_ready(), Some(w2));
    assert_eq!(rt.take_ready_ctx(w1), Some(100));
    assert_eq!(rt.take_ready_ctx(w2), Some(200));
}

#[test]
fn complete_skips_waiter_that_moved_on() {
    let mut rt: AsyncRuntime<u32, i64> = AsyncRuntime::new();
    let x = rt.alloc_id();
    let y = rt.alloc_id();
    let w = rt.alloc_id();
    rt.set_waiting_on(w, 1, x);
    rt.set_waiting_on(w, 2, y);
    rt.complete(x, 9);
    assert_eq!(rt.pop_ready(), None);
    assert_eq!(rt.take_waiting_ctx_if_awakened(w), Some((2, y)));
}

#[test]
fn fail_marks_failed_and_wakes_waiters() {
    let mut rt: AsyncRuntime<u32, i64> = AsyncRuntime::new();
    let t = rt.alloc_id();
    let w = rt.alloc_id();
    rt.set_waiting_on(w, 3, t);
    rt.fail(t, RuntimeError::new("bad".to_string(), None));
    assert!(!rt.is_completed(t));
    assert_eq!(rt.completed_value(t), None);
    assert_eq!(rt.pop_ready(), Some(w));
    assert_eq!(rt.take_ready_ctx(w), Some(3));
}

#[test]
fn timers_fire_earliest_first() {
    let mut rt: AsyncRuntime<u32, i64> = AsyncRuntime::new();
    let a = rt.spawn_sleeping(1, 30);
    let b = rt.spawn_sleeping(2, 10);
    let c = rt.spawn_sleeping(3, 20);
    assert_eq!(rt.next_timer_deadline_ms(), Some(10));
    rt.wake_expired_timers(5);
    assert_eq!(rt.pop_ready(), None);
    rt.wake_expired_timers(25);
    assert_eq!(rt.pop_ready(), Some(b));
    assert_eq!(rt.pop_ready(), Some(c));
    assert_eq!(rt.pop_ready(), None);
    assert_eq!(rt.next_timer_deadline_ms(), Some(30));
    rt.wake_expired_timers(30);
    assert_eq!(rt.pop_ready(), Some(a));
    assert_eq!(rt.next_timer_deadline_ms(), None);
}

#[test]
fn stale_timer_is_rescheduled_for_later_deadline() {
    let mut rt: AsyncRuntime<u32, i64> = AsyncRuntime::new();
    let a = rt.spawn_sleeping(1, 10);
    rt.set_sleeping_until(a, 2, 50);
    rt.wake_expired_timers(20);
    assert_eq!(rt.pop_ready(), None);
    assert_eq!(rt.next_timer_deadline_ms(), Some(50));
    rt.wake_expired_timers(60);
    assert_eq!(rt.pop_ready(), Some(a));
    assert_eq!(rt.pop_ready(), None);
    assert_eq!(rt.take_ready_ctx(a), Some(2));
    assert_eq!(rt.next_timer_deadline_ms(), None);
}

#[test]
fn timer_of_completed_task_is_ignored() {
    let mut rt: AsyncRuntime<u32, i64> = AsyncRuntime::new();
    let a = rt.spawn_sleeping(1, 10);
    rt.complete(a, 5);
    rt.wake_expired_timers(100);
    assert_eq!(rt.pop_ready(), None);
    assert_eq!(rt.completed_value(a), Some(&5));
}

#[test]
fn every_sleeper_past_its_deadline_wakes() {
    let mut rt: AsyncRuntime<u32, i64> = AsyncRuntime::new();
    let a = rt.spawn_sleeping(1, 40);
    let b = rt.spawn_sleeping(2, 15);
    let c = rt.spawn_sleeping(3, 90);
    rt.wake_expired_timers(40);
    assert_eq!(rt.take_ready_ctx(b), Some(2));
    assert_eq!(rt.take_ready_ctx(a), Some(1));
    assert_eq!(rt.take_ready_ctx(c), None);
    assert_eq!(rt.next_timer_deadline_ms(), Some(90));
}
