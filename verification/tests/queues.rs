//! Unit tests for the ready-queue bank, the sleep table, the preemption
//! counter, and the small leaf types.

use mello_sched::priority::{PriorityScheduler, TaskPriority, TaskQueue, SleepingTask};
use mello_sched::priority::{preempt_disable, preempt_enable};
use mello_sched::context::CpuContext;
use mello_sched::task::Task;
use mello_sched::timer::validate_timer_frequency;

#[test]
fn priority_indices() {
    assert_eq!(TaskPriority::Low.as_index(), 0);
    assert_eq!(TaskPriority::Normal.as_index(), 1);
    assert_eq!(TaskPriority::High.as_index(), 2);
    assert_eq!(TaskPriority::default(), TaskPriority::Normal);
}

#[test]
fn cpu_context_starts_zeroed() {
    let c = CpuContext::new();
    assert_eq!(c.r15, 0);
    assert_eq!(c.r14, 0);
    assert_eq!(c.r13, 0);
    assert_eq!(c.r12, 0);
    assert_eq!(c.rbp, 0);
    assert_eq!(c.rbx, 0);
    assert_eq!(c.rsp, 0);
}

#[test]
fn task_new_prepares_first_context() {
    let t = Task::new(7, "worker", 0xdead_b000, TaskPriority::High, 0x4000, 4096);
    assert_eq!(t.id, 7);
    assert_eq!(t.name, "worker");
    assert_eq!(t.priority, TaskPriority::High);
    assert_eq!(t.entry, 0xdead_b000);
    // The saved stack pointer addresses the topmost word of the stack, where
    // the trampoline's address goes; the entry is seeded in r12.
    assert_eq!(t.context.rsp, 0x4000 + 4096 - 8);
    assert_eq!(t.context.r12, 0xdead_b000);
    assert_eq!(t.context.rbx, 0);
}

#[test]
fn task_queue_is_fifo_with_wraparound() {
    let mut q = TaskQueue::new();
    assert!(q.is_empty());
    // Fill completely, drain half, refill: the head index wraps.
    for i in 0..64usize {
        assert!(q.push_back(i));
    }
    assert!(!q.push_back(99));
    assert_eq!(q.len(), 64);
    for i in 0..32usize {
        assert_eq!(q.pop_front(), Some(i));
    }
    for i in 100..132usize {
        assert!(q.push_back(i));
    }
    for i in 32..64usize {
        assert_eq!(q.pop_front(), Some(i));
    }
    for i in 100..132usize {
        assert_eq!(q.pop_front(), Some(i));
    }
    assert_eq!(q.pop_front(), None);
    q.clear();
    assert!(q.is_empty());
}

#[test]
fn bitmap_tracks_non_empty_queues() {
    let mut s = PriorityScheduler::new();
    assert!(s.is_empty());
    assert_eq!(s.non_empty_queues, 0);
    assert!(s.enqueue_task(1, TaskPriority::Normal));
    assert!(!s.is_empty());
    assert_eq!(s.non_empty_queues, 1 << 1);
    assert!(s.enqueue_task(2, TaskPriority::High));
    assert_eq!(s.non_empty_queues, (1 << 1) | (1 << 2));
    assert_eq!(s.select_next(), Some(2));
    assert_eq!(s.non_empty_queues, 1 << 1);
    assert_eq!(s.select_next(), Some(1));
    assert_eq!(s.non_empty_queues, 0);
    assert!(s.is_empty());
}

#[test]
fn select_next_prefers_higher_priority() {
    let mut s = PriorityScheduler::new();
    assert!(s.enqueue_task(1, TaskPriority::Low));
    assert!(s.enqueue_task(2, TaskPriority::Normal));
    assert!(s.enqueue_task(3, TaskPriority::High));
    assert!(s.enqueue_task(4, TaskPriority::Normal));
    assert_eq!(s.len(), 4);
    assert_eq!(s.select_next(), Some(3));
    assert_eq!(s.select_next(), Some(2));
    assert_eq!(s.select_next(), Some(4));
    assert_eq!(s.select_next(), Some(1));
    assert_eq!(s.select_next(), None);
}

#[test]
fn sleep_table_capacity_is_sixty_four() {
    let mut s = PriorityScheduler::new();
    for i in 0..64usize {
        assert!(s.sleep_task(i + 1, 10, TaskPriority::Normal));
    }
    assert!(!s.sleep_task(99, 10, TaskPriority::Normal));
}

#[test]
fn wake_moves_due_sleepers_to_their_queues() {
    let mut s = PriorityScheduler::new();
    assert!(s.sleep_task(1, 2, TaskPriority::Low));
    assert!(s.sleep_task(2, 5, TaskPriority::High));
    assert!(s.sleep_task(3, 2, TaskPriority::Low));
    s.tick();
    s.tick();
    assert_eq!(s.current_tick(), 2);
    // Tasks 1 and 3 are due; they return to the Low queue in slot order.
    assert_eq!(s.wake_sleeping_tasks(), 2);
    assert_eq!(s.len(), 2);
    assert_eq!(s.select_next(), Some(1));
    assert_eq!(s.select_next(), Some(3));
    assert_eq!(s.select_next(), None);
    // Task 2 is still asleep; its deadline has not arrived.
    s.tick();
    assert_eq!(s.wake_sleeping_tasks(), 0);
    s.tick();
    s.tick();
    assert_eq!(s.wake_sleeping_tasks(), 1);
    assert_eq!(s.select_next(), Some(2));
}

#[test]
fn wake_uses_the_priority_stored_at_sleep_time() {
    let mut s = PriorityScheduler::new();
    // The slot records Low even if the task's control block said otherwise;
    // waking re-enqueues at the stored priority.
    assert!(s.sleep_task(5, 1, TaskPriority::Low));
    assert!(s.enqueue_task(7, TaskPriority::Normal));
    s.tick();
    assert_eq!(s.wake_sleeping_tasks(), 1);
    // Normal outranks Low, so 7 first, then 5 from the Low queue.
    assert_eq!(s.select_next(), Some(7));
    assert_eq!(s.select_next(), Some(5));
}

#[test]
fn preempt_counter_saturates_at_zero() {
    let mut s = PriorityScheduler::new();
    assert!(s.can_preempt());
    s.preempt_disable();
    s.preempt_disable();
    assert!(!s.can_preempt());
    s.preempt_enable();
    assert!(!s.can_preempt());
    s.preempt_enable();
    assert!(s.can_preempt());
    // More enables than disables never drive the counter negative.
    s.preempt_enable();
    s.preempt_enable();
    assert!(s.can_preempt());
    assert_eq!(s.preempt_disable_count, 0);
    s.preempt_disable();
    assert!(!s.can_preempt());
}

#[test]
fn free_preempt_functions_nest() {
    let mut s = PriorityScheduler::new();
    preempt_disable(&mut s);
    preempt_disable(&mut s);
    preempt_enable(&mut s);
    assert!(!s.can_preempt());
    preempt_enable(&mut s);
    assert!(s.can_preempt());
}

#[test]
fn empty_sleep_slot_shape() {
    let s = SleepingTask::empty();
    assert!(!s.valid);
    assert_eq!(s.task_id, 0);
    assert_eq!(s.wake_tick, 0);
    assert_eq!(s.priority, TaskPriority::Normal);
}

#[test]
fn timer_frequency_band() {
    assert!(!validate_timer_frequency(0));
    assert!(validate_timer_frequency(1));
    assert!(validate_timer_frequency(100));
    assert!(validate_timer_frequency(1000));
    assert!(!validate_timer_frequency(1001));
}
