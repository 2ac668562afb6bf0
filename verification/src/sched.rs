//! Scheduler core: the task table, the current task, id assignment, and the
//! operations the kernel calls — spawn, schedule, tick, sleep and the
//! preemption window.
//!
//! The core decides; it does not switch. Every operation that may suspend
//! the caller returns the pair of task ids to switch between, and the code
//! around the library performs the architecture-specific context switch with
//! that pair. The central invariant: every spawned, non-terminated task is
//! accounted for exactly once — in exactly one ready queue if `Ready`, in
//! exactly one sleep slot if `Sleeping`, or as the single `Running` task.

use vstd::prelude::*;
use crate::task::{Task, TaskId, TaskState, SpawnError, MAX_TASKS};
use crate::priority::{
    PriorityScheduler, TaskPriority, SleepingTask, inval_expired, woken_into, woken_ids,
};
use crate::counting::{
    occ, occ_sleep, valid_count, woken_occ, lemma_occ_push, lemma_occ_drop_first,
    lemma_occ_member, lemma_occ_sleep_member, lemma_occ_concat, lemma_sleep_update,
    lemma_wake_counts, lemma_wake_lens,
};

verus! {

/// The scheduler's whole state: ready queues, sleep table, tick and
/// preemption counter (in `priority_sched`), the task table indexed by task
/// id, the running task, and the next id to assign.
pub struct SchedState {
    pub priority_sched: PriorityScheduler,
    /// Task table; slot `i` holds the task with id `i`, `None` if unassigned.
    pub tasks: Vec<Option<Task>>,
    /// The task the CPU is executing, if any.
    pub current: Option<TaskId>,
    /// Next task id to assign; ids 1 to `next_tid - 1` are live, 0 is idle.
    pub next_tid: usize,
}

/// The task with its scheduling state replaced.
pub open spec fn with_state(t: Task, st: TaskState) -> Task {
    Task {
        id: t.id,
        name: t.name,
        state: st,
        priority: t.priority,
        entry: t.entry,
        stack_base: t.stack_base,
        stack_size: t.stack_size,
        context: t.context,
    }
}

impl SchedState {
    /// Contents of ready queue `p`.
    pub open spec fn q(self, p: int) -> Seq<TaskId> {
        self.priority_sched.q(p)
    }

    /// The sleep table's slots.
    pub open spec fn sleepers(self) -> Seq<SleepingTask> {
        self.priority_sched.sleepers()
    }

    /// The tick counter.
    pub open spec fn tick_count(self) -> u64 {
        self.priority_sched.current_tick
    }

    /// Scheduling state of the task with id `i`.
    pub open spec fn state_of(self, i: int) -> TaskState {
        self.tasks@[i].unwrap().state
    }

    /// Priority of the task with id `i`.
    pub open spec fn prio_of(self, i: int) -> TaskPriority {
        self.tasks@[i].unwrap().priority
    }

    /// How often `id` appears across all three ready queues.
    pub open spec fn ready_occ(self, id: TaskId) -> nat {
        occ(self.q(0), id) + occ(self.q(1), id) + occ(self.q(2), id)
    }

    /// How often `id` appears in the sleep table.
    pub open spec fn sleep_occ(self, id: TaskId) -> nat {
        occ_sleep(self.sleepers(), id)
    }

    /// Total number of queued task ids.
    pub open spec fn ready_total(self) -> nat {
        self.q(0).len() + self.q(1).len() + self.q(2).len()
    }

    /// 1 when the current task is a spawned (non-idle) task in state
    /// `Running`, else 0. The idle task needs no population unit: it is
    /// never queued or asleep.
    pub open spec fn running_flag(self) -> nat {
        match self.current {
            Some(c) => if 1 <= c < self.next_tid && self.state_of(c as int) is Running {
                1nat
            } else {
                0nat
            },
            None => 0,
        }
    }

    /// The accounting clause for one spawned task: its state says where it
    /// is, and it is there exactly once.
    pub open spec fn task_partition(self, id: TaskId) -> bool {
        match self.state_of(id as int) {
            TaskState::Ready => self.ready_occ(id) == 1 && self.sleep_occ(id) == 0,
            TaskState::Running => self.current == Some(id) && self.ready_occ(id) == 0
                && self.sleep_occ(id) == 0,
            TaskState::Sleeping => self.sleep_occ(id) == 1 && self.ready_occ(id) == 0,
            TaskState::Terminated => self.ready_occ(id) == 0 && self.sleep_occ(id) == 0,
        }
    }

    /// Every queued or sleeping entry stands for a distinct live task, and
    /// the running task is none of them — so the entries can never outgrow
    /// the id space, and no queue or table insert ever finds its target full.
    pub open spec fn population_ok(self) -> bool {
        self.ready_total() + valid_count(self.sleepers()) + self.running_flag() <= self.next_tid
            - 1
    }

    /// The scheduler core's invariant.
    pub open spec fn wf(self) -> bool {
        &&& self.priority_sched.wf()
        &&& self.tasks@.len() == MAX_TASKS
        &&& 1 <= self.next_tid <= MAX_TASKS
        &&& forall|i: int|
            0 <= i < MAX_TASKS ==> ((#[trigger] self.tasks@[i]) is Some <==> i < self.next_tid)
        &&& forall|i: int| 0 <= i < self.next_tid ==> (#[trigger] self.tasks@[i]).unwrap().id == i
        &&& match self.current {
            Some(c) => c < self.next_tid,
            None => true,
        }
        &&& forall|p: int, k: int|
            0 <= p < 3 && 0 <= k < self.q(p).len() ==> 1 <= #[trigger] self.q(p)[k]
                < self.next_tid
        &&& forall|j: int|
            0 <= j < MAX_TASKS && (#[trigger] self.sleepers()[j]).valid ==> 1 <= self.sleepers()[
                j
            ].task_id < self.next_tid
        &&& forall|id: TaskId| 1 <= id < self.next_tid ==> #[trigger] self.task_partition(id)
        &&& self.ready_occ(0) == 0
        &&& self.sleep_occ(0) == 0
        &&& (self.state_of(0) is Running ==> self.current == Some(0usize))
        &&& (self.state_of(0) is Running || self.state_of(0) is Ready)
        &&& self.population_ok()
    }

    /// Empty pre-initialization state: no tasks installed yet, id 0 reserved
    /// for the idle task that `init_scheduler` creates.
    pub fn new() -> (s: SchedState)
        ensures
            s.priority_sched.wf(),
            s.q(0) == Seq::<TaskId>::empty(),
            s.q(1) == Seq::<TaskId>::empty(),
            s.q(2) == Seq::<TaskId>::empty(),
            forall|j: int| 0 <= j < MAX_TASKS ==> !(#[trigger] s.sleepers()[j]).valid,
            s.tick_count() == 0,
            s.priority_sched.preempt_disable_count == 0,
            s.tasks@.len() == MAX_TASKS,
            forall|i: int| 0 <= i < MAX_TASKS ==> (#[trigger] s.tasks@[i]) is None,
            s.current is None,
            s.next_tid == 1,
    {
        let mut tasks: Vec<Option<Task>> = Vec::new();
        while tasks.len() < MAX_TASKS
            invariant
                tasks@.len() <= MAX_TASKS,
                forall|i: int| 0 <= i < tasks@.len() ==> (#[trigger] tasks@[i]) is None,
            decreases MAX_TASKS - tasks@.len(),
        {
            tasks.push(None);
        }
        SchedState { priority_sched: PriorityScheduler::new(), tasks, current: None, next_tid: 1 }
    }
}

/// A table with no occupied slot counts nothing.
proof fn lemma_sleep_zero(s: Seq<SleepingTask>, id: TaskId, n: int)
    requires
        0 <= n <= s.len(),
        forall|j: int| 0 <= j < n ==> !(#[trigger] s[j]).valid,
    ensures
        crate::counting::occ_sleep_upto(s, id, n) == 0,
        crate::counting::valid_upto(s, n) == 0,
    decreases n,
{
    if n > 0 {
        lemma_sleep_zero(s, id, n - 1);
    }
}

/// Set up the scheduler: everything cleared, and the idle task installed as
/// id 0 in the `Ready` state, never placed in any ready queue. `idle_entry`
/// is the address of the routine that halts the CPU until the next
/// interrupt; the stack bounds come from the kernel allocator, which the
/// caller has already checked for failure (a null base is fatal at boot).
pub fn init_scheduler(idle_entry: u64, idle_stack_base: u64, idle_stack_size: u64) -> (s:
    SchedState)
    requires
        idle_stack_base != 0,
        idle_stack_size >= 16,
        idle_stack_base + idle_stack_size <= u64::MAX,
    ensures
        s.wf(),
        s.next_tid == 1,
        s.current is None,
        s.q(0) == Seq::<TaskId>::empty(),
        s.q(1) == Seq::<TaskId>::empty(),
        s.q(2) == Seq::<TaskId>::empty(),
        forall|j: int| 0 <= j < MAX_TASKS ==> !(#[trigger] s.sleepers()[j]).valid,
        s.tick_count() == 0,
        s.priority_sched.preempt_disable_count == 0,
        s.tasks@[0] is Some,
        s.state_of(0) is Ready,
        s.tasks@[0].unwrap().id == 0,
        s.tasks@[0].unwrap().entry == idle_entry,
{
    let mut s = SchedState::new();
    let idle = Task::new(0, "idle", idle_entry, TaskPriority::Low, idle_stack_base,
        idle_stack_size);
    s.tasks[0] = Some(idle);
    proof {
        assert forall|id: TaskId| #[trigger] s.ready_occ(id) == 0 by {
            assert(occ(s.q(0), id) == 0);
            assert(occ(s.q(1), id) == 0);
            assert(occ(s.q(2), id) == 0);
        }
        assert forall|id: TaskId| #[trigger] s.sleep_occ(id) == 0 by {
            lemma_sleep_zero(s.sleepers(), id, MAX_TASKS as int);
        }
        lemma_sleep_zero(s.sleepers(), 0, MAX_TASKS as int);
        assert(valid_count(s.sleepers()) == 0);
        assert(s.wf());
    }
    s
}

/// Nothing the scheduler tracks has changed between two states.
pub open spec fn sched_unchanged(a: SchedState, b: SchedState) -> bool {
    &&& b.tasks@ == a.tasks@
    &&& b.current == a.current
    &&& b.next_tid == a.next_tid
    &&& b.q(0) == a.q(0)
    &&& b.q(1) == a.q(1)
    &&& b.q(2) == a.q(2)
    &&& b.sleepers() == a.sleepers()
    &&& b.tick_count() == a.tick_count()
    &&& b.priority_sched.preempt_disable_count == a.priority_sched.preempt_disable_count
}

/// The control block `spawn_task` installs: `Ready`, with the first context
/// prepared as `Task::new` lays it out.
pub open spec fn spawned_task(
    id: TaskId,
    name: &'static str,
    entry: u64,
    priority: TaskPriority,
    stack_base: u64,
    stack_size: u64,
) -> Task {
    Task {
        id,
        name,
        state: TaskState::Ready,
        priority,
        entry,
        stack_base,
        stack_size,
        context: crate::context::CpuContext {
            r15: 0,
            r14: 0,
            r13: 0,
            r12: entry,
            rbp: 0,
            rbx: 0,
            rsp: (stack_base + stack_size - 8) as u64,
        },
    }
}

/// Create a task and make it schedulable: assign the next task id, install
/// the control block with a prepared first context, and append the id to the
/// ready queue of its priority. `stack_base`/`stack_size` are the bounds of
/// the stack the caller allocated; a null base means that allocation failed.
#[verifier::rlimit(50)]
pub fn spawn_task(
    state: &mut SchedState,
    name: &'static str,
    entry: u64,
    priority: TaskPriority,
    stack_base: u64,
    stack_size: u64,
) -> (r: Result<TaskId, SpawnError>)
    requires
        old(state).wf(),
        stack_size >= 16,
        stack_base + stack_size <= u64::MAX,
    ensures
        final(state).wf(),
        old(state).next_tid >= MAX_TASKS ==> r == Err::<TaskId, SpawnError>(
            SpawnError::TooManyTasks,
        ) && sched_unchanged(*old(state), *final(state)),
        old(state).next_tid < MAX_TASKS && stack_base == 0 ==> r == Err::<TaskId, SpawnError>(
            SpawnError::OutOfMemory,
        ) && sched_unchanged(*old(state), *final(state)),
        old(state).next_tid < MAX_TASKS && stack_base != 0 ==> {
            let t = old(state).next_tid;
            let p = priority.spec_as_index() as int;
            &&& r == Ok::<TaskId, SpawnError>(t)
            &&& final(state).next_tid == t + 1
            &&& final(state).tasks@[t as int] == Some(
                spawned_task(t, name, entry, priority, stack_base, stack_size),
            )
            &&& forall|i: int|
                0 <= i < MAX_TASKS && i != t ==> final(state).tasks@[i] == old(state).tasks@[i]
            &&& final(state).q(p) == old(state).q(p).push(t)
            &&& forall|i: int| 0 <= i < 3 && i != p ==> final(state).q(i) == old(state).q(i)
            &&& final(state).sleepers() == old(state).sleepers()
            &&& final(state).current == old(state).current
            &&& final(state).tick_count() == old(state).tick_count()
            &&& final(state).priority_sched.preempt_disable_count == old(
                state,
            ).priority_sched.preempt_disable_count
        },
{
    let ghost s0 = *old(state);
    let task_id = state.next_tid;
    if task_id >= MAX_TASKS {
        return Err(SpawnError::TooManyTasks);
    }
    if stack_base == 0 {
        return Err(SpawnError::OutOfMemory);
    }
    let task = Task::new(task_id, name, entry, priority, stack_base, stack_size);
    state.tasks[task_id] = Some(task);
    state.next_tid = task_id + 1;
    proof {
        assert(s0.ready_total() <= s0.next_tid - 1);
        assert(s0.q(priority.spec_as_index() as int).len() < MAX_TASKS);
    }
    let ok = state.priority_sched.enqueue_task(task_id, priority);
    proof {
        assert(ok);
        let sf = *state;
        let p = priority.spec_as_index() as int;
        assert(sf.tasks@[task_id as int] == Some(
            spawned_task(task_id, name, entry, priority, stack_base, stack_size),
        ));
        // The fresh id appears nowhere yet, so after the push it appears
        // exactly once; every other id's counts are untouched.
        assert forall|id: TaskId| #[trigger] sf.ready_occ(id) == s0.ready_occ(id) + (if id
            == task_id {
            1int
        } else {
            0int
        }) by {
            lemma_occ_push(s0.q(p), task_id, id);
            if id == task_id {
                lemma_occ_member(s0.q(0), id, s0.q(0).len() as int);
                lemma_occ_member(s0.q(1), id, s0.q(1).len() as int);
                lemma_occ_member(s0.q(2), id, s0.q(2).len() as int);
            }
        }
        assert forall|id: TaskId| #[trigger] sf.sleep_occ(id) == s0.sleep_occ(id) by {}
        assert(s0.ready_occ(task_id) == 0) by {
            lemma_occ_member(s0.q(0), task_id, s0.q(0).len() as int);
            lemma_occ_member(s0.q(1), task_id, s0.q(1).len() as int);
            lemma_occ_member(s0.q(2), task_id, s0.q(2).len() as int);
        }
        assert(sf.sleep_occ(task_id) == 0) by {
            lemma_occ_sleep_member(s0.sleepers(), task_id, MAX_TASKS as int);
        }
        assert forall|id: TaskId| 1 <= id < sf.next_tid implies #[trigger] sf.task_partition(
            id,
        ) by {
            if id != task_id {
                assert(s0.task_partition(id));
                assert(sf.state_of(id as int) == s0.state_of(id as int));
            }
        }
        assert(sf.ready_occ(0) == 0 && sf.sleep_occ(0) == 0);
        assert(sf.ready_total() == s0.ready_total() + 1);
        assert(sf.running_flag() == s0.running_flag());
        assert(sf.population_ok());
        assert(sf.wf());
    }
    Ok(task_id)
}

/// Cooperative yield: one voluntary scheduling decision, exactly as a timer
/// tick would make it, without advancing the tick counter.
pub fn yield_now(state: &mut SchedState) -> (r: Option<(Option<TaskId>, TaskId)>)
    requires
        old(state).wf(),
    ensures
        final(state).wf(),
        final(state).current == Some(next_choice(*old(state))),
        final(state).next_tid == old(state).next_tid,
        final(state).sleepers() == old(state).sleepers(),
        final(state).tick_count() == old(state).tick_count(),
        final(state).priority_sched.preempt_disable_count == old(
            state,
        ).priority_sched.preempt_disable_count,
        forall|p: int| 0 <= p < 3 ==> final(state).q(p) == after_select_q(*old(state), p),
        forall|i: int|
            0 <= i < MAX_TASKS ==> final(state).tasks@[i] == sched_task_after(*old(state), i),
        r == (if old(state).current == Some(next_choice(*old(state))) {
            None::<(Option<TaskId>, TaskId)>
        } else {
            Some((old(state).current, next_choice(*old(state))))
        }),
{
    schedule_next(state)
}

/// Mark the running task `Sleeping` and record it in the sleep table, due
/// `ticks` from now at `priority`; the task is not re-enqueued. Fails (and
/// changes nothing — the task stays `Running`) exactly when the table is
/// full. The caller yields afterwards to give up the CPU.
#[verifier::rlimit(50)]
pub fn sleep_current_task(state: &mut SchedState, ticks: u64, priority: TaskPriority) -> (ok:
    bool)
    requires
        old(state).wf(),
        old(state).current is Some,
        old(state).current != Some(0usize),
        old(state).state_of(old(state).current.unwrap() as int) is Running,
        old(state).tick_count() + ticks <= u64::MAX,
    ensures
        final(state).wf(),
        ok <==> exists|j: int| 0 <= j < MAX_TASKS && !(#[trigger] old(state).sleepers()[j]).valid,
        !ok ==> sched_unchanged(*old(state), *final(state)),
        ok ==> {
            let c = old(state).current.unwrap();
            &&& exists|j: int|
                {
                    &&& 0 <= j < MAX_TASKS
                    &&& !(#[trigger] old(state).sleepers()[j]).valid
                    &&& final(state).sleepers() == old(state).sleepers().update(
                        j,
                        SleepingTask {
                            task_id: c,
                            wake_tick: (old(state).tick_count() + ticks) as u64,
                            priority,
                            valid: true,
                        },
                    )
                }
            &&& final(state).state_of(c as int) is Sleeping
            &&& final(state).tasks@[c as int] == Some(
                with_state(old(state).tasks@[c as int].unwrap(), TaskState::Sleeping),
            )
            &&& forall|i: int|
                0 <= i < MAX_TASKS && i != c ==> final(state).tasks@[i] == old(state).tasks@[i]
            &&& final(state).q(0) == old(state).q(0)
            &&& final(state).q(1) == old(state).q(1)
            &&& final(state).q(2) == old(state).q(2)
            &&& final(state).current == old(state).current
            &&& final(state).next_tid == old(state).next_tid
            &&& final(state).tick_count() == old(state).tick_count()
            &&& final(state).priority_sched.preempt_disable_count == old(
                state,
            ).priority_sched.preempt_disable_count
        },
{
    let ghost s0 = *old(state);
    let c = match state.current {
        Some(c) => c,
        None => {
            proof {
                assert(false);
            }
            0
        },
    };
    let ok = state.priority_sched.sleep_task(c, ticks, priority);
    if !ok {
        proof {
            let sf = *state;
            assert forall|id: TaskId| 1 <= id < sf.next_tid implies #[trigger] sf.task_partition(
                id,
            ) by {
                assert(s0.task_partition(id));
                assert(sf.ready_occ(id) == s0.ready_occ(id));
                assert(sf.sleep_occ(id) == s0.sleep_occ(id));
            }
            assert(sf.wf());
        }
        return false;
    }
    let tc = state.tasks[c];
    match tc {
        Some(mut t) => {
            t.state = TaskState::Sleeping;
            state.tasks[c] = Some(t);
        },
        None => {
            proof {
                assert(false);
            }
        },
    }
    proof {
        let sf = *state;
        let j = choose|j: int|
            0 <= j < MAX_TASKS && !(#[trigger] s0.sleepers()[j]).valid && sf.sleepers()
                == s0.sleepers().update(
                j,
                SleepingTask {
                    task_id: c,
                    wake_tick: (s0.tick_count() + ticks) as u64,
                    priority,
                    valid: true,
                },
            );
        let rec = SleepingTask {
            task_id: c,
            wake_tick: (s0.tick_count() + ticks) as u64,
            priority,
            valid: true,
        };
        assert forall|id: TaskId| #[trigger] sf.sleep_occ(id) == s0.sleep_occ(id) + (if id == c {
            1int
        } else {
            0int
        }) by {
            lemma_sleep_update(s0.sleepers(), j, rec, id, MAX_TASKS as int);
        }
        assert(valid_count(sf.sleepers()) == valid_count(s0.sleepers()) + 1) by {
            lemma_sleep_update(s0.sleepers(), j, rec, c, MAX_TASKS as int);
        }
        assert forall|id: TaskId| #[trigger] sf.ready_occ(id) == s0.ready_occ(id) by {}
        assert forall|id: TaskId| 1 <= id < sf.next_tid implies #[trigger] sf.task_partition(
            id,
        ) by {
            assert(s0.task_partition(id));
            if id != c {
                assert(sf.state_of(id as int) == s0.state_of(id as int));
            }
        }
        assert(sf.ready_occ(0) == 0 && sf.sleep_occ(0) == 0);
        assert(sf.ready_total() == s0.ready_total());
        assert(s0.running_flag() == 1);
        assert(sf.running_flag() == 0);
        assert(sf.population_ok());
        assert(sf.wf());
    }
    true
}

/// Boot-time smoke check: spawning a task puts it on a ready queue. These
/// checks are runnable from kernel setup code before interrupts are enabled;
/// each is verified to hold, so a `false` return is unreachable.
pub fn test_spawn_task_adds_to_runqueue() -> (ok: bool)
    ensures
        ok,
{
    let mut s = init_scheduler(0x1000, 0x10000, 4096);
    let r = spawn_task(&mut s, "test_task", 0x2000, TaskPriority::Normal, 0x20000, 4096);
    let n = s.priority_sched.len();
    match r {
        Ok(_) => n > 0,
        Err(_) => false,
    }
}

/// Boot-time smoke check: three spawned tasks give a run queue of three.
pub fn test_round_robin_selection() -> (ok: bool)
    ensures
        ok,
{
    let mut s = init_scheduler(0x1000, 0x10000, 4096);
    let a = spawn_task(&mut s, "task_a", 0x2000, TaskPriority::Normal, 0x20000, 4096);
    let b = spawn_task(&mut s, "task_b", 0x3000, TaskPriority::Normal, 0x30000, 4096);
    let c = spawn_task(&mut s, "task_c", 0x4000, TaskPriority::Normal, 0x40000, 4096);
    let n = s.priority_sched.len();
    match (a, b, c) {
        (Ok(_), Ok(_), Ok(_)) => n == 3,
        _ => false,
    }
}

/// Boot-time smoke check: with tasks spawned, the scheduler has work.
pub fn test_multiple_task_switching() -> (ok: bool)
    ensures
        ok,
{
    let mut s = init_scheduler(0x1000, 0x10000, 4096);
    let a = spawn_task(&mut s, "task_1", 0x2000, TaskPriority::Normal, 0x20000, 4096);
    let b = spawn_task(&mut s, "task_2", 0x3000, TaskPriority::Normal, 0x30000, 4096);
    let empty = s.priority_sched.is_empty();
    match (a, b) {
        (Ok(_), Ok(_)) => !empty,
        _ => false,
    }
}

/// Run every boot-time smoke check.
pub fn run_all_tests() -> (ok: bool)
    ensures
        ok,
{
    let a = test_spawn_task_adds_to_runqueue();
    let b = test_round_robin_selection();
    let c = test_multiple_task_switching();
    a && b && c
}

/// Whether a scheduling decision re-enqueues the outgoing task: there is a
/// current task, it is still `Running` (not sleeping or terminated), and it
/// is not the idle task, which never enters a ready queue.
pub open spec fn requeues(s: SchedState) -> bool {
    match s.current {
        Some(c) => c != 0 && s.state_of(c as int) is Running,
        None => false,
    }
}

/// Ready queue `p` after the outgoing task has been re-enqueued at the back
/// of its own priority's queue (if it is re-enqueued at all).
pub open spec fn after_requeue_q(s: SchedState, p: int) -> Seq<TaskId> {
    if requeues(s) && s.prio_of(s.current.unwrap() as int).spec_as_index() == p {
        s.q(p).push(s.current.unwrap())
    } else {
        s.q(p)
    }
}

/// Index of the highest non-empty ready queue after the re-enqueue, or -1.
pub open spec fn requeue_top(s: SchedState) -> int {
    if after_requeue_q(s, 2).len() > 0 {
        2
    } else if after_requeue_q(s, 1).len() > 0 {
        1
    } else if after_requeue_q(s, 0).len() > 0 {
        0
    } else {
        -1
    }
}

/// The task a scheduling decision hands the CPU to: the front of the
/// highest non-empty queue, or the idle task when every queue is empty.
pub open spec fn next_choice(s: SchedState) -> TaskId {
    if requeue_top(s) >= 0 {
        after_requeue_q(s, requeue_top(s))[0]
    } else {
        0
    }
}

/// Ready queue `p` after the whole decision: the selected task has left the
/// front of its queue.
pub open spec fn after_select_q(s: SchedState, p: int) -> Seq<TaskId> {
    if p == requeue_top(s) {
        after_requeue_q(s, p).drop_first()
    } else {
        after_requeue_q(s, p)
    }
}

/// Task-table slot `i` after the decision: the selected task is `Running`,
/// a re-enqueued (or idle) outgoing task is `Ready`, everything else is
/// untouched.
pub open spec fn sched_task_after(s: SchedState, i: int) -> Option<Task> {
    if i == next_choice(s) {
        Some(with_state(s.tasks@[i].unwrap(), TaskState::Running))
    } else if (match s.current {
        Some(c) => c == i && s.state_of(i) is Running,
        None => false,
    }) {
        Some(with_state(s.tasks@[i].unwrap(), TaskState::Ready))
    } else {
        s.tasks@[i]
    }
}

/// A scheduling decision preserves the scheduler invariant: re-enqueueing
/// the outgoing `Running` task, removing the selected task from its queue,
/// and the two state updates keep every task accounted for exactly once.
#[verifier::rlimit(100)]
proof fn lemma_schedule_wf(s0: SchedState, s1: SchedState, sf: SchedState, next: TaskId)
    requires
        s0.wf(),
        forall|p: int| 0 <= p < 3 ==> #[trigger] s1.q(p) == after_requeue_q(s0, p),
        forall|p: int| 0 <= p < 3 ==> #[trigger] sf.q(p) == after_select_q(s0, p),
        sf.sleepers() == s0.sleepers(),
        sf.priority_sched.wf(),
        sf.tasks@.len() == MAX_TASKS,
        sf.next_tid == s0.next_tid,
        next == next_choice(s0),
        sf.current == Some(next),
        forall|i: int| 0 <= i < MAX_TASKS ==> #[trigger] sf.tasks@[i] == sched_task_after(s0, i),
    ensures
        sf.wf(),
        next < s0.next_tid,
{
    let top = requeue_top(s0);
    if top >= 0 {
        assert(1 <= s1.q(top)[0] < s0.next_tid) by {
            if requeues(s0) && s0.prio_of(s0.current.unwrap() as int).spec_as_index() as int
                == top {
                if s0.q(top).len() > 0 {
                    assert(s1.q(top)[0] == s0.q(top)[0]);
                } else {
                    assert(s1.q(top)[0] == s0.current.unwrap());
                }
            } else {
            }
        }
        assert(1 <= next < s0.next_tid);
    }
    // Queue elements stay in range: a dropped front removes nothing new, a
    // pushed outgoing id is itself in range.
    assert forall|p: int, k: int| 0 <= p < 3 && 0 <= k < sf.q(p).len() implies 1 <= #[trigger] sf.q(
        p,
    )[k] < sf.next_tid by {
        if p == top {
            assert(sf.q(p)[k] == s1.q(p)[k + 1]);
        } else {
            assert(sf.q(p)[k] == s1.q(p)[k]);
        }
    }
    // Per-id occurrence bookkeeping across the re-enqueue and the removal.
    assert forall|id: TaskId| #[trigger] sf.ready_occ(id) + (if top >= 0 && id == next {
        1int
    } else {
        0int
    }) == s0.ready_occ(id) + (if requeues(s0) && id == s0.current.unwrap() {
        1int
    } else {
        0int
    }) by {
        if requeues(s0) {
            let c = s0.current.unwrap();
            let cp = s0.prio_of(c as int).spec_as_index() as int;
            lemma_occ_push(s0.q(cp), c, id);
        }
        if top >= 0 {
            lemma_occ_drop_first(s1.q(top), id);
        }
    }
    assert forall|id: TaskId| #[trigger] sf.sleep_occ(id) == s0.sleep_occ(id) by {}
    if top >= 0 {
        lemma_occ_member(s1.q(top), next, s1.q(top).len() as int);
        assert(s1.q(top)[0] == next && 0 <= 0 < s1.q(top).len());
        assert(occ(s1.q(top), next) >= 1);
        assert(sf.ready_occ(next) + 1 == s0.ready_occ(next) + (if requeues(s0) && next
            == s0.current.unwrap() {
            1int
        } else {
            0int
        }));
        if !(requeues(s0) && next == s0.current.unwrap()) {
            assert(occ(s1.q(top), next) == occ(s0.q(top), next)) by {
                if requeues(s0) {
                    let c = s0.current.unwrap();
                    let cp = s0.prio_of(c as int).spec_as_index() as int;
                    lemma_occ_push(s0.q(cp), c, next);
                }
            }
            assert(s0.ready_occ(next) >= 1);
        }
    }
    // Every spawned task is still accounted for exactly once.
    assert forall|id: TaskId| 1 <= id < sf.next_tid implies #[trigger] sf.task_partition(id) by {
        assert(s0.task_partition(id));
        if id == next {
            assert(sf.state_of(id as int) is Running);
            if requeues(s0) && id == s0.current.unwrap() {
                assert(sf.ready_occ(id) == 0);
            } else {
                assert(s0.ready_occ(id) >= 1);
                assert(s0.state_of(id as int) is Ready);
                assert(sf.ready_occ(id) == 0);
            }
            assert(sf.sleep_occ(id) == 0);
        } else {
            assert(sf.ready_occ(id) == s0.ready_occ(id) + (if requeues(s0) && id
                == s0.current.unwrap() {
                1int
            } else {
                0int
            }));
            if requeues(s0) && id == s0.current.unwrap() {
                assert(sf.state_of(id as int) is Ready);
                assert(sf.ready_occ(id) == 1);
            } else {
                assert(sf.state_of(id as int) == s0.state_of(id as int));
                if s0.state_of(id as int) is Running {
                    assert(s0.current == Some(id));
                    assert(requeues(s0));
                    assert(false);
                }
            }
        }
    }
    assert(sf.ready_occ(0) == 0 && sf.sleep_occ(0) == 0);
    // Population: each phase moves one unit between the categories.
    assert(sf.ready_total() + (if top >= 0 {
        1int
    } else {
        0int
    }) == s0.ready_total() + (if requeues(s0) {
        1int
    } else {
        0int
    }));
    assert(valid_count(sf.sleepers()) == valid_count(s0.sleepers()));
    if requeues(s0) {
        let cp = s0.prio_of(s0.current.unwrap() as int).spec_as_index() as int;
        assert(after_requeue_q(s0, cp).len() > 0);
        assert(top >= 0);
    }
    if top >= 0 {
        assert(sf.running_flag() == 1);
    } else {
        assert(next == 0);
        assert(sf.running_flag() == 0);
    }
    assert(sf.population_ok());
    assert(sf.wf());
}

/// One scheduling decision: re-enqueue the outgoing task if it is still
/// runnable, pick the front of the highest non-empty priority queue (idle
/// when none), mark it `Running` and make it current. Returns `None` when
/// the same task keeps the CPU; otherwise the pair to context-switch, where
/// a `None` outgoing side means this is the boot-time first dispatch.
#[verifier::rlimit(50)]
pub fn schedule_next(state: &mut SchedState) -> (r: Option<(Option<TaskId>, TaskId)>)
    requires
        old(state).wf(),
    ensures
        final(state).wf(),
        final(state).current == Some(next_choice(*old(state))),
        final(state).next_tid == old(state).next_tid,
        final(state).sleepers() == old(state).sleepers(),
        final(state).tick_count() == old(state).tick_count(),
        final(state).priority_sched.preempt_disable_count == old(
            state,
        ).priority_sched.preempt_disable_count,
        forall|p: int| 0 <= p < 3 ==> final(state).q(p) == after_select_q(*old(state), p),
        forall|i: int|
            0 <= i < MAX_TASKS ==> final(state).tasks@[i] == sched_task_after(*old(state), i),
        r == (if old(state).current == Some(next_choice(*old(state))) {
            None::<(Option<TaskId>, TaskId)>
        } else {
            Some((old(state).current, next_choice(*old(state))))
        }),
{
    let ghost s0 = *old(state);
    let old_current = state.current;
    match old_current {
        Some(c) => {
            let tc = state.tasks[c];
            match tc {
                Some(mut t) => {
                    if t.state == TaskState::Running {
                        t.state = TaskState::Ready;
                        state.tasks[c] = Some(t);
                        if c != 0 {
                            proof {
                                assert(s0.running_flag() == 1);
                                assert(s0.ready_total() <= s0.next_tid - 2);
                                assert(s0.q(t.priority.spec_as_index() as int).len()
                                    < MAX_TASKS);
                            }
                            let ok = state.priority_sched.enqueue_task(c, t.priority);
                            proof {
                                assert(ok);
                            }
                        }
                    }
                },
                None => {
                    proof {
                        assert(false);
                    }
                },
            }
        },
        None => {},
    }
    let ghost s1 = *state;
    proof {
        assert forall|p: int| 0 <= p < 3 implies #[trigger] s1.q(p) == after_requeue_q(s0, p) by {}
        assert(s1.priority_sched.top_priority() == requeue_top(s0));
    }
    let selected = state.priority_sched.select_next();
    let next = match selected {
        Some(n) => n,
        None => 0,
    };
    proof {
        assert(next == next_choice(s0));
        if requeue_top(s0) >= 0 {
            let tp = requeue_top(s0);
            assert(1 <= s1.q(tp)[0] < s0.next_tid) by {
                if requeues(s0) && s0.prio_of(s0.current.unwrap() as int).spec_as_index() as int
                    == tp {
                    if s0.q(tp).len() > 0 {
                        assert(s1.q(tp)[0] == s0.q(tp)[0]);
                    } else {
                        assert(s1.q(tp)[0] == s0.current.unwrap());
                    }
                } else {
                }
            }
        }
        assert(next < MAX_TASKS);
    }
    let tn = state.tasks[next];
    match tn {
        Some(mut t) => {
            t.state = TaskState::Running;
            state.tasks[next] = Some(t);
        },
        None => {
            proof {
                assert(false);
            }
        },
    }
    state.current = Some(next);
    proof {
        let sf = *state;
        assert forall|i: int| 0 <= i < MAX_TASKS implies #[trigger] sf.tasks@[i]
            == sched_task_after(s0, i) by {}
        assert forall|p: int| 0 <= p < 3 implies #[trigger] sf.q(p) == after_select_q(s0, p) by {}
        lemma_schedule_wf(s0, s1, sf, next);
    }
    match old_current {
        Some(c) => {
            if c == next {
                None
            } else {
                Some((old_current, next))
            }
        },
        None => Some((old_current, next)),
    }
}

/// The tick value after one timer tick.
pub open spec fn tick_now(s: SchedState) -> u64 {
    (s.tick_count() + 1) as u64
}

/// Whether the wake pass of the next tick releases task `id`.
pub open spec fn tick_woken(s: SchedState, id: TaskId) -> bool {
    woken_occ(s.sleepers(), tick_now(s), id) >= 1
}

/// Ready queue `p` after the wake pass of the next tick.
pub open spec fn tick_wake_q(s: SchedState, p: int) -> Seq<TaskId> {
    s.q(p) + woken_into(s.sleepers(), tick_now(s), p)
}

/// Task `i`'s state after the wake pass: woken sleepers are `Ready`.
pub open spec fn tick_state_mid(s: SchedState, i: int) -> TaskState {
    if tick_woken(s, i as usize) {
        TaskState::Ready
    } else {
        s.state_of(i)
    }
}

/// Whether the scheduling decision at the end of the tick re-enqueues the
/// outgoing task.
pub open spec fn tick_requeues(s: SchedState) -> bool {
    match s.current {
        Some(c) => c != 0 && tick_state_mid(s, c as int) is Running,
        None => false,
    }
}

/// Ready queue `p` after the wake pass and the re-enqueue.
pub open spec fn tick_requeue_q(s: SchedState, p: int) -> Seq<TaskId> {
    if tick_requeues(s) && s.prio_of(s.current.unwrap() as int).spec_as_index() == p {
        tick_wake_q(s, p).push(s.current.unwrap())
    } else {
        tick_wake_q(s, p)
    }
}

/// Index of the highest non-empty queue at the decision point, or -1.
pub open spec fn tick_top(s: SchedState) -> int {
    if tick_requeue_q(s, 2).len() > 0 {
        2
    } else if tick_requeue_q(s, 1).len() > 0 {
        1
    } else if tick_requeue_q(s, 0).len() > 0 {
        0
    } else {
        -1
    }
}

/// The task a preempting tick hands the CPU to.
pub open spec fn tick_next(s: SchedState) -> TaskId {
    if tick_top(s) >= 0 {
        tick_requeue_q(s, tick_top(s))[0]
    } else {
        0
    }
}

/// Ready queue `p` when the whole tick is over (preemption permitted).
pub open spec fn tick_final_q(s: SchedState, p: int) -> Seq<TaskId> {
    if p == tick_top(s) {
        tick_requeue_q(s, p).drop_first()
    } else {
        tick_requeue_q(s, p)
    }
}

/// Task-table slot `i` when the whole tick is over (preemption permitted).
pub open spec fn tick_task_after(s: SchedState, i: int) -> Option<Task> {
    if i == tick_next(s) {
        Some(with_state(s.tasks@[i].unwrap(), TaskState::Running))
    } else if (match s.current {
        Some(c) => c == i && tick_state_mid(s, i) is Running,
        None => false,
    }) {
        Some(with_state(s.tasks@[i].unwrap(), TaskState::Ready))
    } else if tick_woken(s, i as usize) {
        Some(with_state(s.tasks@[i].unwrap(), TaskState::Ready))
    } else {
        s.tasks@[i]
    }
}

/// One timer tick, called from the timer interrupt handler: advance the tick
/// counter by exactly one, wake every sleeper whose deadline has elapsed
/// (re-enqueued in slot order at their stored priorities), and, when
/// preemption is permitted, make one scheduling decision. The returned pair,
/// if any, is the context switch the handler must perform.
#[verifier::rlimit(100)]
pub fn tick(state: &mut SchedState) -> (r: Option<(Option<TaskId>, TaskId)>)
    requires
        old(state).wf(),
        old(state).tick_count() < u64::MAX,
    ensures
        final(state).wf(),
        final(state).tick_count() == old(state).tick_count() + 1,
        final(state).next_tid == old(state).next_tid,
        final(state).priority_sched.preempt_disable_count == old(
            state,
        ).priority_sched.preempt_disable_count,
        final(state).sleepers() == inval_expired(old(state).sleepers(), tick_now(*old(state))),
        old(state).priority_sched.preempt_disable_count != 0 ==> {
            &&& final(state).current == old(state).current
            &&& forall|p: int| 0 <= p < 3 ==> final(state).q(p) == tick_wake_q(*old(state), p)
            &&& forall|i: int|
                0 <= i < MAX_TASKS ==> final(state).tasks@[i] == (if tick_woken(
                    *old(state),
                    i as usize,
                ) {
                    Some(with_state(old(state).tasks@[i].unwrap(), TaskState::Ready))
                } else {
                    old(state).tasks@[i]
                })
            &&& r is None
        },
        old(state).priority_sched.preempt_disable_count == 0 ==> {
            &&& final(state).current == Some(tick_next(*old(state)))
            &&& forall|p: int| 0 <= p < 3 ==> final(state).q(p) == tick_final_q(*old(state), p)
            &&& forall|i: int|
                0 <= i < MAX_TASKS ==> final(state).tasks@[i] == tick_task_after(*old(state), i)
            &&& r == (if old(state).current == Some(tick_next(*old(state))) {
                None::<(Option<TaskId>, TaskId)>
            } else {
                Some((old(state).current, tick_next(*old(state))))
            })
        },
{
    let ghost s0 = *old(state);
    let ghost now = tick_now(s0);
    state.priority_sched.tick();
    proof {
        lemma_wake_lens(s0.sleepers(), now, MAX_TASKS as int);
        assert forall|p: int|
            0 <= p < 3 implies state.priority_sched.q(p).len() + woken_into(
            state.priority_sched.sleepers(),
            state.priority_sched.current_tick,
            p,
        ).len() <= MAX_TASKS by {
            assert(woken_into(s0.sleepers(), now, p).len() <= woken_ids(
                s0.sleepers(),
                now,
            ).len());
            assert(woken_ids(s0.sleepers(), now).len() <= valid_count(s0.sleepers()));
            assert(s0.q(p).len() + valid_count(s0.sleepers()) <= s0.next_tid - 1);
        }
    }
    let woken = state.priority_sched.wake_collect();
    let ghost w = woken@;
    proof {
        assert(w == woken_ids(s0.sleepers(), now));
        assert forall|id: TaskId| #[trigger] occ(w, id) == woken_occ(s0.sleepers(), now, id) by {
            lemma_wake_counts(s0.sleepers(), now, id, MAX_TASKS as int);
        }
    }
    let ghost sw = *state;
    let mut k: usize = 0;
    while k < woken.len()
        invariant
            k <= w.len(),
            woken@ == w,
            s0.wf(),
            w == woken_ids(s0.sleepers(), now),
            forall|id: TaskId| #[trigger] occ(w, id) == woken_occ(s0.sleepers(), now, id),
            state.priority_sched == sw.priority_sched,
            state.current == s0.current,
            state.next_tid == s0.next_tid,
            state.tasks@.len() == MAX_TASKS,
            sw.tasks@ == s0.tasks@,
            forall|i: int|
                0 <= i < MAX_TASKS ==> state.tasks@[i] == (if crate::counting::occ_upto(
                    w,
                    i as usize,
                    k as int,
                ) >= 1 {
                    Some(with_state(s0.tasks@[i].unwrap(), TaskState::Ready))
                } else {
                    s0.tasks@[i]
                }),
        decreases w.len() - k,
    {
        let id = woken[k];
        proof {
            lemma_occ_member(w, id, w.len() as int);
            assert(0 <= k < w.len() && w[k as int] == id);
            assert(occ(w, id) >= 1);
            assert(woken_occ(s0.sleepers(), now, id) >= 1);
            lemma_wake_counts(s0.sleepers(), now, id, MAX_TASKS as int);
            assert(occ_sleep(s0.sleepers(), id) >= 1);
            lemma_occ_sleep_member(s0.sleepers(), id, MAX_TASKS as int);
            assert(1 <= id < s0.next_tid);
        }
        let t = state.tasks[id];
        match t {
            Some(mut task) => {
                task.state = TaskState::Ready;
                state.tasks[id] = Some(task);
            },
            None => {
                proof {
                    assert(false);
                }
            },
        }
        k = k + 1;
        proof {
            assert forall|i: int| 0 <= i < MAX_TASKS implies state.tasks@[i] == (
            if crate::counting::occ_upto(w, i as usize, k as int) >= 1 {
                Some(with_state(s0.tasks@[i].unwrap(), TaskState::Ready))
            } else {
                s0.tasks@[i]
            }) by {
                assert(crate::counting::occ_upto(w, i as usize, k as int)
                    == crate::counting::occ_upto(w, i as usize, k - 1) + (if w[k - 1] == i {
                    1nat
                } else {
                    0nat
                }));
            }
        }
    }
    let ghost mid = *state;
    proof {
        assert forall|i: int| 0 <= i < MAX_TASKS implies #[trigger] mid.tasks@[i] == (
        if tick_woken(s0, i as usize) {
            Some(with_state(s0.tasks@[i].unwrap(), TaskState::Ready))
        } else {
            s0.tasks@[i]
        }) by {
            assert(crate::counting::occ_upto(w, i as usize, w.len() as int) == occ(w, i as usize));
            assert(occ(w, i as usize) == woken_occ(s0.sleepers(), now, i as usize));
        }
        lemma_tick_mid_wf(s0, mid, w);
    }
    if state.priority_sched.can_preempt() {
        let r = schedule_next(state);
        proof {
            lemma_tick_mid_maps(s0, mid);
            let sf = *state;
            assert forall|p: int| 0 <= p < 3 implies #[trigger] sf.q(p) == tick_final_q(s0, p) by {
                assert(sf.q(p) == after_select_q(mid, p));
            }
            assert forall|i: int| 0 <= i < MAX_TASKS implies #[trigger] sf.tasks@[i]
                == tick_task_after(s0, i) by {
                assert(sf.tasks@[i] == sched_task_after(mid, i));
            }
        }
        r
    } else {
        None
    }
}

/// After the wake pass and the state fix-up, the scheduler invariant holds
/// again: each woken task moved from its sleep slot to exactly one queue
/// position and is `Ready`.
#[verifier::rlimit(100)]
proof fn lemma_tick_mid_wf(s0: SchedState, mid: SchedState, w: Seq<TaskId>)
    requires
        s0.wf(),
        s0.tick_count() < u64::MAX,
        w == woken_ids(s0.sleepers(), tick_now(s0)),
        mid.priority_sched.wf(),
        mid.tasks@.len() == MAX_TASKS,
        mid.current == s0.current,
        mid.next_tid == s0.next_tid,
        mid.tick_count() == tick_now(s0),
        mid.priority_sched.preempt_disable_count == s0.priority_sched.preempt_disable_count,
        mid.sleepers() == inval_expired(s0.sleepers(), tick_now(s0)),
        forall|p: int| 0 <= p < 3 ==> #[trigger] mid.q(p) == tick_wake_q(s0, p),
        forall|i: int|
            0 <= i < MAX_TASKS ==> #[trigger] mid.tasks@[i] == (if tick_woken(s0, i as usize) {
                Some(with_state(s0.tasks@[i].unwrap(), TaskState::Ready))
            } else {
                s0.tasks@[i]
            }),
    ensures
        mid.wf(),
{
    let now = tick_now(s0);
    lemma_wake_lens(s0.sleepers(), now, MAX_TASKS as int);
    // Occurrence bookkeeping: each id moves from the sleep table to the
    // queues as often as it was due — at most once, by the old invariant.
    assert forall|id: TaskId| #[trigger] mid.ready_occ(id) == s0.ready_occ(id) + woken_occ(
        s0.sleepers(),
        now,
        id,
    ) by {
        lemma_wake_counts(s0.sleepers(), now, id, MAX_TASKS as int);
        lemma_occ_concat(s0.q(0), woken_into(s0.sleepers(), now, 0), id);
        lemma_occ_concat(s0.q(1), woken_into(s0.sleepers(), now, 1), id);
        lemma_occ_concat(s0.q(2), woken_into(s0.sleepers(), now, 2), id);
    }
    assert forall|id: TaskId| #[trigger] mid.sleep_occ(id) + woken_occ(s0.sleepers(), now, id)
        == s0.sleep_occ(id) by {
        lemma_wake_counts(s0.sleepers(), now, id, MAX_TASKS as int);
    }
    assert forall|id: TaskId| tick_woken(s0, id) implies 1 <= id < s0.next_tid && s0.state_of(
        id as int,
    ) is Sleeping && woken_occ(s0.sleepers(), now, id) == 1 by {
        lemma_wake_counts(s0.sleepers(), now, id, MAX_TASKS as int);
        lemma_occ_sleep_member(s0.sleepers(), id, MAX_TASKS as int);
        assert(occ_sleep(s0.sleepers(), id) >= 1);
        assert(1 <= id < s0.next_tid);
        assert(s0.task_partition(id));
        if !(s0.state_of(id as int) is Sleeping) {
            assert(s0.sleep_occ(id) == 0);
            assert(false);
        }
    }
    // Queue elements stay in range.
    assert forall|p: int, k: int| 0 <= p < 3 && 0 <= k < mid.q(p).len() implies 1 <= #[trigger] mid.q(
        p,
    )[k] < mid.next_tid by {
        let wq = woken_into(s0.sleepers(), now, p);
        if k < s0.q(p).len() {
            assert(mid.q(p)[k] == s0.q(p)[k]);
        } else {
            let e = wq[k - s0.q(p).len()];
            assert(mid.q(p)[k] == e);
            lemma_occ_member(wq, e, wq.len() as int);
            assert(occ(wq, e) >= 1);
            lemma_wake_counts(s0.sleepers(), now, e, MAX_TASKS as int);
            assert(woken_occ(s0.sleepers(), now, e) >= 1);
            lemma_occ_sleep_member(s0.sleepers(), e, MAX_TASKS as int);
            assert(occ_sleep(s0.sleepers(), e) >= 1);
        }
    }
    // The partition is restored for every spawned task.
    assert forall|id: TaskId| 1 <= id < mid.next_tid implies #[trigger] mid.task_partition(id) by {
        assert(s0.task_partition(id));
        assert(mid.ready_occ(id) == s0.ready_occ(id) + woken_occ(s0.sleepers(), now, id));
        assert(mid.sleep_occ(id) + woken_occ(s0.sleepers(), now, id) == s0.sleep_occ(id));
        if tick_woken(s0, id) {
            assert(mid.state_of(id as int) is Ready);
            assert(mid.ready_occ(id) == 1);
            assert(mid.sleep_occ(id) == 0);
        } else {
            assert(woken_occ(s0.sleepers(), now, id) == 0) by {
                lemma_wake_counts(s0.sleepers(), now, id, MAX_TASKS as int);
            }
            assert(mid.state_of(id as int) == s0.state_of(id as int));
        }
    }
    assert(!tick_woken(s0, 0)) by {
        lemma_wake_counts(s0.sleepers(), now, 0, MAX_TASKS as int);
    }
    assert(mid.ready_occ(0) == s0.ready_occ(0) + woken_occ(s0.sleepers(), now, 0));
    assert(mid.sleep_occ(0) + woken_occ(s0.sleepers(), now, 0) == s0.sleep_occ(0));
    assert(mid.ready_occ(0) == 0 && mid.sleep_occ(0) == 0);
    assert(mid.state_of(0) == s0.state_of(0));
    // Population: units move from the sleep table to the queues, none is
    // created or lost.
    assert(mid.ready_total() == s0.ready_total() + w.len());
    assert(valid_count(mid.sleepers()) + w.len() == valid_count(s0.sleepers()));
    assert(mid.running_flag() == s0.running_flag()) by {
        match s0.current {
            Some(c) => {
                if 1 <= c < s0.next_tid && s0.state_of(c as int) is Running {
                    assert(!tick_woken(s0, c));
                    assert(mid.state_of(c as int) is Running);
                } else {
                    if 1 <= c < s0.next_tid && mid.state_of(c as int) is Running {
                        assert(!tick_woken(s0, c));
                        assert(false);
                    }
                }
            },
            None => {},
        }
    }
    assert(mid.population_ok());
    assert(mid.wf());
}

/// The scheduling decision the tick makes on the post-wake state is exactly
/// the decision the tick model predicts from the pre-tick state.
proof fn lemma_tick_mid_maps(s0: SchedState, mid: SchedState)
    requires
        s0.wf(),
        mid.current == s0.current,
        mid.next_tid == s0.next_tid,
        mid.tasks@.len() == MAX_TASKS,
        forall|p: int| 0 <= p < 3 ==> #[trigger] mid.q(p) == tick_wake_q(s0, p),
        forall|i: int|
            0 <= i < MAX_TASKS ==> #[trigger] mid.tasks@[i] == (if tick_woken(s0, i as usize) {
                Some(with_state(s0.tasks@[i].unwrap(), TaskState::Ready))
            } else {
                s0.tasks@[i]
            }),
    ensures
        requeues(mid) == tick_requeues(s0),
        forall|p: int| 0 <= p < 3 ==> #[trigger] after_requeue_q(mid, p) == tick_requeue_q(s0, p),
        requeue_top(mid) == tick_top(s0),
        next_choice(mid) == tick_next(s0),
        forall|p: int| 0 <= p < 3 ==> #[trigger] after_select_q(mid, p) == tick_final_q(s0, p),
        forall|i: int|
            0 <= i < MAX_TASKS ==> #[trigger] sched_task_after(mid, i) == tick_task_after(s0, i),
{
    match s0.current {
        Some(c) => {
            assert(c < s0.next_tid <= MAX_TASKS);
            assert(mid.state_of(c as int) == tick_state_mid(s0, c as int));
            assert(mid.prio_of(c as int) == s0.prio_of(c as int));
        },
        None => {},
    }
    assert(requeues(mid) == tick_requeues(s0));
    assert forall|p: int| 0 <= p < 3 implies #[trigger] after_requeue_q(mid, p) == tick_requeue_q(
        s0,
        p,
    ) by {}
    assert(requeue_top(mid) == tick_top(s0));
    assert(next_choice(mid) == tick_next(s0));
    assert forall|i: int| 0 <= i < MAX_TASKS implies #[trigger] sched_task_after(mid, i)
        == tick_task_after(s0, i) by {
        if i == next_choice(mid) {
            assert(with_state(mid.tasks@[i].unwrap(), TaskState::Running) == with_state(
                s0.tasks@[i].unwrap(),
                TaskState::Running,
            ));
        }
    }
}

/// A snapshot of the running task's id and priority, for system calls.
pub fn get_current_task_info(state: &SchedState) -> (r: Option<(TaskId, TaskPriority)>)
    requires
        state.wf(),
    ensures
        match state.current {
            None => r is None,
            Some(c) => r == Some((c, state.prio_of(c as int))),
        },
{
    match state.current {
        None => None,
        Some(c) => {
            let t = state.tasks[c];
            match t {
                Some(task) => Some((c, task.priority)),
                None => {
                    proof {
                        assert(false);
                    }
                    None
                },
            }
        },
    }
}

} // verus!

