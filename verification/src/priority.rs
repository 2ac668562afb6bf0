//! Priority-based ready-queue bank with sleep/wake support.
//!
//! Three bounded FIFO queues of task ids, one per priority level, with a
//! bitmap that records which queues are non-empty, plus a fixed-capacity
//! table of sleeping tasks and the scheduler's tick and preemption counters.

use vstd::prelude::*;
use crate::task::TaskId;
use crate::task::MAX_TASKS;

verus! {

/// Task priority levels, lowest first. The level doubles as the index of the
/// ready queue that serves it.
#[derive(Debug, Clone, Copy, PartialEq, Eq, Structural)]
pub enum TaskPriority {
    Low,
    Normal,
    High,
}

impl TaskPriority {
    /// Queue index of this priority level: `Low` is 0, `Normal` 1, `High` 2.
    pub open spec fn spec_as_index(self) -> usize {
        match self {
            TaskPriority::Low => 0,
            TaskPriority::Normal => 1,
            TaskPriority::High => 2,
        }
    }

    /// Convert priority to queue index.
    #[verifier::when_used_as_spec(spec_as_index)]
    pub fn as_index(self) -> (i: usize)
        ensures
            i == self.spec_as_index(),
            i < 3,
    {
        match self {
            TaskPriority::Low => 0,
            TaskPriority::Normal => 1,
            TaskPriority::High => 2,
        }
    }
}

impl Default for TaskPriority {
    fn default() -> (p: Self)
        ensures
            p == TaskPriority::Normal,
    {
        TaskPriority::Normal
    }
}

/// Position `i` wrapped into the circular buffer: callers only form positions
/// below twice the capacity, so a single conditional subtraction suffices.
pub open spec fn wrapped(i: int) -> int {
    if i < MAX_TASKS {
        i
    } else {
        i - MAX_TASKS
    }
}

proof fn lemma_wrapped_mod(x: nat)
    requires
        x < 2 * MAX_TASKS,
    ensures
        x % (MAX_TASKS as nat) == wrapped(x as int),
{
    if x < MAX_TASKS {
        vstd::arithmetic::div_mod::lemma_small_mod(x, MAX_TASKS as nat);
    } else {
        vstd::arithmetic::div_mod::lemma_mod_multiples_vanish(
            1,
            x - MAX_TASKS,
            MAX_TASKS as int,
        );
        vstd::arithmetic::div_mod::lemma_small_mod((x - MAX_TASKS) as nat, MAX_TASKS as nat);
    }
}

/// Bounded FIFO queue of task ids, a circular buffer of capacity `MAX_TASKS`.
/// Its view is the sequence of queued ids, front first.
pub struct TaskQueue {
    pub tasks: Vec<TaskId>,
    pub head: usize,
    pub tail: usize,
    pub count: usize,
}

impl View for TaskQueue {
    type V = Seq<TaskId>;

    open spec fn view(&self) -> Seq<TaskId> {
        Seq::new(self.count as nat, |i: int| self.tasks@[wrapped(self.head + i)])
    }
}

impl TaskQueue {
    pub open spec fn wf(self) -> bool {
        &&& self.tasks@.len() == MAX_TASKS
        &&& self.head < MAX_TASKS
        &&& self.count <= MAX_TASKS
        &&& self.tail == wrapped(self.head + self.count)
    }

    pub fn new() -> (q: TaskQueue)
        ensures
            q.wf(),
            q@ == Seq::<TaskId>::empty(),
    {
        let mut tasks: Vec<TaskId> = Vec::new();
        while tasks.len() < MAX_TASKS
            invariant
                tasks@.len() <= MAX_TASKS,
            decreases MAX_TASKS - tasks@.len(),
        {
            tasks.push(0);
        }
        let q = TaskQueue { tasks, head: 0, tail: 0, count: 0 };
        proof {
            assert(q@ =~= Seq::<TaskId>::empty());
        }
        q
    }

    /// Append an id at the back; fails exactly when the queue is full.
    pub fn push_back(&mut self, task_id: TaskId) -> (ok: bool)
        requires
            old(self).wf(),
        ensures
            final(self).wf(),
            ok <==> old(self)@.len() < MAX_TASKS,
            ok ==> final(self)@ == old(self)@.push(task_id),
            !ok ==> *final(self) == *old(self),
    {
        if self.count >= MAX_TASKS {
            return false;
        }
        let ghost pre = *self;
        self.tasks[self.tail] = task_id;
        self.tail = (self.tail + 1) % MAX_TASKS;
        self.count = self.count + 1;
        proof {
            lemma_wrapped_mod((pre.tail + 1) as nat);
            assert(self@ =~= pre@.push(task_id));
        }
        true
    }

    /// Remove and return the front id; `None` exactly when the queue is empty.
    pub fn pop_front(&mut self) -> (r: Option<TaskId>)
        requires
            old(self).wf(),
        ensures
            final(self).wf(),
            old(self)@.len() == 0 ==> r is None && *final(self) == *old(self),
            old(self)@.len() > 0 ==> r == Some(old(self)@[0]) && final(self)@ == old(
                self,
            )@.drop_first(),
    {
        if self.count == 0 {
            return None;
        }
        let ghost pre = *self;
        let task_id = self.tasks[self.head];
        self.head = (self.head + 1) % MAX_TASKS;
        self.count = self.count - 1;
        proof {
            lemma_wrapped_mod((pre.head + 1) as nat);
            assert(self@ =~= pre@.drop_first());
        }
        Some(task_id)
    }

    pub fn len(&self) -> (n: usize)
        ensures
            n == self@.len(),
    {
        self.count
    }

    pub fn is_empty(&self) -> (r: bool)
        ensures
            r <==> self@.len() == 0,
    {
        self.count == 0
    }

    /// Reset to an empty queue.
    pub fn clear(&mut self)
        requires
            old(self).wf(),
        ensures
            final(self).wf(),
            final(self)@ == Seq::<TaskId>::empty(),
    {
        self.head = 0;
        self.tail = 0;
        self.count = 0;
        proof {
            assert(self@ =~= Seq::<TaskId>::empty());
        }
    }
}

/// One slot of the sleep table. The task's priority is duplicated here so
/// that waking re-enqueues at the priority the task slept with, without a
/// fresh read of its control block.
#[derive(Debug, Clone, Copy, PartialEq, Eq, Structural)]
pub struct SleepingTask {
    pub task_id: TaskId,
    pub wake_tick: u64,
    pub priority: TaskPriority,
    pub valid: bool,
}

impl SleepingTask {
    pub fn empty() -> (s: SleepingTask)
        ensures
            s.task_id == 0,
            s.wake_tick == 0,
            s.priority == TaskPriority::Normal,
            !s.valid,
    {
        SleepingTask { task_id: 0, wake_tick: 0, priority: TaskPriority::Normal, valid: false }
    }
}

/// Whether a slot holds a task that is due at tick `now`.
pub open spec fn slot_expired(r: SleepingTask, now: u64) -> bool {
    r.valid && r.wake_tick <= now
}

/// The slot with its valid flag cleared, other fields kept.
pub open spec fn cleared(r: SleepingTask) -> SleepingTask {
    SleepingTask { task_id: r.task_id, wake_tick: r.wake_tick, priority: r.priority, valid: false }
}

/// The sleep table after a wake pass at tick `now`: every expired slot is
/// invalidated, every other slot kept as it was.
pub open spec fn inval_expired(s: Seq<SleepingTask>, now: u64) -> Seq<SleepingTask> {
    Seq::new(s.len(), |j: int| if slot_expired(s[j], now) { cleared(s[j]) } else { s[j] })
}

/// Ids of the tasks in the first `n` slots that are due at tick `now`, in
/// slot order.
pub open spec fn woken_ids_upto(s: Seq<SleepingTask>, now: u64, n: int) -> Seq<TaskId>
    decreases n,
{
    if n <= 0 {
        Seq::empty()
    } else {
        woken_ids_upto(s, now, n - 1) + if slot_expired(s[n - 1], now) {
            seq![s[n - 1].task_id]
        } else {
            Seq::empty()
        }
    }
}

/// Ids of all tasks due at tick `now`, in slot order.
pub open spec fn woken_ids(s: Seq<SleepingTask>, now: u64) -> Seq<TaskId> {
    woken_ids_upto(s, now, s.len() as int)
}

/// Ids among the first `n` slots that are due at tick `now` and slept at the
/// priority with queue index `p`, in slot order.
pub open spec fn woken_into_upto(s: Seq<SleepingTask>, now: u64, p: int, n: int) -> Seq<TaskId>
    decreases n,
{
    if n <= 0 {
        Seq::empty()
    } else {
        woken_into_upto(s, now, p, n - 1) + if slot_expired(s[n - 1], now) && s[n
            - 1].priority.spec_as_index() == p {
            seq![s[n - 1].task_id]
        } else {
            Seq::empty()
        }
    }
}

/// Ids of all tasks due at tick `now` that slept at priority index `p`, in
/// slot order: what a wake pass appends to ready queue `p`.
pub open spec fn woken_into(s: Seq<SleepingTask>, now: u64, p: int) -> Seq<TaskId> {
    woken_into_upto(s, now, p, s.len() as int)
}

proof fn lemma_woken_into_upto_mono(s: Seq<SleepingTask>, now: u64, p: int, n: int, m: int)
    requires
        n <= m,
    ensures
        woken_into_upto(s, now, p, n).len() <= woken_into_upto(s, now, p, m).len(),
    decreases m - n,
{
    if n < m {
        lemma_woken_into_upto_mono(s, now, p, n, m - 1);
    }
}

/// Whether bit `i` of the bitmap is set.
pub open spec fn nth_bit(b: u8, i: u8) -> bool {
    b & (1u8 << i) != 0
}

proof fn lemma_bit_or(b: u8, i: u8)
    requires
        i < 3,
        b < 8,
    ensures
        (b | (1u8 << i)) < 8,
        forall|j: u8| j < 3 ==> (nth_bit(b | (1u8 << i), j) <==> (nth_bit(b, j) || i == j)),
{
    assert((b | (1u8 << i)) < 8) by (bit_vector)
        requires
            i < 3,
            b < 8,
    ;
    assert forall|j: u8| j < 3 implies (nth_bit(b | (1u8 << i), j) <==> (nth_bit(b, j) || i
        == j)) by {
        assert((((b | (1u8 << i)) & (1u8 << j)) != 0) <==> (((b & (1u8 << j)) != 0) || i == j))
            by (bit_vector)
            requires
                i < 3,
                j < 3,
        ;
    }
}

proof fn lemma_bit_clear(b: u8, i: u8)
    requires
        i < 3,
        b < 8,
    ensures
        (b & !(1u8 << i)) < 8,
        forall|j: u8| j < 3 ==> (nth_bit(b & !(1u8 << i), j) <==> (nth_bit(b, j) && i != j)),
{
    assert((b & !(1u8 << i)) < 8) by (bit_vector)
        requires
            i < 3,
            b < 8,
    ;
    assert forall|j: u8| j < 3 implies (nth_bit(b & !(1u8 << i), j) <==> (nth_bit(b, j) && i
        != j)) by {
        assert((((b & !(1u8 << i)) & (1u8 << j)) != 0) <==> (((b & (1u8 << j)) != 0) && i != j))
            by (bit_vector)
            requires
                i < 3,
                j < 3,
        ;
    }
}

proof fn lemma_bit_zero(b: u8)
    requires
        b < 8,
    ensures
        (b == 0) <==> (!nth_bit(b, 0) && !nth_bit(b, 1) && !nth_bit(b, 2)),
{
    assert((b == 0) <==> ((b & (1u8 << 0u8) == 0) && (b & (1u8 << 1u8) == 0) && (b & (1u8 << 2u8)
        == 0))) by (bit_vector)
        requires
            b < 8,
    ;
}

/// Priority scheduler: one ready queue per priority level, the non-empty
/// bitmap, the sleep table, the current tick and the preemption counter.
pub struct PriorityScheduler {
    /// Ready queues, indexed Low = 0, Normal = 1, High = 2. Always 3 of them.
    pub ready_queues: Vec<TaskQueue>,
    /// Bit `i` is set exactly when `ready_queues[i]` is non-empty; bits 3..8
    /// stay clear.
    pub non_empty_queues: u8,
    /// Fixed-size sleep table; invalid slots are free.
    pub sleeping: Vec<SleepingTask>,
    /// Monotonically increasing tick counter.
    pub current_tick: u64,
    /// Preemption is permitted exactly when this is zero.
    pub preempt_disable_count: usize,
}

impl PriorityScheduler {
    /// Contents of ready queue `p`, front first.
    pub open spec fn q(self, p: int) -> Seq<TaskId> {
        self.ready_queues@[p]@
    }

    /// The sleep table's slots.
    pub open spec fn sleepers(self) -> Seq<SleepingTask> {
        self.sleeping@
    }

    /// Index of the highest non-empty ready queue, or -1 if all are empty:
    /// the queue the next task is taken from.
    pub open spec fn top_priority(self) -> int {
        if self.q(2).len() > 0 {
            2
        } else if self.q(1).len() > 0 {
            1
        } else if self.q(0).len() > 0 {
            0
        } else {
            -1
        }
    }

    /// Well-formedness: three well-formed queues, a full-length sleep table,
    /// and a bitmap whose bit `p` is set exactly when queue `p` is non-empty.
    pub open spec fn wf(self) -> bool {
        &&& self.ready_queues@.len() == 3
        &&& forall|i: int| 0 <= i < 3 ==> (#[trigger] self.ready_queues@[i]).wf()
        &&& self.sleeping@.len() == MAX_TASKS
        &&& self.non_empty_queues < 8
        &&& forall|i: u8|
            i < 3 ==> (nth_bit(self.non_empty_queues, i) <==> self.q(i as int).len() > 0)
    }

    /// All queues empty, sleep table all free, tick and preemption counter
    /// zero.
    pub fn new() -> (s: PriorityScheduler)
        ensures
            s.wf(),
            s.q(0) == Seq::<TaskId>::empty(),
            s.q(1) == Seq::<TaskId>::empty(),
            s.q(2) == Seq::<TaskId>::empty(),
            forall|j: int| 0 <= j < MAX_TASKS ==> !(#[trigger] s.sleepers()[j]).valid,
            s.current_tick == 0,
            s.preempt_disable_count == 0,
            s.non_empty_queues == 0,
    {
        let mut ready_queues: Vec<TaskQueue> = Vec::new();
        ready_queues.push(TaskQueue::new());
        ready_queues.push(TaskQueue::new());
        ready_queues.push(TaskQueue::new());
        let mut sleeping: Vec<SleepingTask> = Vec::new();
        while sleeping.len() < MAX_TASKS
            invariant
                sleeping@.len() <= MAX_TASKS,
                forall|j: int| 0 <= j < sleeping@.len() ==> !(#[trigger] sleeping@[j]).valid,
            decreases MAX_TASKS - sleeping@.len(),
        {
            sleeping.push(SleepingTask::empty());
        }
        let s = PriorityScheduler {
            ready_queues,
            non_empty_queues: 0,
            sleeping,
            current_tick: 0,
            preempt_disable_count: 0,
        };
        proof {
            assert(0u8 & (1u8 << 0u8) == 0 && 0u8 & (1u8 << 1u8) == 0 && 0u8 & (1u8 << 2u8) == 0)
                by (bit_vector);
            assert forall|i: u8| i < 3 implies (nth_bit(s.non_empty_queues, i) <==> s.q(
                i as int,
            ).len() > 0) by {
                assert(nth_bit(0u8, i) == (0u8 & (1u8 << i) != 0));
                assert(0u8 & (1u8 << i) == 0) by (bit_vector);
            }
        }
        s
    }

    /// Append a task id to the queue of its priority level and mark that
    /// queue non-empty. Fails exactly when that queue is already full.
    pub fn enqueue_task(&mut self, task_id: TaskId, priority: TaskPriority) -> (ok: bool)
        requires
            old(self).wf(),
        ensures
            final(self).wf(),
            ok <==> old(self).q(priority.spec_as_index() as int).len() < MAX_TASKS,
            ok ==> final(self).q(priority.spec_as_index() as int) == old(self).q(
                priority.spec_as_index() as int,
            ).push(task_id),
            forall|i: int|
                0 <= i < 3 && i != priority.spec_as_index() ==> final(self).q(i) == old(self).q(i),
            !ok ==> final(self).q(priority.spec_as_index() as int) == old(self).q(
                priority.spec_as_index() as int,
            ),
            final(self).sleepers() == old(self).sleepers(),
            final(self).current_tick == old(self).current_tick,
            final(self).preempt_disable_count == old(self).preempt_disable_count,
    {
        let index = priority.as_index();
        let ghost b0 = self.non_empty_queues;
        let success = self.ready_queues[index].push_back(task_id);
        if success {
            self.non_empty_queues = self.non_empty_queues | (1u8 << (index as u8));
            proof {
                lemma_bit_or(b0, index as u8);
                assert forall|j: u8| j < 3 implies (nth_bit(self.non_empty_queues, j) <==> self.q(
                    j as int,
                ).len() > 0) by {
                    assert(nth_bit(b0, j) <==> old(self).q(j as int).len() > 0);
                    if j == index as u8 {
                        assert(self.q(j as int).len() > 0);
                    } else {
                        assert(self.q(j as int) == old(self).q(j as int));
                    }
                }
            }
        }
        success
    }

    /// Remove and return the front of the highest-priority non-empty queue,
    /// clearing its bitmap bit if it drains; `None` exactly when every queue
    /// is empty.
    pub fn select_next(&mut self) -> (r: Option<TaskId>)
        requires
            old(self).wf(),
        ensures
            final(self).wf(),
            old(self).top_priority() == -1 ==> r is None && *final(self) == *old(self),
            old(self).top_priority() >= 0 ==> {
                let t = old(self).top_priority();
                &&& r == Some(old(self).q(t)[0])
                &&& final(self).q(t) == old(self).q(t).drop_first()
                &&& forall|i: int| 0 <= i < 3 && i != t ==> final(self).q(i) == old(self).q(i)
            },
            final(self).sleepers() == old(self).sleepers(),
            final(self).current_tick == old(self).current_tick,
            final(self).preempt_disable_count == old(self).preempt_disable_count,
    {
        if self.non_empty_queues & (1u8 << 2u8) != 0 {
            proof {
                assert(nth_bit(self.non_empty_queues, 2));
            }
            Some(self.take_front(2))
        } else if self.non_empty_queues & (1u8 << 1u8) != 0 {
            proof {
                assert(nth_bit(self.non_empty_queues, 1));
                assert(!nth_bit(self.non_empty_queues, 2));
            }
            Some(self.take_front(1))
        } else if self.non_empty_queues & (1u8 << 0u8) != 0 {
            proof {
                assert(nth_bit(self.non_empty_queues, 0));
                assert(!nth_bit(self.non_empty_queues, 1));
                assert(!nth_bit(self.non_empty_queues, 2));
            }
            Some(self.take_front(0))
        } else {
            proof {
                assert(!nth_bit(self.non_empty_queues, 0));
                assert(!nth_bit(self.non_empty_queues, 1));
                assert(!nth_bit(self.non_empty_queues, 2));
            }
            None
        }
    }

    /// Pop the front of queue `index`, clearing its bitmap bit if the queue
    /// drains.
    fn take_front(&mut self, index: usize) -> (t: TaskId)
        requires
            old(self).wf(),
            index < 3,
            old(self).q(index as int).len() > 0,
        ensures
            final(self).wf(),
            t == old(self).q(index as int)[0],
            final(self).q(index as int) == old(self).q(index as int).drop_first(),
            forall|i: int| 0 <= i < 3 && i != index ==> final(self).q(i) == old(self).q(i),
            final(self).sleepers() == old(self).sleepers(),
            final(self).current_tick == old(self).current_tick,
            final(self).preempt_disable_count == old(self).preempt_disable_count,
    {
        let ghost b0 = self.non_empty_queues;
        let popped = self.ready_queues[index].pop_front();
        match popped {
            Some(task_id) => {
                if self.ready_queues[index].is_empty() {
                    self.non_empty_queues = self.non_empty_queues & !(1u8 << (index as u8));
                    proof {
                        lemma_bit_clear(b0, index as u8);
                        assert forall|j: u8| j < 3 implies (nth_bit(self.non_empty_queues, j)
                            <==> self.q(j as int).len() > 0) by {
                            assert(nth_bit(b0, j) <==> old(self).q(j as int).len() > 0);
                            if j != index as u8 {
                                assert(self.q(j as int) == old(self).q(j as int));
                            }
                        }
                    }
                } else {
                    proof {
                        assert forall|j: u8| j < 3 implies (nth_bit(self.non_empty_queues, j)
                            <==> self.q(j as int).len() > 0) by {
                            assert(nth_bit(b0, j) <==> old(self).q(j as int).len() > 0);
                            if j != index as u8 {
                                assert(self.q(j as int) == old(self).q(j as int));
                            }
                        }
                    }
                }
                task_id
            },
            None => {
                proof {
                    assert(false);
                }
                0
            },
        }
    }

    /// Whether every ready queue is empty.
    pub fn is_empty(&self) -> (r: bool)
        requires
            self.wf(),
        ensures
            r <==> (self.q(0).len() == 0 && self.q(1).len() == 0 && self.q(2).len() == 0),
    {
        proof {
            lemma_bit_zero(self.non_empty_queues);
        }
        self.non_empty_queues == 0
    }

    /// Total number of queued tasks across all priority levels.
    pub fn len(&self) -> (n: usize)
        requires
            self.wf(),
        ensures
            n == self.q(0).len() + self.q(1).len() + self.q(2).len(),
    {
        self.ready_queues[0].len() + self.ready_queues[1].len() + self.ready_queues[2].len()
    }

    /// Record `task_id` in a free sleep slot, due `ticks` ticks from now at
    /// priority `priority`. Fails exactly when the table is full; which free
    /// slot is taken is not significant.
    pub fn sleep_task(&mut self, task_id: TaskId, ticks: u64, priority: TaskPriority) -> (ok: bool)
        requires
            old(self).wf(),
            old(self).current_tick + ticks <= u64::MAX,
        ensures
            final(self).wf(),
            ok <==> exists|j: int| 0 <= j < MAX_TASKS && !(#[trigger] old(self).sleepers()[j]).valid,
            ok ==> exists|j: int|
                {
                    &&& 0 <= j < MAX_TASKS
                    &&& !(#[trigger] old(self).sleepers()[j]).valid
                    &&& final(self).sleepers() == old(self).sleepers().update(
                        j,
                        SleepingTask {
                            task_id,
                            wake_tick: (old(self).current_tick + ticks) as u64,
                            priority,
                            valid: true,
                        },
                    )
                },
            !ok ==> final(self).sleepers() == old(self).sleepers(),
            forall|i: int| 0 <= i < 3 ==> final(self).q(i) == old(self).q(i),
            final(self).current_tick == old(self).current_tick,
            final(self).preempt_disable_count == old(self).preempt_disable_count,
    {
        let wake_tick = self.current_tick + ticks;
        let mut j: usize = 0;
        while j < MAX_TASKS
            invariant
                *self == *old(self),
                self.wf(),
                j <= MAX_TASKS,
                old(self).current_tick + ticks <= u64::MAX,
                wake_tick == old(self).current_tick + ticks,
                forall|k: int| 0 <= k < j ==> (#[trigger] self.sleepers()[k]).valid,
            decreases MAX_TASKS - j,
        {
            if !self.sleeping[j].valid {
                self.sleeping[j] = SleepingTask { task_id, wake_tick, priority, valid: true };
                return true;
            }
            j = j + 1;
        }
        false
    }

    /// One wake pass at the current tick: invalidate every expired slot and
    /// re-enqueue its task at the priority stored in the slot, in slot order.
    /// Returns the ids woken, in that order. The capacity precondition is
    /// discharged by the scheduler core's global invariant: a task is never
    /// queued and sleeping at once, so the woken tasks always fit.
    pub(crate) fn wake_collect(&mut self) -> (w: Vec<TaskId>)
        requires
            old(self).wf(),
            forall|p: int|
                0 <= p < 3 ==> old(self).q(p).len() + woken_into(
                    old(self).sleepers(),
                    old(self).current_tick,
                    p,
                ).len() <= MAX_TASKS,
        ensures
            final(self).wf(),
            w@ == woken_ids(old(self).sleepers(), old(self).current_tick),
            final(self).sleepers() == inval_expired(old(self).sleepers(), old(self).current_tick),
            forall|p: int|
                0 <= p < 3 ==> final(self).q(p) == old(self).q(p) + woken_into(
                    old(self).sleepers(),
                    old(self).current_tick,
                    p,
                ),
            final(self).current_tick == old(self).current_tick,
            final(self).preempt_disable_count == old(self).preempt_disable_count,
    {
        let ghost s0 = old(self).sleepers();
        let now = self.current_tick;
        let mut w: Vec<TaskId> = Vec::new();
        let mut j: usize = 0;
        proof {
            assert forall|p: int| 0 <= p < 3 implies #[trigger] self.q(p) == old(self).q(p)
                + woken_into_upto(s0, now, p, 0) by {
                assert(self.q(p) =~= old(self).q(p) + woken_into_upto(s0, now, p, 0));
            }
            assert(w@ =~= woken_ids_upto(s0, now, 0));
        }
        while j < MAX_TASKS
            invariant
                self.wf(),
                j <= MAX_TASKS,
                now == old(self).current_tick,
                self.current_tick == old(self).current_tick,
                self.preempt_disable_count == old(self).preempt_disable_count,
                s0.len() == MAX_TASKS,
                s0 == old(self).sleepers(),
                forall|p: int|
                    0 <= p < 3 ==> old(self).q(p).len() + woken_into(s0, now, p).len() <= MAX_TASKS,
                forall|k: int| 0 <= k < j ==> self.sleepers()[k] == inval_expired(s0, now)[k],
                forall|k: int| j <= k < MAX_TASKS ==> self.sleepers()[k] == s0[k],
                w@ == woken_ids_upto(s0, now, j as int),
                forall|p: int|
                    0 <= p < 3 ==> #[trigger] self.q(p) == old(self).q(p) + woken_into_upto(
                        s0,
                        now,
                        p,
                        j as int,
                    ),
            decreases MAX_TASKS - j,
        {
            let slot = self.sleeping[j];
            if slot.valid && slot.wake_tick <= now {
                let ghost p = slot.priority.spec_as_index() as int;
                proof {
                    assert(s0[j as int] == slot);
                    assert(old(self).q(p).len() + woken_into(s0, now, p).len() <= MAX_TASKS);
                    assert(woken_into(s0, now, p) == woken_into_upto(s0, now, p, MAX_TASKS as int));
                    lemma_woken_into_upto_mono(s0, now, p, j + 1, MAX_TASKS as int);
                    assert(woken_into_upto(s0, now, p, j + 1) == woken_into_upto(s0, now, p, j as int)
                        + seq![slot.task_id]);
                    assert(self.q(p).len() + 1 <= MAX_TASKS);
                }
                let ok = self.enqueue_task(slot.task_id, slot.priority);
                proof {
                    assert(ok);
                    assert forall|pp: int| 0 <= pp < 3 implies #[trigger] self.q(pp) == old(self).q(
                        pp,
                    ) + woken_into_upto(s0, now, pp, j + 1) by {
                        if pp == p {
                            assert((old(self).q(p) + woken_into_upto(s0, now, p, j as int)).push(
                                slot.task_id,
                            ) =~= old(self).q(p) + woken_into_upto(s0, now, p, j + 1));
                        } else {
                            assert(woken_into_upto(s0, now, pp, j + 1) =~= woken_into_upto(
                                s0,
                                now,
                                pp,
                                j as int,
                            ));
                        }
                    }
                }
                let ghost mid = *self;
                let mut invalidated = slot;
                invalidated.valid = false;
                self.sleeping[j] = invalidated;
                w.push(slot.task_id);
                proof {
                    assert(w@ =~= woken_ids_upto(s0, now, j + 1));
                    assert forall|pp: int| 0 <= pp < 3 implies #[trigger] self.q(pp) == old(self).q(
                        pp,
                    ) + woken_into_upto(s0, now, pp, j + 1) by {
                        assert(self.q(pp) == mid.q(pp));
                    }
                }
            } else {
                proof {
                    assert(w@ =~= woken_ids_upto(s0, now, j + 1));
                    assert forall|pp: int| 0 <= pp < 3 implies #[trigger] self.q(pp) == old(self).q(
                        pp,
                    ) + woken_into_upto(s0, now, pp, j + 1) by {
                        assert(woken_into_upto(s0, now, pp, j + 1) =~= woken_into_upto(
                            s0,
                            now,
                            pp,
                            j as int,
                        ));
                    }
                }
            }
            j = j + 1;
        }
        proof {
            assert(self.sleepers() =~= inval_expired(s0, now));
        }
        w
    }

    /// Wake every task whose sleep deadline has elapsed; returns how many
    /// were woken.
    pub fn wake_sleeping_tasks(&mut self) -> (n: usize)
        requires
            old(self).wf(),
            forall|p: int|
                0 <= p < 3 ==> old(self).q(p).len() + woken_into(
                    old(self).sleepers(),
                    old(self).current_tick,
                    p,
                ).len() <= MAX_TASKS,
        ensures
            final(self).wf(),
            n == woken_ids(old(self).sleepers(), old(self).current_tick).len(),
            final(self).sleepers() == inval_expired(old(self).sleepers(), old(self).current_tick),
            forall|p: int|
                0 <= p < 3 ==> final(self).q(p) == old(self).q(p) + woken_into(
                    old(self).sleepers(),
                    old(self).current_tick,
                    p,
                ),
            final(self).current_tick == old(self).current_tick,
            final(self).preempt_disable_count == old(self).preempt_disable_count,
    {
        let woken = self.wake_collect();
        woken.len()
    }

    /// Advance the tick counter by exactly one.
    pub fn tick(&mut self)
        requires
            old(self).current_tick < u64::MAX,
        ensures
            final(self).current_tick == old(self).current_tick + 1,
            final(self).ready_queues == old(self).ready_queues,
            final(self).non_empty_queues == old(self).non_empty_queues,
            final(self).sleeping == old(self).sleeping,
            final(self).preempt_disable_count == old(self).preempt_disable_count,
    {
        self.current_tick = self.current_tick + 1;
    }

    /// Current value of the tick counter.
    pub fn current_tick(&self) -> (t: u64)
        ensures
            t == self.current_tick,
    {
        self.current_tick
    }

    /// Enter a critical section: one more level of preemption disabling.
    pub fn preempt_disable(&mut self)
        requires
            old(self).preempt_disable_count < usize::MAX,
        ensures
            final(self).preempt_disable_count == old(self).preempt_disable_count + 1,
            final(self).ready_queues == old(self).ready_queues,
            final(self).non_empty_queues == old(self).non_empty_queues,
            final(self).sleeping == old(self).sleeping,
            final(self).current_tick == old(self).current_tick,
    {
        self.preempt_disable_count = self.preempt_disable_count + 1;
    }

    /// Leave a critical section. Saturates at zero: more enables than
    /// disables never drive the counter negative.
    pub fn preempt_enable(&mut self)
        ensures
            final(self).preempt_disable_count == if old(self).preempt_disable_count > 0 {
                (old(self).preempt_disable_count - 1) as usize
            } else {
                0usize
            },
            final(self).ready_queues == old(self).ready_queues,
            final(self).non_empty_queues == old(self).non_empty_queues,
            final(self).sleeping == old(self).sleeping,
            final(self).current_tick == old(self).current_tick,
    {
        if self.preempt_disable_count > 0 {
            self.preempt_disable_count = self.preempt_disable_count - 1;
        }
    }

    /// Whether the timer interrupt may preempt the running task.
    pub fn can_preempt(&self) -> (r: bool)
        ensures
            r <==> self.preempt_disable_count == 0,
    {
        self.preempt_disable_count == 0
    }
}

/// Disable preemption on a scheduler handed in by the caller. Kernel code
/// calls this before taking a lock that scheduler or interrupt code shares.
pub fn preempt_disable(sched: &mut PriorityScheduler)
    requires
        old(sched).preempt_disable_count < usize::MAX,
    ensures
        final(sched).preempt_disable_count == old(sched).preempt_disable_count + 1,
        final(sched).ready_queues == old(sched).ready_queues,
        final(sched).non_empty_queues == old(sched).non_empty_queues,
        final(sched).sleeping == old(sched).sleeping,
        final(sched).current_tick == old(sched).current_tick,
{
    sched.preempt_disable();
}

/// Re-enable preemption after a critical section; saturates at zero.
pub fn preempt_enable(sched: &mut PriorityScheduler)
    ensures
        final(sched).preempt_disable_count == if old(sched).preempt_disable_count > 0 {
            (old(sched).preempt_disable_count - 1) as usize
        } else {
            0usize
        },
        final(sched).ready_queues == old(sched).ready_queues,
        final(sched).non_empty_queues == old(sched).non_empty_queues,
        final(sched).sleeping == old(sched).sleeping,
        final(sched).current_tick == old(sched).current_tick,
{
    sched.preempt_enable();
}

} // verus!
