//! The library's laws: properties that relate several operations, stated
//! and proved once over the models the operations' contracts speak in.

use vstd::prelude::*;
use crate::task::TaskId;
use crate::priority::{
    PriorityScheduler, SleepingTask, nth_bit, slot_expired, inval_expired, woken_into,
    woken_into_upto,
};
use crate::sched::SchedState;

verus! {

/// The non-empty bitmap tells the truth: bit `p` is set exactly when ready
/// queue `p` holds a task. Every queue operation preserves this (it is part
/// of `PriorityScheduler::wf`, which each of them ensures).
pub proof fn lemma_bitmap_matches_queues(s: PriorityScheduler, p: u8)
    requires
        s.wf(),
        p < 3,
    ensures
        nth_bit(s.non_empty_queues, p) <==> s.q(p as int).len() > 0,
{
}

/// At most one task is `Running`: any two running tasks are the same task.
pub proof fn lemma_at_most_one_running(s: SchedState, a: TaskId, b: TaskId)
    requires
        s.wf(),
        a < s.next_tid,
        b < s.next_tid,
        s.state_of(a as int) is Running,
        s.state_of(b as int) is Running,
    ensures
        a == b,
{
    if a >= 1 {
        assert(s.task_partition(a));
    }
    if b >= 1 {
        assert(s.task_partition(b));
    }
    assert(s.current == Some(a) && s.current == Some(b));
}

/// A task's state says where it is, exactly once: `Ready` means one position
/// in one ready queue and no sleep slot; `Sleeping` means one sleep slot and
/// no queue position; `Running` means it is `current` and in neither;
/// `Terminated` means in neither.
pub proof fn lemma_state_partition(s: SchedState, id: TaskId)
    requires
        s.wf(),
        1 <= id < s.next_tid,
    ensures
        s.state_of(id as int) is Ready ==> s.ready_occ(id) == 1 && s.sleep_occ(id) == 0,
        s.state_of(id as int) is Sleeping ==> s.sleep_occ(id) == 1 && s.ready_occ(id) == 0,
        s.state_of(id as int) is Running ==> s.current == Some(id) && s.ready_occ(id) == 0
            && s.sleep_occ(id) == 0,
        s.state_of(id as int) is Terminated ==> s.ready_occ(id) == 0 && s.sleep_occ(id) == 0,
{
    assert(s.task_partition(id));
}

/// Index of the highest non-empty queue of a three-queue bank, or -1.
pub open spec fn bank_top(qs: Seq<Seq<TaskId>>) -> int {
    if qs[2].len() > 0 {
        2
    } else if qs[1].len() > 0 {
        1
    } else if qs[0].len() > 0 {
        0
    } else {
        -1
    }
}

/// The ids that `n` successive selections dispatch from a three-queue bank.
/// One step is exactly what `select_next` promises: the front of the highest
/// non-empty queue leaves it.
pub open spec fn select_order(qs: Seq<Seq<TaskId>>, n: nat) -> Seq<TaskId>
    decreases n,
{
    if n == 0 {
        Seq::empty()
    } else {
        let t = bank_top(qs);
        if t < 0 {
            Seq::empty()
        } else {
            seq![qs[t][0]] + select_order(qs.update(t, qs[t].drop_first()), (n - 1) as nat)
        }
    }
}

/// FIFO within a priority: while no higher-priority queue holds a task,
/// successive selections dispatch queue `p` exactly in queue order — a task
/// enqueued earlier, and not removed meanwhile, is dispatched before every
/// task enqueued after it.
pub proof fn lemma_fifo_within_priority(qs: Seq<Seq<TaskId>>, p: int)
    requires
        qs.len() == 3,
        0 <= p < 3,
        forall|i: int| p < i < 3 ==> qs[i].len() == 0,
    ensures
        select_order(qs, qs[p].len()) == qs[p],
    decreases qs[p].len(),
{
    if qs[p].len() == 0 {
        assert(select_order(qs, 0) =~= qs[p]);
    } else {
        assert(bank_top(qs) == p);
        let qs1 = qs.update(p, qs[p].drop_first());
        lemma_fifo_within_priority(qs1, p);
        assert(qs1[p].len() == qs[p].len() - 1);
        assert(select_order(qs1, qs1[p].len()) == qs1[p]);
        assert(select_order(qs, qs[p].len()) == seq![qs[p][0]] + select_order(
            qs1,
            (qs[p].len() - 1) as nat,
        ));
        assert(select_order(qs, qs[p].len()) =~= qs[p]);
    }
}

/// Spawn/dispatch round trip: a task spawned into a scheduler whose queues
/// are all empty (which appends it to queue `p`, as `spawn_task` ensures) is
/// the very next task dispatched.
pub proof fn lemma_spawn_dispatch_round_trip(qs: Seq<Seq<TaskId>>, t: TaskId, p: int)
    requires
        qs.len() == 3,
        0 <= p < 3,
        qs[0].len() == 0,
        qs[1].len() == 0,
        qs[2].len() == 0,
    ensures
        select_order(qs.update(p, qs[p].push(t)), 1) == seq![t],
{
    let qs1 = qs.update(p, qs[p].push(t));
    assert(bank_top(qs1) == p);
    assert(qs1[p][0] == t);
    let qs2 = qs1.update(p, qs1[p].drop_first());
    assert(select_order(qs2, 0nat) == Seq::<TaskId>::empty());
    assert(select_order(qs1, 1) =~= seq![t]);
}

/// The sleep table, one ready queue and the tick counter, carried through
/// `k` timer ticks with preemption disabled: each tick advances the counter,
/// invalidates the slots that came due, and appends the woken ids for this
/// queue's priority at the back — exactly what `tick` ensures per step.
pub open spec fn run_sleep_ticks(
    sl: Seq<SleepingTask>,
    q: Seq<TaskId>,
    p: int,
    now: u64,
    k: nat,
) -> (Seq<SleepingTask>, Seq<TaskId>, u64)
    decreases k,
{
    if k == 0 {
        (sl, q, now)
    } else {
        let now1 = (now + 1) as u64;
        run_sleep_ticks(
            inval_expired(sl, now1),
            q + woken_into(sl, now1, p),
            p,
            now1,
            (k - 1) as nat,
        )
    }
}

proof fn lemma_wake_none(sl: Seq<SleepingTask>, now: u64, p: int, n: int)
    requires
        0 <= n <= sl.len(),
        forall|i: int| 0 <= i < sl.len() ==> (!(#[trigger] sl[i]).valid || sl[i].wake_tick > now),
    ensures
        woken_into_upto(sl, now, p, n) == Seq::<TaskId>::empty(),
    decreases n,
{
    if n > 0 {
        lemma_wake_none(sl, now, p, n - 1);
        assert(!slot_expired(sl[n - 1], now));
        assert(woken_into_upto(sl, now, p, n) =~= Seq::<TaskId>::empty());
    }
}

/// Before any deadline has arrived, ticks are quiet: `m` ticks only advance
/// the counter and change neither the sleep table nor the queue.
pub proof fn lemma_sleep_ticks_quiet(
    sl: Seq<SleepingTask>,
    q: Seq<TaskId>,
    p: int,
    now: u64,
    m: u64,
)
    requires
        now + m <= u64::MAX,
        forall|i: int|
            0 <= i < sl.len() ==> (!(#[trigger] sl[i]).valid || sl[i].wake_tick > now + m),
    ensures
        run_sleep_ticks(sl, q, p, now, m as nat) == (sl, q, (now + m) as u64),
    decreases m,
{
    if m > 0 {
        let now1 = (now + 1) as u64;
        lemma_wake_none(sl, now1, p, sl.len() as int);
        assert(inval_expired(sl, now1) =~= sl);
        assert(q + woken_into(sl, now1, p) =~= q);
        lemma_sleep_ticks_quiet(sl, q, p, now1, (m - 1) as u64);
    }
}

proof fn lemma_woken_single(sl: Seq<SleepingTask>, now: u64, p: int, j: int, n: int)
    requires
        0 <= j < sl.len(),
        0 <= n <= sl.len(),
        forall|i: int| 0 <= i < sl.len() && i != j ==> !(#[trigger] sl[i]).valid,
        slot_expired(sl[j], now),
        sl[j].priority.spec_as_index() == p,
    ensures
        woken_into_upto(sl, now, p, n) == (if n > j {
            seq![sl[j].task_id]
        } else {
            Seq::<TaskId>::empty()
        }),
    decreases n,
{
    if n > 0 {
        lemma_woken_single(sl, now, p, j, n - 1);
        if n - 1 == j {
            assert(woken_into_upto(sl, now, p, n) =~= seq![sl[j].task_id]);
        } else {
            assert(!slot_expired(sl[n - 1], now));
            assert(woken_into_upto(sl, now, p, n) =~= woken_into_upto(sl, now, p, n - 1));
        }
    }
}

/// Sleep/wake round trip: with exactly one occupied sleep slot, holding task
/// `t` due at `now + k` for the priority of queue `p`, running `k` ticks
/// (preemption disabled, no other activity) empties the sleep table and
/// re-enqueues `t` at the back of queue `p` — on the `k`-th tick and not
/// before (`lemma_sleep_ticks_quiet` covers the first `k - 1`).
pub proof fn lemma_sleep_wake_round_trip(
    sl: Seq<SleepingTask>,
    q: Seq<TaskId>,
    p: int,
    t: TaskId,
    now: u64,
    k: u64,
    j: int,
)
    requires
        0 <= j < sl.len(),
        sl[j].valid,
        sl[j].task_id == t,
        sl[j].wake_tick == now + k,
        sl[j].priority.spec_as_index() == p,
        forall|i: int| 0 <= i < sl.len() && i != j ==> !(#[trigger] sl[i]).valid,
        k >= 1,
        now + k <= u64::MAX,
    ensures
        ({
            let (sl2, q2, now2) = run_sleep_ticks(sl, q, p, now, k as nat);
            &&& now2 == now + k
            &&& q2 == q.push(t)
            &&& forall|i: int| 0 <= i < sl2.len() ==> !(#[trigger] sl2[i]).valid
        }),
    decreases k,
{
    let now1 = (now + 1) as u64;
    if k == 1 {
        assert(slot_expired(sl[j], now1));
        lemma_woken_single(sl, now1, p, j, sl.len() as int);
        assert(q + woken_into(sl, now1, p) =~= q.push(t));
        let sl1 = inval_expired(sl, now1);
        assert(forall|i: int| 0 <= i < sl1.len() ==> !(#[trigger] sl1[i]).valid);
        assert(run_sleep_ticks(sl, q, p, now, 1nat) == run_sleep_ticks(
            sl1,
            q + woken_into(sl, now1, p),
            p,
            now1,
            0nat,
        ));
    } else {
        lemma_wake_none(sl, now1, p, sl.len() as int);
        assert(inval_expired(sl, now1) =~= sl);
        assert(q + woken_into(sl, now1, p) =~= q);
        lemma_sleep_wake_round_trip(sl, q, p, t, now1, (k - 1) as u64, j);
    }
}

/// Idempotent `preempt_enable`: one step of `enable_n` is exactly what
/// `preempt_enable` ensures, and however often it is applied, the counter
/// saturates at zero instead of going below it.
pub open spec fn enable_n(c: nat, n: nat) -> nat
    decreases n,
{
    if n == 0 {
        c
    } else {
        let d = enable_n(c, (n - 1) as nat);
        if d > 0 {
            (d - 1) as nat
        } else {
            0
        }
    }
}

/// Enabling preemption `n` times from a disable depth of `c` leaves the
/// counter at `c - n`, floored at zero: extra enables are harmless.
pub proof fn lemma_preempt_enable_saturates(c: nat, n: nat)
    ensures
        enable_n(c, n) == if n <= c {
            (c - n) as nat
        } else {
            0nat
        },
    decreases n,
{
    if n > 0 {
        lemma_preempt_enable_saturates(c, (n - 1) as nat);
    }
}

} // verus!
