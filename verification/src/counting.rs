//! Occurrence counting over ready queues and the sleep table.
//!
//! The scheduler core's invariant says how often a task id may appear in the
//! ready queues and the sleep table. These spec functions count occurrences,
//! and the lemmas track the counts through the operations the scheduler
//! performs: pushing and popping queue entries, filling and clearing sleep
//! slots, and the wake pass that moves expired sleepers into the queues.

use vstd::prelude::*;
use crate::task::TaskId;
use crate::priority::SleepingTask;
use crate::priority::{slot_expired, inval_expired, woken_ids_upto, woken_into_upto};

verus! {

/// Number of occurrences of `id` among the first `n` elements of `s`.
pub open spec fn occ_upto(s: Seq<TaskId>, id: TaskId, n: int) -> nat
    decreases n,
{
    if n <= 0 {
        0
    } else {
        occ_upto(s, id, n - 1) + if s[n - 1] == id {
            1nat
        } else {
            0nat
        }
    }
}

/// Number of occurrences of `id` in `s`.
pub open spec fn occ(s: Seq<TaskId>, id: TaskId) -> nat {
    occ_upto(s, id, s.len() as int)
}

/// 1 when the slot is occupied by `id`, else 0.
pub open spec fn slot_c(r: SleepingTask, id: TaskId) -> nat {
    if r.valid && r.task_id == id {
        1
    } else {
        0
    }
}

/// Number of occupied slots holding `id` among the first `n` slots.
pub open spec fn occ_sleep_upto(s: Seq<SleepingTask>, id: TaskId, n: int) -> nat
    decreases n,
{
    if n <= 0 {
        0
    } else {
        occ_sleep_upto(s, id, n - 1) + slot_c(s[n - 1], id)
    }
}

/// Number of occupied slots holding `id` in the whole table.
pub open spec fn occ_sleep(s: Seq<SleepingTask>, id: TaskId) -> nat {
    occ_sleep_upto(s, id, s.len() as int)
}

/// Number of occupied slots among the first `n`.
pub open spec fn valid_upto(s: Seq<SleepingTask>, n: int) -> nat
    decreases n,
{
    if n <= 0 {
        0
    } else {
        valid_upto(s, n - 1) + if s[n - 1].valid {
            1nat
        } else {
            0nat
        }
    }
}

/// Number of occupied slots in the whole table.
pub open spec fn valid_count(s: Seq<SleepingTask>) -> nat {
    valid_upto(s, s.len() as int)
}

/// Number of slots among the first `n` that hold `id` and are due at `now`.
pub open spec fn woken_occ_upto(s: Seq<SleepingTask>, now: u64, id: TaskId, n: int) -> nat
    decreases n,
{
    if n <= 0 {
        0
    } else {
        woken_occ_upto(s, now, id, n - 1) + if slot_expired(s[n - 1], now) && s[n - 1].task_id
            == id {
            1nat
        } else {
            0nat
        }
    }
}

/// Number of occupied slots holding `id` that a wake pass at `now` releases.
pub open spec fn woken_occ(s: Seq<SleepingTask>, now: u64, id: TaskId) -> nat {
    woken_occ_upto(s, now, id, s.len() as int)
}

/// Counting only looks at the elements below `n`.
pub proof fn lemma_occ_prefix(s1: Seq<TaskId>, s2: Seq<TaskId>, id: TaskId, n: int)
    requires
        forall|k: int| 0 <= k < n ==> s1[k] == s2[k],
    ensures
        occ_upto(s1, id, n) == occ_upto(s2, id, n),
    decreases n,
{
    if n > 0 {
        lemma_occ_prefix(s1, s2, id, n - 1);
    }
}

/// Appending one element adds its contribution to the count.
pub proof fn lemma_occ_push(s: Seq<TaskId>, x: TaskId, id: TaskId)
    ensures
        occ(s.push(x), id) == occ(s, id) + if x == id {
            1nat
        } else {
            0nat
        },
{
    lemma_occ_prefix(s.push(x), s, id, s.len() as int);
}

proof fn lemma_occ_drop_first_upto(s: Seq<TaskId>, id: TaskId, n: int)
    requires
        s.len() > 0,
        0 <= n <= s.len() - 1,
    ensures
        occ_upto(s.drop_first(), id, n) + if s[0] == id {
            1nat
        } else {
            0nat
        } == occ_upto(s, id, n + 1),
    decreases n,
{
    if n > 0 {
        lemma_occ_drop_first_upto(s, id, n - 1);
        assert(s.drop_first()[n - 1] == s[n]);
        assert(occ_upto(s.drop_first(), id, n) == occ_upto(s.drop_first(), id, n - 1) + if s[n]
            == id {
            1nat
        } else {
            0nat
        });
        assert(occ_upto(s, id, n + 1) == occ_upto(s, id, n) + if s[n] == id {
            1nat
        } else {
            0nat
        });
    } else {
        assert(occ_upto(s.drop_first(), id, 0) == 0);
        assert(occ_upto(s, id, 1) == occ_upto(s, id, 0) + if s[0] == id {
            1nat
        } else {
            0nat
        });
    }
}

/// Removing the front element removes its contribution from the count.
pub proof fn lemma_occ_drop_first(s: Seq<TaskId>, id: TaskId)
    requires
        s.len() > 0,
    ensures
        occ(s.drop_first(), id) + if s[0] == id {
            1nat
        } else {
            0nat
        } == occ(s, id),
{
    lemma_occ_drop_first_upto(s, id, s.len() - 1);
}

proof fn lemma_occ_concat_upto(s: Seq<TaskId>, t: Seq<TaskId>, id: TaskId, n: int)
    requires
        0 <= n <= t.len(),
    ensures
        occ_upto(s + t, id, s.len() + n) == occ(s, id) + occ_upto(t, id, n),
    decreases n,
{
    if n == 0 {
        lemma_occ_prefix(s + t, s, id, s.len() as int);
    } else {
        lemma_occ_concat_upto(s, t, id, n - 1);
    }
}

/// Concatenation adds the counts.
pub proof fn lemma_occ_concat(s: Seq<TaskId>, t: Seq<TaskId>, id: TaskId)
    ensures
        occ(s + t, id) == occ(s, id) + occ(t, id),
{
    lemma_occ_concat_upto(s, t, id, t.len() as int);
}

/// A one-element sequence counts its element once.
pub proof fn lemma_occ_singleton(x: TaskId, id: TaskId)
    ensures
        occ(seq![x], id) == if x == id {
            1nat
        } else {
            0nat
        },
{
    reveal_with_fuel(occ_upto, 2);
    assert(seq![x].len() == 1);
    assert(seq![x][0] == x);
}

/// `id` occurs in the first `n` elements exactly when its count there is
/// positive.
pub proof fn lemma_occ_member(s: Seq<TaskId>, id: TaskId, n: int)
    requires
        0 <= n <= s.len(),
    ensures
        occ_upto(s, id, n) >= 1 <==> exists|k: int| 0 <= k < n && s[k] == id,
    decreases n,
{
    if n > 0 {
        lemma_occ_member(s, id, n - 1);
        if s[n - 1] == id {
            assert(0 <= n - 1 < n && s[n - 1] == id);
        }
    }
}

/// A slot holding `id` exists among the first `n` exactly when the sleep
/// count there is positive.
pub proof fn lemma_occ_sleep_member(s: Seq<SleepingTask>, id: TaskId, n: int)
    requires
        0 <= n <= s.len(),
    ensures
        occ_sleep_upto(s, id, n) >= 1 <==> exists|j: int|
            0 <= j < n && s[j].valid && s[j].task_id == id,
    decreases n,
{
    if n > 0 {
        lemma_occ_sleep_member(s, id, n - 1);
        if s[n - 1].valid && s[n - 1].task_id == id {
            assert(0 <= n - 1 < n && s[n - 1].valid && s[n - 1].task_id == id);
        }
    }
}

/// Overwriting slot `i` swaps its old contribution for the new one, in both
/// the per-id count and the occupancy count.
pub proof fn lemma_sleep_update(s: Seq<SleepingTask>, i: int, v: SleepingTask, id: TaskId, n: int)
    requires
        0 <= i < s.len(),
        0 <= n <= s.len(),
    ensures
        i < n ==> {
            &&& occ_sleep_upto(s.update(i, v), id, n) + slot_c(s[i], id) == occ_sleep_upto(
                s,
                id,
                n,
            ) + slot_c(v, id)
            &&& valid_upto(s.update(i, v), n) + (if s[i].valid {
                1nat
            } else {
                0nat
            }) == valid_upto(s, n) + (if v.valid {
                1nat
            } else {
                0nat
            })
        },
        i >= n ==> {
            &&& occ_sleep_upto(s.update(i, v), id, n) == occ_sleep_upto(s, id, n)
            &&& valid_upto(s.update(i, v), n) == valid_upto(s, n)
        },
    decreases n,
{
    if n > 0 {
        lemma_sleep_update(s, i, v, id, n - 1);
    }
}

/// What one wake pass at tick `now` does to the per-id counts, over the
/// first `n` slots: cleared slots lose exactly the due occurrences, the due
/// occurrences are never more than the occupied ones, and the sequence of
/// woken ids carries each id as often as its due slots.
pub proof fn lemma_wake_counts(s: Seq<SleepingTask>, now: u64, id: TaskId, n: int)
    requires
        0 <= n <= s.len(),
    ensures
        occ_sleep_upto(inval_expired(s, now), id, n) + woken_occ_upto(s, now, id, n)
            == occ_sleep_upto(s, id, n),
        woken_occ_upto(s, now, id, n) <= occ_sleep_upto(s, id, n),
        occ(woken_ids_upto(s, now, n), id) == woken_occ_upto(s, now, id, n),
        occ(woken_into_upto(s, now, 0, n), id) + occ(woken_into_upto(s, now, 1, n), id) + occ(
            woken_into_upto(s, now, 2, n),
            id,
        ) == woken_occ_upto(s, now, id, n),
    decreases n,
{
    if n > 0 {
        lemma_wake_counts(s, now, id, n - 1);
        let r = s[n - 1];
        assert(inval_expired(s, now)[n - 1] == if slot_expired(r, now) {
            crate::priority::cleared(r)
        } else {
            r
        });
        if slot_expired(r, now) {
            lemma_occ_concat(woken_ids_upto(s, now, n - 1), seq![r.task_id], id);
            lemma_occ_singleton(r.task_id, id);
            let p = r.priority.spec_as_index() as int;
            assert forall|pp: int| 0 <= pp < 3 implies occ(
                #[trigger] woken_into_upto(s, now, pp, n),
                id,
            ) == occ(woken_into_upto(s, now, pp, n - 1), id) + if pp == p && r.task_id == id {
                1nat
            } else {
                0nat
            } by {
                if pp == p {
                    lemma_occ_concat(woken_into_upto(s, now, pp, n - 1), seq![r.task_id], id);
                    lemma_occ_singleton(r.task_id, id);
                } else {
                    assert(woken_into_upto(s, now, pp, n) =~= woken_into_upto(s, now, pp, n - 1));
                }
            }
        } else {
            assert(woken_ids_upto(s, now, n) =~= woken_ids_upto(s, now, n - 1));
            assert forall|pp: int| 0 <= pp < 3 implies occ(
                #[trigger] woken_into_upto(s, now, pp, n),
                id,
            ) == occ(woken_into_upto(s, now, pp, n - 1), id) by {
                assert(woken_into_upto(s, now, pp, n) =~= woken_into_upto(s, now, pp, n - 1));
            }
        }
    }
}

/// What one wake pass does to the slot-occupancy and queue-length totals,
/// over the first `n` slots.
pub proof fn lemma_wake_lens(s: Seq<SleepingTask>, now: u64, n: int)
    requires
        0 <= n <= s.len(),
    ensures
        valid_upto(inval_expired(s, now), n) + woken_ids_upto(s, now, n).len() == valid_upto(s, n),
        woken_into_upto(s, now, 0, n).len() + woken_into_upto(s, now, 1, n).len()
            + woken_into_upto(s, now, 2, n).len() == woken_ids_upto(s, now, n).len(),
    decreases n,
{
    if n > 0 {
        lemma_wake_lens(s, now, n - 1);
        let r = s[n - 1];
        assert(inval_expired(s, now)[n - 1] == if slot_expired(r, now) {
            crate::priority::cleared(r)
        } else {
            r
        });
        if slot_expired(r, now) {
            let p = r.priority.spec_as_index() as int;
            assert(0 <= p < 3);
            assert forall|pp: int| 0 <= pp < 3 implies #[trigger] woken_into_upto(
                s,
                now,
                pp,
                n,
            ).len() == woken_into_upto(s, now, pp, n - 1).len() + if pp == p {
                1int
            } else {
                0int
            } by {
                if pp != p {
                    assert(woken_into_upto(s, now, pp, n) =~= woken_into_upto(s, now, pp, n - 1));
                }
            }
        } else {
            assert forall|pp: int| 0 <= pp < 3 implies #[trigger] woken_into_upto(
                s,
                now,
                pp,
                n,
            ).len() == woken_into_upto(s, now, pp, n - 1).len() by {
                assert(woken_into_upto(s, now, pp, n) =~= woken_into_upto(s, now, pp, n - 1));
            }
        }
    }
}

} // verus!
