//! Round-robin fairness: when every task keeps yielding, the processor goes
//! round the task table in id order and no task gets ahead of another by
//! more than one turn.

use vstd::prelude::*;
use vstd::arithmetic::div_mod::{
    lemma_fundamental_div_mod, lemma_fundamental_div_mod_converse, lemma_mod_pos_bound,
};
use crate::task::{SchedState, TaskStatus};

verus! {

impl SchedState {
    /// No task has exited.
    pub open spec fn all_runnable(self) -> bool {
        forall|i: int|
            0 <= i < self.tasks.len() ==> (#[trigger] self.tasks[i]).status != TaskStatus::Exited
    }

    /// Every task is `Ready`.
    pub open spec fn all_ready(self) -> bool {
        forall|i: int| 0 <= i < self.tasks.len() ==> #[trigger] self.is_ready(i)
    }

    /// The table after the running task has yielded `k` times in a row, each
    /// time whichever task was running then.
    pub open spec fn after_yields(self, k: nat) -> SchedState
        decreases k,
    {
        if k == 0 {
            self
        } else {
            self.after_yields((k - 1) as nat).yield_now()
        }
    }

    /// How many turns `task` has been given up to and including the `k`-th
    /// yield: the number of `j` in `0..=k` after which `task` is the one
    /// running.
    pub open spec fn turns(self, k: nat, task: int) -> nat
        decreases k,
    {
        let now: nat = if self.after_yields(k).current == Some(task as usize) {
            1
        } else {
            0
        };
        if k == 0 {
            now
        } else {
            self.turns((k - 1) as nat, task) + now
        }
    }

    /// With no task exited, a yield hands the processor to the next task in
    /// id order, wrapping round after the last.
    pub proof fn lemma_yield_goes_to_successor(self)
        requires
            self.wf(),
            self.all_runnable(),
            self.current is Some,
        ensures
            self.yield_now().wf(),
            self.yield_now().all_runnable(),
            self.yield_now().tasks.len() == self.tasks.len(),
            self.yield_now().current == Some(
                ((self.current.unwrap() + 1) % (self.tasks.len() as int)) as usize,
            ),
    {
        let c = self.current.unwrap() as int;
        let ready = self.with_status(c, TaskStatus::Ready);
        self.lemma_steps_keep_wf();
        ready.lemma_nth_after_unwrapped(c, 1);
        let next = ready.nth_after(c, 1);
        assert(ready.is_ready(next)) by {
            if next != c {
                assert(self.tasks[next].status != TaskStatus::Exited);
                assert(self.tasks[next].status != TaskStatus::Running);
            }
        }
        assert(ready.next_is_at(c, 1));
        ready.lemma_next_ready_is(c, 1);
        let after = self.yield_now();
        assert forall|i: int| 0 <= i < after.tasks.len() implies (#[trigger] after.tasks[i]).status
            != TaskStatus::Exited by {
            assert(self.tasks[i].status != TaskStatus::Exited);
        }
    }

    /// The first dispatch after boot starts task 0.
    pub proof fn lemma_run_starts_task_zero(self)
        requires
            self.wf(),
            self.current is None,
            self.tasks.len() > 0,
            self.all_ready(),
        ensures
            self.run().wf(),
            self.run().all_runnable(),
            self.run().tasks.len() == self.tasks.len(),
            self.run().current == Some(0usize),
    {
        let last = self.tasks.len() - 1;
        self.lemma_steps_keep_wf();
        self.lemma_nth_after_unwrapped(last, 1);
        assert(self.is_ready(0));
        assert(self.next_is_at(last, 1));
        self.lemma_next_ready_is(last, 1);
        let after = self.run();
        assert forall|i: int| 0 <= i < after.tasks.len() implies (#[trigger] after.tasks[i]).status
            != TaskStatus::Exited by {
            assert(self.is_ready(i));
        }
    }
}

/// Going from `x` to `x + 1` either moves the remainder up by one or wraps it
/// to zero and moves the quotient up by one.
pub proof fn lemma_div_mod_step(x: int, n: int)
    requires
        0 <= x,
        0 < n,
    ensures
        0 <= x % n < n,
        x % n + 1 < n ==> (x + 1) % n == x % n + 1 && (x + 1) / n == x / n,
        x % n + 1 == n ==> (x + 1) % n == 0 && (x + 1) / n == x / n + 1,
{
    lemma_fundamental_div_mod(x, n);
    lemma_mod_pos_bound(x, n);
    let q = x / n;
    let r = x % n;
    if r + 1 < n {
        assert(x + 1 == q * n + (r + 1)) by (nonlinear_arith)
            requires
                x == n * q + r,
        ;
        lemma_fundamental_div_mod_converse(x + 1, n, q, r + 1);
    } else {
        assert(x + 1 == (q + 1) * n + 0) by (nonlinear_arith)
            requires
                x == n * q + r,
                r + 1 == n,
        ;
        lemma_fundamental_div_mod_converse(x + 1, n, q + 1, 0);
    }
}

/// Round-robin fairness. Boot `n` tasks, all ready, start the first and let
/// whichever task runs yield, `k` times in all. Then the task running is
/// task `k mod n`, and task `task` has been given `k / n` turns, plus one if
/// the current round has already reached it.
pub proof fn lemma_round_robin_is_fair(booted: SchedState, k: nat, task: int)
    requires
        booted.wf(),
        booted.current is None,
        booted.tasks.len() > 0,
        booted.all_ready(),
        0 <= task < booted.tasks.len(),
    ensures
        booted.run().after_yields(k).wf(),
        booted.run().after_yields(k).all_runnable(),
        booted.run().after_yields(k).tasks.len() == booted.tasks.len(),
        booted.run().after_yields(k).current == Some(
            ((k as int) % (booted.tasks.len() as int)) as usize,
        ),
        booted.run().turns(k, task) == (k as int) / (booted.tasks.len() as int) + (if task <= (
        k as int) % (booted.tasks.len() as int) {
            1int
        } else {
            0int
        }),
    decreases k,
{
    let n = booted.tasks.len() as int;
    let started = booted.run();
    booted.lemma_run_starts_task_zero();
    if k == 0 {
        lemma_div_mod_step(0, n);
        lemma_fundamental_div_mod_converse(0, n, 0, 0);
        assert(started.after_yields(0) == started);
    } else {
        let before = (k - 1) as nat;
        lemma_round_robin_is_fair(booted, before, task);
        let previous = started.after_yields(before);
        previous.lemma_yield_goes_to_successor();
        lemma_div_mod_step(before as int, n);
        let c = (before as int) % n;
        assert(previous.current == Some(c as usize));
        assert((c + 1) % n == (k as int) % n) by {
            if c + 1 < n {
                lemma_fundamental_div_mod_converse(c + 1, n, 0, c + 1);
            } else {
                lemma_fundamental_div_mod_converse(c + 1, n, 1, 0);
            }
        }
        assert(started.after_yields(k) == previous.yield_now());
        assert(started.turns(k, task) == started.turns(before, task) + (if started.after_yields(
            k,
        ).current == Some(task as usize) {
            1nat
        } else {
            0nat
        }));
    }
}

/// After `m` full rounds every task has had `m` turns, and task 0, which the
/// next round has just reached, one more.
pub proof fn lemma_turns_after_full_rounds(booted: SchedState, m: nat, task: int)
    requires
        booted.wf(),
        booted.current is None,
        booted.tasks.len() > 0,
        booted.all_ready(),
        0 <= task < booted.tasks.len(),
    ensures
        booted.run().after_yields(m * booted.tasks.len()).current == Some(0usize),
        booted.run().turns(m * booted.tasks.len(), task) == m + (if task == 0 {
            1int
        } else {
            0int
        }),
{
    let n = booted.tasks.len() as int;
    lemma_round_robin_is_fair(booted, m * booted.tasks.len(), task);
    assert((m * n) % n == 0 && (m * n) / n == m) by {
        lemma_fundamental_div_mod_converse(m * n, n, m as int, 0);
    }
}

/// At no point has one task had more than one turn more than another.
pub proof fn lemma_turns_differ_by_at_most_one(booted: SchedState, k: nat, a: int, b: int)
    requires
        booted.wf(),
        booted.current is None,
        booted.tasks.len() > 0,
        booted.all_ready(),
        0 <= a < booted.tasks.len(),
        0 <= b < booted.tasks.len(),
    ensures
        -1 <= booted.run().turns(k, a) - booted.run().turns(k, b) <= 1,
{
    lemma_round_robin_is_fair(booted, k, a);
    lemma_round_robin_is_fair(booted, k, b);
}

} // verus!
