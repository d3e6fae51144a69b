//! The run queue: the tasks that have not exited, seen as a circle in id
//! order with the running task at the head.
//!
//! The scheduler keeps no queue of its own; it searches the task table.
//! This module shows that the search does what a queue would do: a yield
//! moves the head to the tail, an exit removes the head, and in both cases
//! the new head is the task that runs next.

use vstd::prelude::*;
use vstd::arithmetic::div_mod::{lemma_mod_add_multiples_vanish, lemma_small_mod};
use crate::task::{SchedState, TaskStatus};

verus! {

impl SchedState {
    /// Task `i` exists and has not exited.
    pub open spec fn is_alive(self, i: int) -> bool {
        0 <= i < self.tasks.len() && self.tasks[i].status != TaskStatus::Exited
    }

    /// The tasks that have not exited among the `count` tasks met when going
    /// round the table from task `start` on, in the order they are met.
    pub open spec fn alive_from(self, start: int, count: nat) -> Seq<usize>
        decreases count,
    {
        if count == 0 {
            Seq::empty()
        } else {
            let met = self.alive_from(start, (count - 1) as nat);
            let last = self.nth_after(start, count - 1);
            if self.is_alive(last) {
                met.push(last as usize)
            } else {
                met
            }
        }
    }

    /// Where the run queue starts: at the running task, or at task 0 while
    /// nobody runs.
    pub open spec fn queue_head(self) -> int {
        match self.current {
            Some(c) => c as int,
            None => 0,
        }
    }

    /// The run queue: every task that has not exited, once, in id order
    /// going round from the head.
    pub open spec fn run_queue(self) -> Seq<usize> {
        self.alive_from(self.queue_head(), self.tasks.len())
    }

    /// Task `i`, alone in a queue if it has not exited, else the empty
    /// queue.
    pub open spec fn alone_if_alive(self, i: int) -> Seq<usize> {
        if self.is_alive(i) {
            seq![i as usize]
        } else {
            Seq::empty()
        }
    }

    /// Two tables that agree on who has exited, at every place a walk
    /// visits, give the same walk.
    pub proof fn lemma_alive_from_agrees(self, other: SchedState, start: int, count: nat)
        requires
            self.tasks.len() == other.tasks.len(),
            forall|j: int|
                0 <= j < count ==> self.is_alive(#[trigger] self.nth_after(start, j))
                    == other.is_alive(self.nth_after(start, j)),
        ensures
            self.alive_from(start, count) == other.alive_from(start, count),
        decreases count,
    {
        if count > 0 {
            self.lemma_alive_from_agrees(other, start, (count - 1) as nat);
            assert(self.nth_after(start, count - 1) == other.nth_after(start, count - 1));
        }
    }

    /// A walk that starts one whole round later is the same walk.
    pub proof fn lemma_alive_from_wraps(self, start: int, count: nat)
        requires
            self.tasks.len() > 0,
        ensures
            self.alive_from(start + self.tasks.len(), count) == self.alive_from(start, count),
        decreases count,
    {
        if count > 0 {
            let n = self.tasks.len() as int;
            self.lemma_alive_from_wraps(start, (count - 1) as nat);
            lemma_mod_add_multiples_vanish(start + count - 1, n);
            assert(self.nth_after(start + n, count - 1) == self.nth_after(start, count - 1));
        }
    }

    /// A walk is its first place followed by the walk from the next place.
    pub proof fn lemma_alive_from_splits(self, start: int, count: nat)
        requires
            count > 0,
        ensures
            self.alive_from(start, count) == self.alone_if_alive(self.nth_after(start, 0))
                + self.alive_from(start + 1, (count - 1) as nat),
        decreases count,
    {
        let first = self.alone_if_alive(self.nth_after(start, 0));
        if count == 1 {
            assert(self.alive_from(start, 0) =~= Seq::<usize>::empty());
            assert(self.alive_from(start + 1, 0) =~= Seq::<usize>::empty());
            assert(self.alive_from(start, 1) =~= first + self.alive_from(start + 1, 0));
        } else {
            self.lemma_alive_from_splits(start, (count - 1) as nat);
            let rest = self.alive_from(start + 1, (count - 2) as nat);
            assert(self.nth_after(start + 1, count - 2) == self.nth_after(start, count - 1));
            let last = self.nth_after(start, count - 1);
            if self.is_alive(last) {
                assert((first + rest).push(last as usize) =~= first + rest.push(last as usize));
            }
        }
    }

    /// Going one full round from the next place instead ends on the place
    /// the first walk began with: the head has moved to the tail.
    pub proof fn lemma_full_round_rotates(self, start: int)
        requires
            self.tasks.len() > 0,
        ensures
            self.alive_from(start, self.tasks.len()) == self.alone_if_alive(
                self.nth_after(start, 0),
            ) + self.alive_from(start + 1, (self.tasks.len() - 1) as nat),
            self.alive_from(start + 1, self.tasks.len()) == self.alive_from(
                start + 1,
                (self.tasks.len() - 1) as nat,
            ) + self.alone_if_alive(self.nth_after(start, 0)),
    {
        let n = self.tasks.len();
        self.lemma_alive_from_splits(start, n);
        lemma_mod_add_multiples_vanish(start, n as int);
        assert(self.nth_after(start + 1, n - 1) == self.nth_after(start, 0));
        let rest = self.alive_from(start + 1, (n - 1) as nat);
        let head = self.nth_after(start, 0);
        if self.is_alive(head) {
            assert(rest.push(head as usize) =~= rest + seq![head as usize]);
        } else {
            assert(rest =~= rest + Seq::<usize>::empty());
        }
    }

    /// Exited tasks at the start of a full round can be skipped.
    pub proof fn lemma_skip_exited(self, start: int, skipped: nat)
        requires
            self.tasks.len() > 0,
            forall|j: int| 0 <= j < skipped ==> !self.is_alive(#[trigger] self.nth_after(start, j)),
        ensures
            self.alive_from(start + skipped, self.tasks.len()) == self.alive_from(
                start,
                self.tasks.len(),
            ),
        decreases skipped,
    {
        if skipped > 0 {
            let before = (skipped - 1) as nat;
            self.lemma_skip_exited(start, before);
            assert(!self.is_alive(self.nth_after(start, before as int)));
            assert(self.nth_after(start + before, 0) == self.nth_after(start, before as int));
            self.lemma_full_round_rotates(start + before);
            let rest = self.alive_from(start + before + 1, (self.tasks.len() - 1) as nat);
            assert(Seq::<usize>::empty() + rest =~= rest + Seq::<usize>::empty());
        }
    }

    /// When every task has exited, every walk is empty.
    pub proof fn lemma_all_exited_is_empty(self, start: int, count: nat)
        requires
            forall|i: int| !self.is_alive(i),
        ensures
            self.alive_from(start, count) == Seq::<usize>::empty(),
        decreases count,
    {
        if count > 0 {
            self.lemma_all_exited_is_empty(start, (count - 1) as nat);
        }
    }

    /// The running task is the head of the run queue.
    pub proof fn lemma_running_task_heads_the_queue(self)
        requires
            self.wf(),
            self.current is Some,
        ensures
            self.run_queue().len() > 0,
            self.run_queue()[0] == self.current.unwrap(),
            self.run_queue() == seq![self.current.unwrap()] + self.alive_from(
                self.current.unwrap() + 1,
                (self.tasks.len() - 1) as nat,
            ),
    {
        let c = self.current.unwrap() as int;
        self.lemma_full_round_rotates(c);
        lemma_small_mod(c as nat, self.tasks.len());
    }

    /// The tasks passed over by the search for the next ready task have all
    /// exited, so the walk from the task found is the walk from the place
    /// after `from`.
    proof fn lemma_search_skips_exited(self, from: int)
        requires
            0 <= from < self.tasks.len() <= usize::MAX,
            forall|i: int|
                0 <= i < self.tasks.len() && i != from ==> (#[trigger] self.tasks[i]).status
                    != TaskStatus::Running,
            self.next_ready(from) is Some,
        ensures
            self.alive_from(self.next_ready(from).unwrap() as int, self.tasks.len())
                == self.alive_from(from + 1, self.tasks.len()),
    {
        let n = self.tasks.len() as int;
        let k = choose|k: int| self.next_is_at(from, k);
        let next = self.nth_after(from, k);
        self.lemma_nth_after_unwrapped(from, k);
        assert forall|j: int| 0 <= j < k - 1 implies !self.is_alive(
            #[trigger] self.nth_after(from + 1, j),
        ) by {
            let place = self.nth_after(from, j + 1);
            assert(self.nth_after(from + 1, j) == place);
            self.lemma_nth_after_unwrapped(from, j + 1);
            assert(!self.is_ready(place));
            assert(place != from);
            assert(self.tasks[place].status != TaskStatus::Running);
        }
        self.lemma_skip_exited(from + 1, (k - 1) as nat);
        if from + k >= n {
            self.lemma_alive_from_wraps(from + k - n, self.tasks.len());
        }
    }

    /// A yield moves the head of the run queue to its tail and leaves the
    /// rest in order; the task that runs next is the new head.
    pub proof fn lemma_yield_rotates_the_queue(self)
        requires
            self.wf(),
            self.current is Some,
        ensures
            self.yield_now().run_queue() == self.run_queue().drop_first().push(
                self.current.unwrap(),
            ),
            self.yield_now().current == Some(self.yield_now().run_queue()[0]),
    {
        let c = self.current.unwrap() as int;
        let n = self.tasks.len();
        let ready = self.with_status(c, TaskStatus::Ready);
        let after = self.yield_now();
        self.lemma_steps_keep_wf();
        self.lemma_running_task_heads_the_queue();
        after.lemma_running_task_heads_the_queue();
        ready.lemma_dispatch_frame(c);
        let next = after.current.unwrap() as int;
        ready.lemma_search_skips_exited(c);
        assert forall|j: int| 0 <= j < n implies after.is_alive(
            #[trigger] after.nth_after(next, j),
        ) == ready.is_alive(after.nth_after(next, j)) by {}
        after.lemma_alive_from_agrees(ready, next, n);
        assert forall|j: int| 0 <= j < n implies ready.is_alive(
            #[trigger] ready.nth_after(c + 1, j),
        ) == self.is_alive(ready.nth_after(c + 1, j)) by {}
        ready.lemma_alive_from_agrees(self, c + 1, n);
        self.lemma_full_round_rotates(c);
        lemma_small_mod(c as nat, n);
        let rest = self.alive_from(c + 1, (n - 1) as nat);
        assert(self.run_queue().drop_first() =~= rest);
        assert(rest + seq![c as usize] =~= rest.push(c as usize));
    }

    /// An exit removes the head of the run queue and leaves the rest in
    /// order. If anything is left, its head is the task that runs next; if
    /// nothing is left, nobody runs.
    pub proof fn lemma_exit_removes_the_head(self)
        requires
            self.wf(),
            self.current is Some,
        ensures
            self.exit().run_queue() == self.run_queue().drop_first(),
            self.exit().current matches Some(next) ==> self.exit().run_queue().len() > 0
                && self.exit().run_queue()[0] == next,
            self.exit().current is None <==> self.exit().run_queue().len() == 0,
    {
        let c = self.current.unwrap() as int;
        let n = self.tasks.len();
        let exited = self.with_status(c, TaskStatus::Exited);
        let after = self.exit();
        self.lemma_steps_keep_wf();
        self.lemma_running_task_heads_the_queue();
        exited.lemma_dispatch_frame(c);
        let rest = self.alive_from(c + 1, (n - 1) as nat);
        assert(self.run_queue().drop_first() =~= rest);
        assert forall|j: int| 0 <= j < n - 1 implies exited.is_alive(
            #[trigger] exited.nth_after(c + 1, j),
        ) == self.is_alive(exited.nth_after(c + 1, j)) by {
            assert(exited.nth_after(c + 1, j) == self.nth_after(c, j + 1));
            self.lemma_nth_after_unwrapped(c, j + 1);
        }
        exited.lemma_alive_from_agrees(self, c + 1, (n - 1) as nat);
        exited.lemma_full_round_rotates(c);
        lemma_small_mod(c as nat, n);
        assert(exited.alive_from(c + 1, n) =~= rest);
        if after.current is Some {
            let next = after.current.unwrap() as int;
            after.lemma_running_task_heads_the_queue();
            exited.lemma_search_skips_exited(c);
            assert forall|j: int| 0 <= j < n implies after.is_alive(
                #[trigger] after.nth_after(next, j),
            ) == exited.is_alive(after.nth_after(next, j)) by {}
            after.lemma_alive_from_agrees(exited, next, n);
        } else {
            assert forall|i: int| !after.is_alive(i) by {
                if after.is_alive(i) {
                    assert(!exited.is_ready(i));
                    assert(self.tasks[i].status != TaskStatus::Running || i == c);
                }
            }
            after.lemma_all_exited_is_empty(0, n);
            assert forall|i: int| !exited.is_alive(i) by {
                assert(after.is_alive(i) == exited.is_alive(i));
            }
            exited.lemma_all_exited_is_empty(c + 1, (n - 1) as nat);
        }
    }
}

} // verus!
