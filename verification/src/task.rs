//! The task manager: one control block per image, and strict round-robin
//! scheduling over the tasks that have not exited.
//!
//! The scheduling rules are written once, as functions of [`SchedState`], the
//! mathematical value of a [`TaskManager`]. The executable methods are proved
//! to compute exactly those functions.

use vstd::prelude::*;
use vstd::arithmetic::div_mod::{lemma_fundamental_div_mod_converse, lemma_small_mod};
use crate::context::TrapContext;
use crate::memory::{MemoryLayout, Region};

verus! {

/// Where a task stands in its life. A task is created `Ready`, alternates
/// between `Ready` and `Running`, and ends `Exited`, for good.
#[derive(Clone, Copy, Debug, PartialEq, Eq, Structural)]
pub enum TaskStatus {
    Ready,
    Running,
    Exited,
}

/// Everything the kernel keeps about one task.
#[derive(Clone, Copy, Debug, PartialEq, Eq)]
pub struct TaskControlBlock {
    /// Position in the task table, fixed for the task's lifetime.
    pub id: usize,
    pub status: TaskStatus,
    /// The registers as they were when the task last left the processor.
    pub saved_context: TrapContext,
    /// Stack used while the kernel serves the task's traps.
    pub kernel_stack: Region,
    /// Stack the task itself runs on.
    pub user_stack: Region,
    /// Slot that holds the task's image.
    pub memory_region: Region,
}

/// The control block task `id` is created with: ready, about to execute the
/// first instruction of its slot on an empty user stack.
pub open spec fn initial_task(layout: MemoryLayout, id: int) -> TaskControlBlock {
    TaskControlBlock {
        id: id as usize,
        status: TaskStatus::Ready,
        saved_context: TrapContext::initial(
            layout.memory_region_of(id).base,
            layout.user_stack_of(id).end() as usize,
        ),
        kernel_stack: layout.kernel_stack_of(id),
        user_stack: layout.user_stack_of(id),
        memory_region: layout.memory_region_of(id),
    }
}

/// The mathematical value of a [`TaskManager`]: the task table, and which
/// task holds the processor, if any.
pub struct SchedState {
    pub layout: MemoryLayout,
    pub tasks: Seq<TaskControlBlock>,
    pub current: Option<usize>,
}

impl SchedState {
    /// Task `i` sits at position `i` and owns the regions the layout gives it.
    pub open spec fn well_placed(self, i: int) -> bool {
        &&& self.tasks[i].id == i
        &&& self.tasks[i].memory_region == self.layout.memory_region_of(i)
        &&& self.tasks[i].user_stack == self.layout.user_stack_of(i)
        &&& self.tasks[i].kernel_stack == self.layout.kernel_stack_of(i)
    }

    /// The table matches its layout, and the current task, if there is one,
    /// is the one and only task that is `Running`.
    pub open spec fn wf(self) -> bool {
        &&& self.layout.wf()
        &&& self.tasks.len() == self.layout.task_count
        &&& forall|i: int| 0 <= i < self.tasks.len() ==> #[trigger] self.well_placed(i)
        &&& self.current matches Some(c) ==> c < self.tasks.len() && self.tasks[c as int].status
            == TaskStatus::Running
        &&& forall|i: int|
            0 <= i < self.tasks.len() && (#[trigger] self.tasks[i]).status == TaskStatus::Running
                ==> self.current == Some(i as usize)
    }

    /// The table right after boot: every task ready, none running.
    pub open spec fn booted(layout: MemoryLayout) -> SchedState {
        SchedState {
            layout,
            tasks: Seq::new(layout.task_count as nat, |i: int| initial_task(layout, i)),
            current: None,
        }
    }

    /// Task `i` exists and is ready to run.
    pub open spec fn is_ready(self, i: int) -> bool {
        0 <= i < self.tasks.len() && self.tasks[i].status == TaskStatus::Ready
    }

    /// Task `i` exists and has exited.
    pub open spec fn has_exited(self, i: int) -> bool {
        0 <= i < self.tasks.len() && self.tasks[i].status == TaskStatus::Exited
    }

    /// The task `k` places after task `from`, going round the table in id
    /// order.
    pub open spec fn nth_after(self, from: int, k: int) -> int {
        (from + k) % (self.tasks.len() as int)
    }

    /// The next ready task after `from` is `k` places on: it is ready, and
    /// none of the tasks passed on the way is. At `k == len` the search is
    /// back at `from` itself.
    pub open spec fn next_is_at(self, from: int, k: int) -> bool {
        &&& 1 <= k <= self.tasks.len()
        &&& self.is_ready(self.nth_after(from, k))
        &&& forall|j: int| 1 <= j < k ==> !self.is_ready(#[trigger] self.nth_after(from, j))
    }

    /// The first ready task strictly after `from` in id order, wrapping round
    /// and ending with `from` itself; `None` if no task is ready.
    pub open spec fn next_ready(self, from: int) -> Option<usize> {
        if exists|k: int| self.next_is_at(from, k) {
            Some(self.nth_after(from, choose|k: int| self.next_is_at(from, k)) as usize)
        } else {
            None
        }
    }

    /// The table with task `i` given another status.
    pub open spec fn with_status(self, i: int, status: TaskStatus) -> SchedState {
        SchedState {
            tasks: self.tasks.update(i, TaskControlBlock { status, ..self.tasks[i] }),
            ..self
        }
    }

    /// The table with task `i` given another saved context.
    pub open spec fn with_context(self, i: int, context: TrapContext) -> SchedState {
        SchedState {
            tasks: self.tasks.update(
                i,
                TaskControlBlock { saved_context: context, ..self.tasks[i] },
            ),
            ..self
        }
    }

    /// Hands the processor to the next ready task after `from`; with no ready
    /// task left, nobody runs.
    pub open spec fn dispatch_after(self, from: int) -> SchedState {
        match self.next_ready(from) {
            Some(next) => SchedState {
                current: Some(next),
                ..self.with_status(next as int, TaskStatus::Running)
            },
            None => SchedState { current: None, ..self },
        }
    }

    /// The first dispatch: the search starts after the last task, that is,
    /// at task 0.
    pub open spec fn run(self) -> SchedState {
        self.dispatch_after(self.tasks.len() - 1)
    }

    /// The current task goes back to `Ready`, behind every other ready task,
    /// and the next ready task runs. With no other ready task, the current
    /// task runs on.
    pub open spec fn yield_now(self) -> SchedState {
        let c = self.current.unwrap() as int;
        self.with_status(c, TaskStatus::Ready).dispatch_after(c)
    }

    /// The current task becomes `Exited` and the next ready task runs. With
    /// no ready task left, nobody runs.
    pub open spec fn exit(self) -> SchedState {
        let c = self.current.unwrap() as int;
        self.with_status(c, TaskStatus::Exited).dispatch_after(c)
    }

    /// The registers of the current task are recorded in its control block.
    pub open spec fn save_context(self, context: TrapContext) -> SchedState {
        self.with_context(self.current.unwrap() as int, context)
    }

    /// The table with `value` stored in the return-value register of task
    /// `i`'s saved context.
    pub open spec fn with_return_value(self, i: int, value: usize) -> SchedState {
        self.with_context(
            i,
            TrapContext {
                regs: vstd::array::spec_array_update(self.tasks[i].saved_context.regs, 0, value),
                ..self.tasks[i].saved_context
            },
        )
    }

    /// Within one round, going `k` places on from `from` means adding `k` and
    /// taking the table's length off once the end is passed.
    pub proof fn lemma_nth_after_unwrapped(self, from: int, k: int)
        requires
            0 <= from < self.tasks.len(),
            0 <= k <= self.tasks.len(),
        ensures
            self.nth_after(from, k) == if from + k < self.tasks.len() {
                from + k
            } else {
                from + k - self.tasks.len()
            },
            0 <= self.nth_after(from, k) < self.tasks.len(),
    {
        let n = self.tasks.len() as int;
        if from + k < n {
            lemma_small_mod((from + k) as nat, n as nat);
        } else {
            lemma_fundamental_div_mod_converse(from + k, n, 1, from + k - n);
        }
    }

    /// A distance that satisfies [`Self::next_is_at`] is the one the search
    /// settles on.
    pub proof fn lemma_next_ready_is(self, from: int, k: int)
        requires
            self.next_is_at(from, k),
        ensures
            self.next_ready(from) == Some(self.nth_after(from, k) as usize),
    {
        let chosen = choose|k: int| self.next_is_at(from, k);
        if chosen < k {
            assert(!self.is_ready(self.nth_after(from, chosen)));
        } else if k < chosen {
            assert(!self.is_ready(self.nth_after(from, k)));
        }
    }

    /// The search fails exactly when no task is ready.
    pub proof fn lemma_next_ready_none(self, from: int)
        requires
            0 <= from < self.tasks.len() <= usize::MAX,
        ensures
            self.next_ready(from) is None <==> forall|i: int| !self.is_ready(i),
            self.next_ready(from) matches Some(next) ==> self.is_ready(next as int),
    {
        let n = self.tasks.len() as int;
        if self.next_ready(from) is None {
            assert forall|i: int| !self.is_ready(i) by {
                if self.is_ready(i) {
                    let d = if i > from {
                        i - from
                    } else {
                        i - from + n
                    };
                    self.lemma_nth_after_unwrapped(from, d);
                    self.lemma_some_distance_is_least(from, d);
                }
            }
        } else {
            let chosen = choose|k: int| self.next_is_at(from, k);
            self.lemma_nth_after_unwrapped(from, chosen);
            assert(self.is_ready(self.nth_after(from, chosen)));
        }
    }

    /// If the task `d` places on is ready, some distance up to `d` is the
    /// least such.
    proof fn lemma_some_distance_is_least(self, from: int, d: int)
        requires
            1 <= d <= self.tasks.len(),
            self.is_ready(self.nth_after(from, d)),
        ensures
            exists|k: int| self.next_is_at(from, k),
        decreases d,
    {
        if forall|j: int| 1 <= j < d ==> !self.is_ready(#[trigger] self.nth_after(from, j)) {
            assert(self.next_is_at(from, d));
        } else {
            let j = choose|j: int| 1 <= j < d && self.is_ready(#[trigger] self.nth_after(from, j));
            self.lemma_some_distance_is_least(from, j);
        }
    }

    /// A dispatch touches nothing but the status of the task it starts, which
    /// was ready: every saved context stays, and so does the set of exited
    /// tasks.
    pub proof fn lemma_dispatch_frame(self, from: int)
        requires
            0 <= from < self.tasks.len() <= usize::MAX,
        ensures
            self.dispatch_after(from).tasks.len() == self.tasks.len(),
            self.dispatch_after(from).layout == self.layout,
            self.dispatch_after(from).current matches Some(next) ==> self.is_ready(next as int),
            self.dispatch_after(from).current is None ==> forall|i: int| !self.is_ready(i),
            forall|i: int|
                0 <= i < self.tasks.len() ==> {
                    &&& (#[trigger] self.dispatch_after(from).tasks[i]).saved_context
                        == self.tasks[i].saved_context
                    &&& (self.dispatch_after(from).tasks[i].status == TaskStatus::Exited)
                        == (self.tasks[i].status == TaskStatus::Exited)
                },
    {
        self.lemma_next_ready_none(from);
    }

    /// A dispatch from a table in which nobody is running gives a well-formed
    /// table.
    pub proof fn lemma_dispatch_keeps_wf(self, from: int)
        requires
            self.layout.wf(),
            self.tasks.len() == self.layout.task_count,
            forall|i: int| 0 <= i < self.tasks.len() ==> #[trigger] self.well_placed(i),
            forall|i: int|
                0 <= i < self.tasks.len() ==> (#[trigger] self.tasks[i]).status
                    != TaskStatus::Running,
            0 <= from < self.tasks.len(),
        ensures
            self.dispatch_after(from).wf(),
    {
        let after = self.dispatch_after(from);
        self.lemma_next_ready_none(from);
        assert forall|i: int| 0 <= i < after.tasks.len() implies #[trigger] after.well_placed(
            i,
        ) by {
            assert(self.well_placed(i));
        }
    }

    /// Recording registers, yielding and exiting all keep the table well
    /// formed, and so does the first dispatch.
    pub proof fn lemma_steps_keep_wf(self)
        requires
            self.wf(),
        ensures
            self.current is Some ==> self.yield_now().wf() && self.exit().wf(),
            self.current is Some ==> self.yield_now().current is Some,
            self.current is Some ==> forall|context: TrapContext|
                #[trigger] self.save_context(context).wf(),
            forall|i: int, value: usize|
                0 <= i < self.tasks.len() ==> #[trigger] self.with_return_value(i, value).wf(),
            self.current is None ==> self.run().wf(),
    {
        if self.current is Some {
            let c = self.current.unwrap() as int;
            let ready = self.with_status(c, TaskStatus::Ready);
            assert forall|i: int| 0 <= i < ready.tasks.len() implies #[trigger] ready.well_placed(
                i,
            ) by {
                assert(self.well_placed(i));
            }
            ready.lemma_dispatch_keeps_wf(c);
            ready.lemma_nth_after_unwrapped(c, ready.tasks.len() as int);
            ready.lemma_some_distance_is_least(c, ready.tasks.len() as int);
            let exited = self.with_status(c, TaskStatus::Exited);
            assert forall|i: int|
                0 <= i < exited.tasks.len() implies #[trigger] exited.well_placed(i) by {
                assert(self.well_placed(i));
            }
            exited.lemma_dispatch_keeps_wf(c);
            assert forall|context: TrapContext| #[trigger] self.save_context(context).wf() by {
                let saved = self.save_context(context);
                assert forall|i: int|
                    0 <= i < saved.tasks.len() implies #[trigger] saved.well_placed(i) by {
                    assert(self.well_placed(i));
                }
            }
        } else {
            if self.tasks.len() > 0 {
                self.lemma_dispatch_keeps_wf(self.tasks.len() - 1);
            } else {
                let from = self.tasks.len() - 1;
                assert(forall|k: int| !#[trigger] self.next_is_at(from, k));
            }
        }
        assert forall|i: int, value: usize| 0 <= i < self.tasks.len() implies #[trigger] self
            .with_return_value(i, value).wf() by {
            let stored = self.with_return_value(i, value);
            assert forall|j: int|
                0 <= j < stored.tasks.len() implies #[trigger] stored.well_placed(j) by {
                assert(self.well_placed(j));
            }
        }
    }
}

/// The task table and the scheduler that owns it.
pub struct TaskManager {
    layout: MemoryLayout,
    tasks: Vec<TaskControlBlock>,
    current: Option<usize>,
}

impl View for TaskManager {
    type V = SchedState;

    closed spec fn view(&self) -> SchedState {
        SchedState { layout: self.layout, tasks: self.tasks@, current: self.current }
    }
}

impl TaskManager {
    /// The table matches its layout, and the current task, if there is one,
    /// is the one and only task that is `Running`.
    pub open spec fn wf(&self) -> bool {
        self@.wf()
    }

    /// Builds the task table once the loader has placed every image: one
    /// control block per slot of `layout`, each `Ready`, with the context of a
    /// task that has not run yet.
    pub fn init(layout: MemoryLayout) -> (manager: TaskManager)
        requires
            layout.wf(),
        ensures
            manager.wf(),
            manager@ == SchedState::booted(layout),
    {
        let mut tasks: Vec<TaskControlBlock> = Vec::new();
        let mut id: usize = 0;
        while id < layout.task_count
            invariant
                layout.wf(),
                id <= layout.task_count,
                tasks.len() == id,
                forall|i: int| 0 <= i < id ==> tasks[i] == initial_task(layout, i),
            decreases layout.task_count - id,
        {
            let memory_region = layout.memory_region(id);
            let user_stack = layout.user_stack(id);
            let kernel_stack = layout.kernel_stack(id);
            let saved_context = TrapContext::app_init_context(memory_region.base, user_stack.top());
            tasks.push(
                TaskControlBlock {
                    id,
                    status: TaskStatus::Ready,
                    saved_context,
                    kernel_stack,
                    user_stack,
                    memory_region,
                },
            );
            id = id + 1;
        }
        let manager = TaskManager { layout, tasks, current: None };
        proof {
            assert(manager@.tasks =~= SchedState::booted(layout).tasks);
            assert forall|i: int| 0 <= i < manager@.tasks.len() implies #[trigger] manager@
                .well_placed(i) by {
                assert(manager@.tasks[i] == initial_task(layout, i));
            }
        }
        manager
    }

    /// Number of tasks, running or not.
    pub fn task_count(&self) -> (n: usize)
        ensures
            n == self@.tasks.len(),
    {
        self.tasks.len()
    }

    /// The layout the table was built for.
    pub fn layout(&self) -> (layout: MemoryLayout)
        ensures
            layout == self@.layout,
    {
        self.layout
    }

    /// Id of the task that holds the processor, if any.
    pub fn current(&self) -> (current: Option<usize>)
        ensures
            current == self@.current,
    {
        self.current
    }

    /// The control block of task `id`, or `None` if there is no such task.
    pub fn task(&self, id: usize) -> (task: Option<&TaskControlBlock>)
        ensures
            task == (if id < self@.tasks.len() {
                Some(&self@.tasks[id as int])
            } else {
                None
            }),
    {
        if id < self.tasks.len() {
            Some(&self.tasks[id])
        } else {
            None
        }
    }

    /// The control block of the task that holds the processor. There must be
    /// one.
    pub fn current_task(&self) -> (task: &TaskControlBlock)
        requires
            self.wf(),
            self@.current is Some,
        ensures
            *task == self@.tasks[self@.current.unwrap() as int],
            task.status == TaskStatus::Running,
    {
        &self.tasks[self.current.unwrap()]
    }

    /// Finds the first ready task strictly after `from`, going round the
    /// table once and ending with `from` itself.
    fn next_ready_after(&self, from: usize) -> (next: Option<usize>)
        requires
            from < self@.tasks.len(),
        ensures
            next == self@.next_ready(from as int),
    {
        let n = self.tasks.len();
        let mut passed: usize = 0;
        let mut candidate: usize = if from + 1 == n {
            0
        } else {
            from + 1
        };
        proof {
            self@.lemma_nth_after_unwrapped(from as int, 1);
        }
        while passed < n
            invariant
                n == self.tasks.len(),
                from < n,
                passed <= n,
                passed < n ==> candidate == self@.nth_after(from as int, passed + 1),
                candidate < n,
                forall|j: int|
                    1 <= j <= passed ==> !self@.is_ready(#[trigger] self@.nth_after(from as int, j)),
            decreases n - passed,
        {
            if self.tasks[candidate].status == TaskStatus::Ready {
                proof {
                    assert(self@.next_is_at(from as int, passed + 1));
                    self@.lemma_next_ready_is(from as int, passed + 1);
                }
                return Some(candidate);
            }
            passed = passed + 1;
            proof {
                if passed < n {
                    self@.lemma_nth_after_unwrapped(from as int, passed as int);
                    self@.lemma_nth_after_unwrapped(from as int, passed + 1);
                }
            }
            candidate = if candidate + 1 == n {
                0
            } else {
                candidate + 1
            };
        }
        proof {
            assert forall|k: int| !self@.next_is_at(from as int, k) by {}
        }
        None
    }

    /// Marks the next ready task after `from` as running and makes it
    /// current; with no ready task, leaves nobody current.
    fn dispatch_after(&mut self, from: usize) -> (next: Option<usize>)
        requires
            from < old(self)@.tasks.len(),
        ensures
            final(self)@ == old(self)@.dispatch_after(from as int),
            next == final(self)@.current,
    {
        let next = self.next_ready_after(from);
        match next {
            Some(id) => {
                proof {
                    assert(self@.tasks.len() == self.tasks.len());
                    self@.lemma_next_ready_none(from as int);
                }
                let mut task = self.tasks[id];
                task.status = TaskStatus::Running;
                self.tasks.set(id, task);
                self.current = Some(id);
            },
            None => {
                self.current = None;
            },
        }
        proof {
            assert(self@.tasks =~= old(self)@.dispatch_after(from as int).tasks);
        }
        next
    }

    /// Gives task `id` another status.
    fn set_status(&mut self, id: usize, status: TaskStatus)
        requires
            id < old(self)@.tasks.len(),
        ensures
            final(self)@ == old(self)@.with_status(id as int, status),
    {
        let mut task = self.tasks[id];
        task.status = status;
        self.tasks.set(id, task);
        proof {
            assert(self@.tasks =~= old(self)@.with_status(id as int, status).tasks);
        }
    }

    /// Starts the first task: the ready task with the lowest id becomes
    /// `Running` and current. Returns its id, or `None` when there is no task
    /// to run, in which case the machine has nothing left to do.
    ///
    /// On the machine this is the point of no return: control goes to the
    /// task and comes back only through a trap.
    pub fn run(&mut self) -> (started: Option<usize>)
        requires
            old(self).wf(),
            old(self)@.current is None,
        ensures
            final(self).wf(),
            final(self)@ == old(self)@.run(),
            started == final(self)@.current,
    {
        proof {
            self@.lemma_steps_keep_wf();
        }
        if self.tasks.len() == 0 {
            proof {
                let from = self@.tasks.len() - 1;
                assert(forall|k: int| !#[trigger] self@.next_is_at(from, k));
            }
            None
        } else {
            self.dispatch_after(self.tasks.len() - 1)
        }
    }

    /// Records the registers of the current task as it leaves the processor.
    pub fn save_context(&mut self, context: TrapContext)
        requires
            old(self).wf(),
            old(self)@.current is Some,
        ensures
            final(self).wf(),
            final(self)@ == old(self)@.save_context(context),
    {
        proof {
            self@.lemma_steps_keep_wf();
        }
        let id = self.current.unwrap();
        let mut task = self.tasks[id];
        task.saved_context = context;
        self.tasks.set(id, task);
        proof {
            assert(self@.tasks =~= old(self)@.save_context(context).tasks);
        }
    }

    /// Stores a system call's result in the saved registers of task `id`,
    /// where the task finds it when it next runs.
    pub fn set_return_value(&mut self, id: usize, value: usize)
        requires
            old(self).wf(),
            id < old(self)@.tasks.len(),
        ensures
            final(self).wf(),
            final(self)@ == old(self)@.with_return_value(id as int, value),
    {
        proof {
            self@.lemma_steps_keep_wf();
        }
        let mut task = self.tasks[id];
        task.saved_context.set_return_value(value);
        self.tasks.set(id, task);
        proof {
            let want = old(self)@.with_return_value(id as int, value);
            assert(task.saved_context.regs =~= want.tasks[id as int].saved_context.regs);
            assert(self@.tasks =~= want.tasks);
        }
    }

    /// The current task gives the processor up: it becomes `Ready` and the
    /// next ready task after it in id order, wrapping round, becomes
    /// `Running` and current. The task that yielded is considered last, so it
    /// runs on only if no other task is ready. Explicit yields and timer
    /// preemption both come here. Returns the id of the task that now runs.
    pub fn yield_now(&mut self) -> (next: usize)
        requires
            old(self).wf(),
            old(self)@.current is Some,
        ensures
            final(self).wf(),
            final(self)@ == old(self)@.yield_now(),
            final(self)@.current == Some(next),
    {
        proof {
            self@.lemma_steps_keep_wf();
        }
        let id = self.current.unwrap();
        self.set_status(id, TaskStatus::Ready);
        proof {
            let ready = self@;
            let n = ready.tasks.len() as int;
            ready.lemma_nth_after_unwrapped(id as int, n);
            ready.lemma_some_distance_is_least(id as int, n);
        }
        let next = self.dispatch_after(id);
        next.unwrap()
    }

    /// The current task ends: it becomes `Exited`, never to run again, and
    /// the next ready task becomes `Running` and current. Returns its id, or
    /// `None` when no ready task is left, which is the moment to switch the
    /// machine off.
    pub fn exit(&mut self) -> (next: Option<usize>)
        requires
            old(self).wf(),
            old(self)@.current is Some,
        ensures
            final(self).wf(),
            final(self)@ == old(self)@.exit(),
            next == final(self)@.current,
    {
        proof {
            self@.lemma_steps_keep_wf();
        }
        let id = self.current.unwrap();
        self.set_status(id, TaskStatus::Exited);
        self.dispatch_after(id)
    }
}

} // verus!
