//! What holds of the kernel along every sequence of traps: an exited task
//! stays exited, a waiting task's registers stay as they were recorded, and
//! time never runs backwards.

use vstd::prelude::*;
use crate::context::TrapContext;
use crate::gicv2::TIMER_IRQ;
use crate::syscall::{SYSCALL_EXIT, SYSCALL_GET_TIME};
use crate::task::TaskStatus;
use crate::timer::TICK_PERIOD_MS;
use crate::trap::{Action, KernelState, TrapCause, TrapOutcome};

verus! {

/// One trap as the kernel sees it: why the processor entered the kernel and
/// the registers it captured on the way.
pub struct TrapEvent {
    pub cause: TrapCause,
    pub context: TrapContext,
}

impl KernelState {
    /// The kernel after one trap.
    pub open spec fn step(self, event: TrapEvent) -> KernelState {
        self.on_trap(event.cause, event.context).0
    }

    /// The handler's answer to one trap.
    pub open spec fn answer(self, event: TrapEvent) -> TrapOutcome {
        self.on_trap(event.cause, event.context).1
    }

    /// The kernel after a sequence of traps, taken in order.
    pub open spec fn after(self, events: Seq<TrapEvent>) -> KernelState
        decreases events.len(),
    {
        if events.len() == 0 {
            self
        } else {
            self.after(events.drop_last()).step(events.last())
        }
    }

    /// Task `task` does not hold the processor when any of `events` is taken.
    pub open spec fn waits_through(self, events: Seq<TrapEvent>, task: int) -> bool {
        forall|j: int|
            0 <= j < events.len() ==> (#[trigger] self.after(events.take(j))).tasks.current
                != Some(task as usize)
    }

    /// What one trap can and cannot do.
    ///
    /// The kernel stays well formed and the task table keeps its size. A
    /// task that has exited stays exited. The saved registers of every task
    /// that was not running stay as they were. Elapsed time does not go
    /// down. And whenever the answer is to continue a task, that task is the
    /// current one and the registers handed out are its saved ones, which
    /// enter it unprivileged with interrupts unmasked.
    pub proof fn lemma_step(self, event: TrapEvent)
        requires
            self.wf(),
        ensures
            self.step(event).wf(),
            self.step(event).tasks.tasks.len() == self.tasks.tasks.len(),
            self.step(event).tasks.layout == self.tasks.layout,
            self.halted ==> self.step(event) == self,
            forall|i: int| self.tasks.has_exited(i) ==> self.step(event).tasks.has_exited(i),
            forall|i: int|
                0 <= i < self.tasks.tasks.len() && self.tasks.current != Some(i as usize) ==> (
                #[trigger] self.step(event).tasks.tasks[i]).saved_context
                    == self.tasks.tasks[i].saved_context,
            self.step(event).timer.elapsed_ms() >= self.timer.elapsed_ms(),
            self.answer(event).action matches Action::Resume { task, context } ==> {
                &&& self.step(event).tasks.current == Some(task)
                &&& context == self.step(event).tasks.tasks[task as int].saved_context
                &&& context.is_task_state()
            },
            self.answer(event).action is SystemOff ==> self.step(event).halted && self.step(
                event,
            ).tasks.current is None,
            self.answer(event).action is Fatal ==> self.step(event).halted,
            self.answer(event).action is Halted <==> self.halted,
            self.answer(event).action is Resume ==> !self.step(event).halted,
    {
        if !self.halted {
            let running = self.tasks.current.unwrap() as int;
            self.tasks.lemma_steps_keep_wf();
            let entered = self.tasks.save_context(event.context);
            entered.lemma_steps_keep_wf();
            entered.with_status(running, TaskStatus::Ready).lemma_dispatch_frame(running);
            entered.with_status(running, TaskStatus::Exited).lemma_dispatch_frame(running);
            entered.yield_now().lemma_steps_keep_wf();
            self.timer.lemma_time_moves_forward();
            self.controller.lemma_init_is_idempotent();
        }
    }

    /// A sequence of traps keeps the kernel well formed and the task table
    /// at its size.
    pub proof fn lemma_after_keeps_wf(self, events: Seq<TrapEvent>)
        requires
            self.wf(),
        ensures
            self.after(events).wf(),
            self.after(events).tasks.tasks.len() == self.tasks.tasks.len(),
            self.after(events).tasks.layout == self.tasks.layout,
        decreases events.len(),
    {
        if events.len() > 0 {
            self.lemma_after_keeps_wf(events.drop_last());
            self.after(events.drop_last()).lemma_step(events.last());
        }
    }

    /// Once the machine is stopped, be it switched off after the last exit
    /// or halted on a fatal trap, nothing changes any more and every answer
    /// is `Halted`. So the order to switch off is given at most once.
    pub proof fn lemma_stopped_stays_stopped(self, events: Seq<TrapEvent>, next: TrapEvent)
        requires
            self.wf(),
            self.halted,
        ensures
            self.after(events) == self,
            self.after(events).answer(next).action is Halted,
            self.after(events).answer(next).exited is None,
        decreases events.len(),
    {
        if events.len() > 0 {
            self.lemma_stopped_stays_stopped(events.drop_last(), events.last());
            self.lemma_step(events.last());
        }
        self.lemma_step(next);
    }

    /// Exit is final: a task that has exited is still exited after any
    /// sequence of traps, and it is never the running task again.
    pub proof fn lemma_exit_is_terminal(self, events: Seq<TrapEvent>, task: int)
        requires
            self.wf(),
            self.tasks.has_exited(task),
        ensures
            self.after(events).tasks.has_exited(task),
            self.after(events).tasks.tasks[task].status != TaskStatus::Ready,
            self.after(events).tasks.tasks[task].status != TaskStatus::Running,
            self.after(events).tasks.current != Some(task as usize),
        decreases events.len(),
    {
        self.lemma_after_keeps_wf(events);
        if events.len() > 0 {
            self.lemma_exit_is_terminal(events.drop_last(), task);
            self.lemma_after_keeps_wf(events.drop_last());
            self.after(events.drop_last()).lemma_step(events.last());
        }
    }

    /// The `exit` call ends its caller: whatever the exit code, the caller
    /// is `Exited` afterwards, its code is reported, and the kernel goes on
    /// with another task or switches the machine off, but never halts on an
    /// error.
    pub proof fn lemma_exit_call_ends_caller(self, context: TrapContext)
        requires
            self.wf(),
            !self.halted,
            context.regs[8] == SYSCALL_EXIT,
            context.is_task_state(),
        ensures
            self.on_trap(TrapCause::Syscall, context).0.tasks.has_exited(
                self.tasks.current.unwrap() as int,
            ),
            self.on_trap(TrapCause::Syscall, context).1.exited matches Some(record)
                && record.task == self.tasks.current.unwrap(),
            !(self.on_trap(TrapCause::Syscall, context).1.action is Fatal),
            !(self.on_trap(TrapCause::Syscall, context).1.action is Halted),
    {
        let running = self.tasks.current.unwrap() as int;
        self.tasks.lemma_steps_keep_wf();
        let entered = self.tasks.save_context(context);
        entered.with_status(running, TaskStatus::Exited).lemma_dispatch_frame(running);
    }

    /// When the last task that has not exited calls `exit`, the machine is
    /// switched off on the spot: no task is continued.
    pub proof fn lemma_last_exit_switches_off(self, context: TrapContext)
        requires
            self.wf(),
            !self.halted,
            context.regs[8] == SYSCALL_EXIT,
            forall|i: int|
                0 <= i < self.tasks.tasks.len() && self.tasks.current != Some(i as usize)
                    ==> self.tasks.has_exited(i),
            context.is_task_state(),
        ensures
            self.on_trap(TrapCause::Syscall, context).1.action is SystemOff,
            self.on_trap(TrapCause::Syscall, context).0.halted,
            self.on_trap(TrapCause::Syscall, context).0.tasks.current is None,
    {
        let running = self.tasks.current.unwrap() as int;
        self.tasks.lemma_steps_keep_wf();
        let entered = self.tasks.save_context(context);
        let exited = entered.with_status(running, TaskStatus::Exited);
        exited.lemma_dispatch_frame(running);
        if exited.dispatch_after(running).current is Some {
            let next = exited.dispatch_after(running).current.unwrap() as int;
            assert(exited.is_ready(next));
            assert(self.tasks.has_exited(next) || next == running);
        }
    }

    /// The saved registers of a task that waits, that is, does not hold the
    /// processor when any of `events` is taken, are the same after the
    /// events as before.
    pub proof fn lemma_waiting_context_is_kept(self, events: Seq<TrapEvent>, task: int)
        requires
            self.wf(),
            0 <= task < self.tasks.tasks.len(),
            self.waits_through(events, task),
        ensures
            self.after(events).tasks.tasks[task].saved_context
                == self.tasks.tasks[task].saved_context,
        decreases events.len(),
    {
        if events.len() > 0 {
            let earlier = events.drop_last();
            assert forall|j: int| 0 <= j < earlier.len() implies (#[trigger] self.after(
                earlier.take(j),
            )).tasks.current != Some(task as usize) by {
                assert(earlier.take(j) =~= events.take(j));
            }
            self.lemma_waiting_context_is_kept(earlier, task);
            self.lemma_after_keeps_wf(earlier);
            assert(earlier =~= events.take(events.len() - 1));
            self.after(earlier).lemma_step(events.last());
        }
    }

    /// A timer interrupt preempts the running task and records exactly the
    /// registers it was interrupted with. The kernel keeps running and
    /// continues some task; if that is the preempted task itself, because no
    /// other is ready, it gets those registers back at once.
    pub proof fn lemma_preemption_records_context(self, context: TrapContext)
        requires
            self.wf(),
            !self.halted,
            context.is_task_state(),
        ensures
            ({
                let task = self.tasks.current.unwrap();
                let preempted = self.on_trap(TrapCause::Interrupt { signalled: TIMER_IRQ }, context);
                &&& !preempted.0.halted
                &&& preempted.1.completed_interrupt == Some(TIMER_IRQ)
                &&& preempted.1.exited is None
                &&& preempted.0.tasks.tasks[task as int].saved_context == context
                &&& preempted.1.action matches Action::Resume { task: resumed, context: restored }
                    && (resumed == task ==> restored == context)
            }),
    {
        let task = self.tasks.current.unwrap() as int;
        let event = TrapEvent { cause: TrapCause::Interrupt { signalled: TIMER_IRQ }, context };
        self.lemma_step(event);
        self.tasks.lemma_steps_keep_wf();
        let entered = self.tasks.save_context(context);
        entered.lemma_steps_keep_wf();
        entered.with_status(task, TaskStatus::Ready).lemma_dispatch_frame(task);
    }

    /// Context symmetry. A task is preempted by the timer with registers
    /// `context`. It then waits while the traps `events` and `last` of other
    /// tasks are served, however many they are. If the answer to `last`
    /// continues the task, the registers handed out are exactly `context`:
    /// every general-purpose register, the stack pointer, the program
    /// counter and the processor state.
    pub proof fn lemma_preempted_context_is_restored(
        self,
        context: TrapContext,
        events: Seq<TrapEvent>,
        last: TrapEvent,
    )
        requires
            self.wf(),
            !self.halted,
            self.on_trap(TrapCause::Interrupt { signalled: TIMER_IRQ }, context).0.waits_through(
                events.push(last),
                self.tasks.current.unwrap() as int,
            ),
            context.is_task_state(),
        ensures
            ({
                let task = self.tasks.current.unwrap();
                let preempted = self.on_trap(TrapCause::Interrupt { signalled: TIMER_IRQ }, context);
                preempted.0.after(events).answer(last).action matches Action::Resume {
                    task: resumed,
                    context: restored,
                } ==> (resumed == task ==> restored == context)
            }),
    {
        let task = self.tasks.current.unwrap() as int;
        let event = TrapEvent { cause: TrapCause::Interrupt { signalled: TIMER_IRQ }, context };
        let preempted = self.step(event);
        self.lemma_step(event);
        self.lemma_preemption_records_context(context);
        let all = events.push(last);
        assert forall|j: int| 0 <= j < events.len() implies (#[trigger] preempted.after(
            events.take(j),
        )).tasks.current != Some(task as usize) by {
            assert(events.take(j) =~= all.take(j));
        }
        preempted.lemma_waiting_context_is_kept(events, task);
        preempted.lemma_after_keeps_wf(events);
        assert(events =~= all.take(events.len() as int));
        preempted.after(events).lemma_step(last);
    }

    /// Time never runs backwards: after any sequence of traps the elapsed
    /// time is at least what it was before.
    pub proof fn lemma_time_is_monotonic(self, events: Seq<TrapEvent>)
        requires
            self.wf(),
        ensures
            self.after(events).timer.elapsed_ms() >= self.timer.elapsed_ms(),
        decreases events.len(),
    {
        if events.len() > 0 {
            self.lemma_time_is_monotonic(events.drop_last());
            self.lemma_after_keeps_wf(events.drop_last());
            self.after(events.drop_last()).lemma_step(events.last());
        }
    }

    /// What `get_time` hands to its caller is the elapsed time, so a later
    /// call never reports less than an earlier one, whatever traps lie
    /// between them.
    pub proof fn lemma_get_time_is_monotonic(
        self,
        first: TrapContext,
        events: Seq<TrapEvent>,
        second: TrapContext,
    )
        requires
            self.wf(),
            !self.halted,
            first.regs[8] == SYSCALL_GET_TIME,
            second.regs[8] == SYSCALL_GET_TIME,
            !self.on_trap(TrapCause::Syscall, first).0.after(events).halted,
            first.is_task_state(),
            second.is_task_state(),
        ensures
            ({
                let caller = self.tasks.current.unwrap() as int;
                let earlier = self.on_trap(TrapCause::Syscall, first).0;
                let between = earlier.after(events);
                let later_caller = between.tasks.current.unwrap() as int;
                let later = between.on_trap(TrapCause::Syscall, second).0;
                &&& earlier.tasks.tasks[caller].saved_context.regs[0] == self.timer.elapsed_ms()
                &&& later.tasks.tasks[later_caller].saved_context.regs[0]
                    == between.timer.elapsed_ms()
                &&& later.tasks.tasks[later_caller].saved_context.regs[0]
                    >= earlier.tasks.tasks[caller].saved_context.regs[0]
            }),
    {
        let earlier = self.on_trap(TrapCause::Syscall, first).0;
        let event = TrapEvent { cause: TrapCause::Syscall, context: first };
        self.lemma_step(event);
        assert(earlier.timer == self.timer);
        earlier.lemma_time_is_monotonic(events);
        earlier.lemma_after_keeps_wf(events);
        self.lemma_get_time_reports_elapsed(first);
        earlier.after(events).lemma_get_time_reports_elapsed(second);
    }

    /// `get_time` stores the elapsed time in the caller's return-value
    /// register, continues the caller, and changes neither the clock nor who
    /// is running.
    pub proof fn lemma_get_time_reports_elapsed(self, context: TrapContext)
        requires
            self.wf(),
            !self.halted,
            context.regs[8] == SYSCALL_GET_TIME,
            context.is_task_state(),
        ensures
            ({
                let caller = self.tasks.current.unwrap();
                let served = self.on_trap(TrapCause::Syscall, context);
                &&& served.0.tasks.current == Some(caller)
                &&& served.0.timer == self.timer
                &&& served.0.tasks.tasks[caller as int].saved_context.regs[0]
                    == self.timer.elapsed_ms()
                &&& served.1.action matches Action::Resume { task, context: restored } && task
                    == caller && restored.regs[0] == self.timer.elapsed_ms()
            }),
    {
        self.tasks.lemma_steps_keep_wf();
    }

    /// Every timer tick moves the clock forward by one period, for as long
    /// as the count of ticks can grow.
    pub proof fn lemma_tick_advances_time(self, context: TrapContext)
        requires
            self.wf(),
            !self.halted,
            self.timer.can_count(),
            context.is_task_state(),
        ensures
            self.on_trap(TrapCause::Interrupt { signalled: TIMER_IRQ }, context).0.timer.elapsed_ms()
                == self.timer.elapsed_ms() + TICK_PERIOD_MS,
    {
        self.timer.lemma_time_moves_forward();
    }
}

} // verus!
