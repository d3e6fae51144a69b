//! The trap handler and the kernel it belongs to.
//!
//! Every return to the kernel comes through [`Kernel::handle_trap`]: the
//! registers of the interrupted task are recorded, the cause is served, and
//! the answer says what the machine does next. What the handler decides is
//! written once, as [`KernelState::on_trap`]; the executable handler is proved
//! to compute exactly that.

use vstd::prelude::*;
use crate::context::TrapContext;
use crate::gicv2::{ControllerState, InterruptController, TIMER_IRQ};
use crate::loader::{images_loaded, load_apps, table_verdict, AppEntry, BootError};
use crate::memory::{Memory, MemoryLayout};
use crate::syscall::{
    exit_code_of, syscall, ExitRecord, SyscallResult, SYSCALL_EXIT, SYSCALL_GET_TIME,
    SYSCALL_YIELD,
};
use crate::task::{SchedState, TaskControlBlock, TaskManager, TaskStatus};
use crate::timer::{Timer, TimerState};

verus! {

/// Why the processor left a task and entered the kernel.
#[derive(Clone, Copy, Debug, PartialEq, Eq, Structural)]
pub enum TrapCause {
    /// The task executed the system-call instruction.
    Syscall,
    /// An interrupt arrived; `signalled` is the identifier the interrupt
    /// controller reports for it.
    Interrupt { signalled: usize },
    /// Anything else; `class` is the exception class the processor reports.
    Other { class: usize },
}

/// Why the kernel gives up. None of these is recoverable.
#[derive(Clone, Copy, Debug, PartialEq, Eq, Structural)]
pub enum FatalReason {
    /// A trap of a kind the kernel does not serve.
    UnknownCause { class: usize },
    /// A system call with a number the kernel does not know.
    UnknownSyscall { number: usize },
    /// An interrupt that is not the timer's, or that the controller cannot
    /// take into service.
    UnexpectedInterrupt { signalled: usize },
    /// The registers captured are not those of a task: they show privileged
    /// mode or masked interrupts, so the trap did not come from a task.
    NotFromTask,
}

/// What the machine does once the trap handler is done.
#[derive(Clone, Copy, Debug, PartialEq, Eq)]
pub enum Action {
    /// Load `context` into the processor and continue task `task` in
    /// unprivileged mode.
    Resume { task: usize, context: TrapContext },
    /// Every task has exited: switch the machine off.
    SystemOff,
    /// Report `reason` together with the task that trapped, and halt.
    Fatal { reason: FatalReason, task: usize },
    /// The machine was stopped earlier; there is nothing to do.
    Halted,
}

/// The trap handler's answer.
#[derive(Clone, Copy, Debug, PartialEq, Eq)]
pub struct TrapOutcome {
    /// A task ended in this trap: the console reports its exit code.
    pub exited: Option<ExitRecord>,
    /// The interrupt served in this trap: the controller is told it is
    /// completed and the timer is armed for the next tick.
    pub completed_interrupt: Option<usize>,
    /// What the machine does next.
    pub action: Action,
}

/// The mathematical value of a [`Kernel`].
pub struct KernelState {
    pub tasks: SchedState,
    pub timer: TimerState,
    pub controller: ControllerState,
    /// The machine was switched off or halted on a fatal trap.
    pub halted: bool,
}

impl KernelState {
    /// Every part is well formed; the registers saved for every task are
    /// those of a task; and while the machine runs, a task holds the
    /// processor, the timer is armed and the controller is ready to take the
    /// timer's interrupt.
    pub open spec fn wf(self) -> bool {
        &&& self.tasks.wf()
        &&& forall|i: int|
            0 <= i < self.tasks.tasks.len() ==> (#[trigger] self.tasks.tasks[i])
                .saved_context.is_task_state()
        &&& self.timer.wf()
        &&& self.controller.wf()
        &&& !self.halted ==> {
            &&& self.tasks.current is Some
            &&& self.timer.armed
            &&& self.controller.accepts(TIMER_IRQ)
        }
    }

    /// The kernel as boot leaves it for the given layout: controller up with
    /// the timer's line enabled, timer armed, every task ready and the first
    /// of them dispatched. With no task at all the machine is stopped at
    /// once.
    pub open spec fn booted(layout: MemoryLayout) -> KernelState {
        let tasks = SchedState::booted(layout).run();
        KernelState {
            tasks,
            timer: TimerState::fresh().init(),
            controller: ControllerState::fresh().init().enable(TIMER_IRQ),
            halted: tasks.current is None,
        }
    }

    /// Continue the current task from its saved registers; with no current
    /// task, switch the machine off.
    pub open spec fn next_action(self) -> Action {
        match self.tasks.current {
            Some(task) => Action::Resume {
                task,
                context: self.tasks.tasks[task as int].saved_context,
            },
            None => Action::SystemOff,
        }
    }

    /// The kernel stopped for good.
    pub open spec fn stopped(self) -> KernelState {
        KernelState { halted: true, ..self }
    }

    /// A system call by task `caller`, whose registers are already recorded.
    pub open spec fn on_syscall(self, caller: usize, number: usize, argument: usize) -> (
        KernelState,
        TrapOutcome,
    ) {
        if number == SYSCALL_EXIT {
            let tasks = self.tasks.exit();
            let after = KernelState { tasks, halted: tasks.current is None, ..self };
            (
                after,
                TrapOutcome {
                    exited: Some(ExitRecord { task: caller, code: exit_code_of(argument) }),
                    completed_interrupt: None,
                    action: after.next_action(),
                },
            )
        } else if number == SYSCALL_YIELD {
            let after = KernelState {
                tasks: self.tasks.yield_now().with_return_value(caller as int, 0),
                ..self
            };
            (
                after,
                TrapOutcome { exited: None, completed_interrupt: None, action: after.next_action() },
            )
        } else if number == SYSCALL_GET_TIME {
            let after = KernelState {
                tasks: self.tasks.with_return_value(
                    caller as int,
                    self.timer.elapsed_ms() as usize,
                ),
                ..self
            };
            (
                after,
                TrapOutcome { exited: None, completed_interrupt: None, action: after.next_action() },
            )
        } else {
            (
                self.stopped(),
                TrapOutcome {
                    exited: None,
                    completed_interrupt: None,
                    action: Action::Fatal {
                        reason: FatalReason::UnknownSyscall { number },
                        task: caller,
                    },
                },
            )
        }
    }

    /// An interrupt that arrived while task `running` held the processor and
    /// whose registers are already recorded. The timer's interrupt is
    /// acknowledged and completed, the tick is counted and the next one
    /// armed, and the task is preempted exactly as if it had yielded.
    pub open spec fn on_interrupt(self, running: usize, signalled: usize) -> (
        KernelState,
        TrapOutcome,
    ) {
        if self.controller.accepts(signalled) && signalled == TIMER_IRQ {
            let after = KernelState {
                tasks: self.tasks.yield_now(),
                timer: self.timer.rearm(),
                controller: self.controller.acknowledge(signalled).end_of_interrupt(signalled),
                ..self
            };
            (
                after,
                TrapOutcome {
                    exited: None,
                    completed_interrupt: Some(signalled),
                    action: after.next_action(),
                },
            )
        } else {
            (
                KernelState {
                    controller: self.controller.acknowledge(signalled),
                    ..self.stopped()
                },
                TrapOutcome {
                    exited: None,
                    completed_interrupt: None,
                    action: Action::Fatal {
                        reason: FatalReason::UnexpectedInterrupt { signalled },
                        task: running,
                    },
                },
            )
        }
    }

    /// What a trap does to the kernel and what the handler answers. A trap
    /// that did not come from a task is fatal. Otherwise the registers of
    /// the interrupted task, `context`, are recorded in its control block on
    /// entry, and then the cause is served. A stopped machine stays as it is.
    pub open spec fn on_trap(self, cause: TrapCause, context: TrapContext) -> (
        KernelState,
        TrapOutcome,
    ) {
        if self.halted {
            (self, TrapOutcome { exited: None, completed_interrupt: None, action: Action::Halted })
        } else if !context.is_task_state() {
            (
                self.stopped(),
                TrapOutcome {
                    exited: None,
                    completed_interrupt: None,
                    action: Action::Fatal {
                        reason: FatalReason::NotFromTask,
                        task: self.tasks.current.unwrap(),
                    },
                },
            )
        } else {
            let running = self.tasks.current.unwrap();
            let entered = KernelState { tasks: self.tasks.save_context(context), ..self };
            match cause {
                TrapCause::Syscall => entered.on_syscall(running, context.regs[8], context.regs[0]),
                TrapCause::Interrupt { signalled } => entered.on_interrupt(running, signalled),
                TrapCause::Other { class } => (
                    entered.stopped(),
                    TrapOutcome {
                        exited: None,
                        completed_interrupt: None,
                        action: Action::Fatal {
                            reason: FatalReason::UnknownCause { class },
                            task: running,
                        },
                    },
                ),
            }
        }
    }
}

/// The kernel: the task table, the timer and the interrupt controller's
/// bookkeeping, owned in one place and reached only through boot and the
/// trap handler.
pub struct Kernel {
    tasks: TaskManager,
    timer: Timer,
    controller: InterruptController,
    halted: bool,
}

impl View for Kernel {
    type V = KernelState;

    closed spec fn view(&self) -> KernelState {
        KernelState {
            tasks: self.tasks@,
            timer: self.timer@,
            controller: self.controller@,
            halted: self.halted,
        }
    }
}

impl Kernel {
    /// The kernel is well formed, part by part and as a whole.
    pub closed spec fn wf(&self) -> bool {
        &&& self@.wf()
        &&& self.tasks.wf()
        &&& self.timer.wf()
        &&& self.controller.wf()
    }

    /// A well-formed kernel has a well-formed value.
    pub proof fn lemma_wf_view(&self)
        requires
            self.wf(),
        ensures
            self@.wf(),
    {
    }

    /// Whether the machine was switched off or halted.
    pub fn is_halted(&self) -> (halted: bool)
        ensures
            halted == self@.halted,
    {
        self.halted
    }

    /// Id of the task that holds the processor, if any.
    pub fn current(&self) -> (current: Option<usize>)
        ensures
            current == self@.tasks.current,
    {
        self.tasks.current()
    }

    /// Number of tasks, whatever their status.
    pub fn task_count(&self) -> (n: usize)
        ensures
            n == self@.tasks.tasks.len(),
    {
        self.tasks.task_count()
    }

    /// The control block of task `id`, or `None` if there is no such task.
    pub fn task(&self, id: usize) -> (task: Option<&TaskControlBlock>)
        ensures
            task == (if id < self@.tasks.tasks.len() {
                Some(&self@.tasks.tasks[id as int])
            } else {
                None
            }),
    {
        self.tasks.task(id)
    }

    /// Milliseconds since boot.
    pub fn elapsed_ms(&self) -> (ms: u64)
        requires
            self.wf(),
        ensures
            ms == self@.timer.elapsed_ms(),
    {
        self.timer.elapsed_ms()
    }

    /// Brings the machine up: the interrupt controller with the timer's line
    /// enabled, the timer armed, every image of `table` copied from `data`
    /// into its slot, one task made for each, and the first task dispatched.
    /// Returns the kernel, the loaded memory and the first thing for the
    /// machine to do: continue task 0, or switch off when there is no task.
    ///
    /// A faulty table or an impossible placement of the stacks aborts the
    /// boot with the loader's error; no task has run then.
    pub fn boot(
        table: &Vec<AppEntry>,
        data: &Vec<u8>,
        user_stack_base: usize,
        kernel_stack_base: usize,
    ) -> (booted: Result<(Kernel, Memory, Action), BootError>)
        ensures
            match booted {
                Ok((kernel, mem, action)) => {
                    let layout = MemoryLayout {
                        task_count: table.len(),
                        user_stack_base,
                        kernel_stack_base,
                    };
                    &&& table_verdict(table@, data.len() as int, Ok(()))
                    &&& layout.wf()
                    &&& kernel.wf()
                    &&& kernel@ == KernelState::booted(layout)
                    &&& action == kernel@.next_action()
                    &&& mem.wf()
                    &&& mem@.layout == layout
                    &&& images_loaded(mem@, table@, data@)
                },
                Err(BootError::LayoutConflict) => {
                    &&& table_verdict(table@, data.len() as int, Ok(()))
                    &&& !(MemoryLayout {
                        task_count: table.len(),
                        user_stack_base,
                        kernel_stack_base,
                    }).wf()
                },
                Err(fault) => table_verdict(table@, data.len() as int, Err(fault)),
            },
    {
        let mut controller = InterruptController::new();
        controller.init();
        controller.enable(TIMER_IRQ);
        let mut timer = Timer::new();
        timer.init();
        let mem = match load_apps(table, data, user_stack_base, kernel_stack_base) {
            Ok(mem) => mem,
            Err(fault) => { return Err(fault); },
        };
        let mut tasks = TaskManager::init(mem.layout());
        proof {
            let fresh = tasks@;
            assert forall|i: int| 0 <= i < fresh.tasks.len() implies (#[trigger] fresh.tasks[i])
                .saved_context.is_task_state() by {
                let layout = fresh.layout;
                TrapContext::lemma_initial_is_task_state(
                    layout.memory_region_of(i).base,
                    layout.user_stack_of(i).end() as usize,
                );
            }
            if fresh.tasks.len() > 0 {
                fresh.lemma_dispatch_frame(fresh.tasks.len() - 1);
            }
        }
        let started = tasks.run();
        let kernel = Kernel { tasks, timer, controller, halted: started.is_none() };
        let action = kernel.next_action();
        Ok((kernel, mem, action))
    }

    /// Serves one trap. `context` holds the registers of the interrupted
    /// task as the processor captured them; they are recorded in the task's
    /// control block before anything else happens.
    ///
    /// * A system call is carried out and its result stored in the caller's
    ///   return-value register; `exit` is reported for the console instead.
    /// * The timer's interrupt is acknowledged and completed, the tick is
    ///   counted, the timer armed again and the running task preempted.
    /// * Anything else is fatal: an unknown cause, an unknown system call, an
    ///   interrupt that is not the timer's, registers that are not a task's.
    ///
    /// The answer names the task to continue and the registers to continue
    /// it with, which are always the ones recorded for that task and always
    /// enter it unprivileged with interrupts unmasked; or it says
    /// that the machine is to be switched off, because the last task has
    /// exited, or halted. Once stopped, the kernel answers `Halted` and
    /// changes nothing.
    pub fn handle_trap(&mut self, cause: TrapCause, context: TrapContext) -> (outcome: TrapOutcome)
        requires
            old(self).wf(),
        ensures
            final(self).wf(),
            final(self)@ == old(self)@.on_trap(cause, context).0,
            outcome == old(self)@.on_trap(cause, context).1,
    {
        if self.halted {
            return TrapOutcome { exited: None, completed_interrupt: None, action: Action::Halted };
        }
        let running = self.tasks.current().unwrap();
        if !context.from_task() {
            self.halted = true;
            return TrapOutcome {
                exited: None,
                completed_interrupt: None,
                action: Action::Fatal { reason: FatalReason::NotFromTask, task: running },
            };
        }
        self.tasks.save_context(context);
        proof {
            self.tasks@.lemma_steps_keep_wf();
            let entered = self.tasks@;
            entered.with_status(running as int, TaskStatus::Ready).lemma_dispatch_frame(
                running as int,
            );
            entered.with_status(running as int, TaskStatus::Exited).lemma_dispatch_frame(
                running as int,
            );
        }
        match cause {
            TrapCause::Syscall => {
                let number = context.syscall_number();
                let argument = context.first_argument();
                match syscall(number, argument, &mut self.tasks, &self.timer) {
                    Some(SyscallResult::Value { task, value }) => {
                        self.tasks.set_return_value(task, value as usize);
                        let action = self.next_action();
                        TrapOutcome { exited: None, completed_interrupt: None, action }
                    },
                    Some(SyscallResult::Exit { record }) => {
                        self.halted = self.tasks.current().is_none();
                        let action = self.next_action();
                        TrapOutcome { exited: Some(record), completed_interrupt: None, action }
                    },
                    None => {
                        self.halted = true;
                        TrapOutcome {
                            exited: None,
                            completed_interrupt: None,
                            action: Action::Fatal {
                                reason: FatalReason::UnknownSyscall { number },
                                task: running,
                            },
                        }
                    },
                }
            },
            TrapCause::Interrupt { signalled } => {
                let taken = self.controller.acknowledge(signalled);
                if taken.is_some() && signalled == TIMER_IRQ {
                    self.controller.end_of_interrupt(signalled);
                    self.timer.rearm();
                    self.tasks.yield_now();
                    let action = self.next_action();
                    TrapOutcome { exited: None, completed_interrupt: Some(signalled), action }
                } else {
                    self.halted = true;
                    TrapOutcome {
                        exited: None,
                        completed_interrupt: None,
                        action: Action::Fatal {
                            reason: FatalReason::UnexpectedInterrupt { signalled },
                            task: running,
                        },
                    }
                }
            },
            TrapCause::Other { class } => {
                self.halted = true;
                TrapOutcome {
                    exited: None,
                    completed_interrupt: None,
                    action: Action::Fatal {
                        reason: FatalReason::UnknownCause { class },
                        task: running,
                    },
                }
            },
        }
    }

    /// Continue the current task from its saved registers; with no current
    /// task, switch the machine off.
    fn next_action(&self) -> (action: Action)
        requires
            self.tasks.wf(),
        ensures
            action == self@.next_action(),
    {
        match self.tasks.current() {
            Some(task) => Action::Resume {
                task,
                context: self.tasks.current_task().saved_context,
            },
            None => Action::SystemOff,
        }
    }
}

} // verus!
