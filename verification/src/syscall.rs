//! The system calls a task can make, and the mapping from call number to
//! handler. The dispatcher keeps no state of its own.

use vstd::prelude::*;
use crate::task::{SchedState, TaskManager};
use crate::timer::{Timer, TimerState};

verus! {

/// Number of the call that ends the calling task.
pub const SYSCALL_EXIT: usize = 93;

/// Number of the call that gives the processor up.
pub const SYSCALL_YIELD: usize = 124;

/// Number of the call that reads the time since boot.
pub const SYSCALL_GET_TIME: usize = 169;

/// What the console is told when a task ends: which task, and the code it
/// gave. The code is informational, whatever its value.
#[derive(Clone, Copy, Debug, PartialEq, Eq, Structural)]
pub struct ExitRecord {
    pub task: usize,
    pub code: i32,
}

/// What a system call leaves for the trap handler to do.
#[derive(Clone, Copy, Debug, PartialEq, Eq, Structural)]
pub enum SyscallResult {
    /// `value` goes into the return-value register of task `task`.
    Value { task: usize, value: isize },
    /// The calling task has ended; nothing is returned to it.
    Exit { record: ExitRecord },
}

/// The exit code a task passed in its first argument register: the low 32
/// bits, read as a signed number.
pub open spec fn exit_code_of(argument: usize) -> i32 {
    argument as i32
}

/// `number` names one of the three system calls.
pub open spec fn is_known_syscall(number: usize) -> bool {
    number == SYSCALL_EXIT || number == SYSCALL_YIELD || number == SYSCALL_GET_TIME
}

/// The task table after system call `number` made by the current task.
/// `get_time` and unknown numbers leave it alone.
pub open spec fn tasks_after_syscall(tasks: SchedState, number: usize) -> SchedState {
    if number == SYSCALL_EXIT {
        tasks.exit()
    } else if number == SYSCALL_YIELD {
        tasks.yield_now()
    } else {
        tasks
    }
}

/// What system call `number`, made by the current task with first argument
/// `argument`, hands back; `None` for an unknown number.
pub open spec fn syscall_result(
    tasks: SchedState,
    timer: TimerState,
    number: usize,
    argument: usize,
) -> Option<SyscallResult> {
    let caller = tasks.current.unwrap();
    if number == SYSCALL_EXIT {
        Some(
            SyscallResult::Exit {
                record: ExitRecord { task: caller, code: exit_code_of(argument) },
            },
        )
    } else if number == SYSCALL_YIELD {
        Some(SyscallResult::Value { task: caller, value: 0 })
    } else if number == SYSCALL_GET_TIME {
        Some(SyscallResult::Value { task: caller, value: timer.elapsed_ms() as isize })
    } else {
        None
    }
}

/// Ends the current task with `exit_code`: the task becomes `Exited` and the
/// next ready task, if there is one, becomes current. Returns what the
/// console is to report. The caller gets no result from this call: it never
/// runs again.
pub fn sys_exit(tasks: &mut TaskManager, exit_code: i32) -> (record: ExitRecord)
    requires
        old(tasks).wf(),
        old(tasks)@.current is Some,
    ensures
        final(tasks).wf(),
        final(tasks)@ == old(tasks)@.exit(),
        record == (ExitRecord { task: old(tasks)@.current.unwrap(), code: exit_code }),
{
    let task = tasks.current().unwrap();
    tasks.exit();
    ExitRecord { task, code: exit_code }
}

/// Gives the processor up on behalf of the current task, which goes to the
/// back of the round. Returns 0, the value the task sees when it next runs.
pub fn sys_yield(tasks: &mut TaskManager) -> (result: isize)
    requires
        old(tasks).wf(),
        old(tasks)@.current is Some,
    ensures
        final(tasks).wf(),
        final(tasks)@ == old(tasks)@.yield_now(),
        result == 0,
{
    tasks.yield_now();
    0
}

/// Milliseconds since boot. Switches no task and changes nothing.
pub fn sys_get_time(timer: &Timer) -> (result: isize)
    requires
        timer.wf(),
    ensures
        result == timer@.elapsed_ms(),
        result >= 0,
{
    timer.elapsed_ms() as isize
}

/// Carries out system call `number` for the current task, `argument` being
/// its first argument register. An unknown number gives `None` and changes
/// nothing: the kernel treats it as a fatal trap, not as an error to report to
/// the task.
pub fn syscall(number: usize, argument: usize, tasks: &mut TaskManager, timer: &Timer) -> (result:
    Option<SyscallResult>)
    requires
        old(tasks).wf(),
        old(tasks)@.current is Some,
        timer.wf(),
    ensures
        final(tasks).wf(),
        final(tasks)@ == tasks_after_syscall(old(tasks)@, number),
        result == syscall_result(old(tasks)@, timer@, number, argument),
        result is Some <==> is_known_syscall(number),
        result matches Some(SyscallResult::Value { task, value }) ==> value >= 0
            && task < final(tasks)@.tasks.len(),
{
    let caller = tasks.current().unwrap();
    if number == SYSCALL_EXIT {
        let record = sys_exit(tasks, #[verifier::truncate] (argument as i32));
        Some(SyscallResult::Exit { record })
    } else if number == SYSCALL_YIELD {
        let value = sys_yield(tasks);
        Some(SyscallResult::Value { task: caller, value })
    } else if number == SYSCALL_GET_TIME {
        let value = sys_get_time(timer);
        Some(SyscallResult::Value { task: caller, value })
    } else {
        None
    }
}

} // verus!
