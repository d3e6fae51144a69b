//! The saved register state of a task: a plain fixed-size record.

use vstd::prelude::*;

verus! {

/// Number of general-purpose registers in the register file.
pub const GENERAL_REGISTERS: usize = 31;

/// Register that carries the system-call number into the kernel.
pub const SYSCALL_NUMBER_REGISTER: usize = 8;

/// Register that carries the first argument in and the return value out.
pub const RETURN_VALUE_REGISTER: usize = 0;

/// Processor state of a task that has never run: unprivileged mode with the
/// timer interrupt unmasked.
pub const INITIAL_PSTATE: usize = 0;

/// Mask of the processor-state bits that select the privilege level.
pub const PSTATE_MODE_MASK: usize = 0xf;

/// Processor-state bit that masks ordinary interrupts while set.
pub const PSTATE_IRQ_MASKED: usize = 0x80;

/// Everything the processor needs to continue a task where it left off.
#[derive(Clone, Copy, Debug, PartialEq, Eq)]
pub struct TrapContext {
    /// General-purpose registers.
    pub regs: [usize; 31],
    /// User stack pointer.
    pub sp: usize,
    /// Program counter at which the task continues.
    pub pc: usize,
    /// Saved processor state, privilege level and interrupt masks included.
    pub pstate: usize,
}

impl TrapContext {
    /// The privilege bits say "unprivileged".
    pub open spec fn is_unprivileged(&self) -> bool {
        self.pstate & PSTATE_MODE_MASK == 0
    }

    /// Ordinary interrupts are delivered while this state is live.
    pub open spec fn interrupts_unmasked(&self) -> bool {
        self.pstate & PSTATE_IRQ_MASKED == 0
    }

    /// The registers are those of a task: unprivileged, with interrupts
    /// unmasked. Continuing from such registers enters the task and leaves
    /// the timer able to preempt it.
    pub open spec fn is_task_state(&self) -> bool {
        self.is_unprivileged() && self.interrupts_unmasked()
    }

    /// The state of a task about to execute its first instruction.
    pub open spec fn initial(entry: usize, sp: usize) -> TrapContext {
        TrapContext {
            regs: vstd::array::spec_array_fill_for_copy_type::<usize, 31>(0),
            sp,
            pc: entry,
            pstate: INITIAL_PSTATE,
        }
    }

    /// Builds the context of a task that has not run yet: it starts at `entry`
    /// on an empty stack whose top is `sp`, unprivileged, with every
    /// general-purpose register cleared.
    pub fn app_init_context(entry: usize, sp: usize) -> (ctx: TrapContext)
        ensures
            ctx == TrapContext::initial(entry, sp),
            forall|i: int| 0 <= i < 31 ==> ctx.regs[i] == 0,
            ctx.sp == sp,
            ctx.pc == entry,
            ctx.is_task_state(),
    {
        assert(0usize & 0xf == 0) by (bit_vector);
        assert(0usize & 0x80 == 0) by (bit_vector);
        TrapContext { regs: [0usize; 31], sp, pc: entry, pstate: INITIAL_PSTATE }
    }

    /// A task that has not run yet has the registers of a task.
    pub proof fn lemma_initial_is_task_state(entry: usize, sp: usize)
        ensures
            TrapContext::initial(entry, sp).is_task_state(),
    {
        assert(0usize & 0xf == 0) by (bit_vector);
        assert(0usize & 0x80 == 0) by (bit_vector);
    }

    /// Whether the registers are those of a task: unprivileged, with
    /// interrupts unmasked.
    pub fn from_task(&self) -> (b: bool)
        ensures
            b == self.is_task_state(),
    {
        (self.pstate & PSTATE_MODE_MASK) == 0 && (self.pstate & PSTATE_IRQ_MASKED) == 0
    }

    /// The system-call number a task passed when it trapped.
    pub fn syscall_number(&self) -> (n: usize)
        ensures
            n == self.regs[SYSCALL_NUMBER_REGISTER as int],
    {
        self.regs[SYSCALL_NUMBER_REGISTER]
    }

    /// The first system-call argument.
    pub fn first_argument(&self) -> (a: usize)
        ensures
            a == self.regs[0],
    {
        self.regs[0]
    }

    /// Stores a system call's result where the task will find it, leaving
    /// every other register as it was.
    pub fn set_return_value(&mut self, value: usize)
        ensures
            final(self).regs@ == old(self).regs@.update(RETURN_VALUE_REGISTER as int, value),
            final(self).sp == old(self).sp,
            final(self).pc == old(self).pc,
            final(self).pstate == old(self).pstate,
    {
        self.regs[RETURN_VALUE_REGISTER] = value;
    }
}

} // verus!
