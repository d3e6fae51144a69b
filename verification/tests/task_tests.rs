use kernel_core::context::TrapContext;
use kernel_core::memory::MemoryLayout;
use kernel_core::syscall::{sys_exit, ExitRecord};
use kernel_core::task::{TaskManager, TaskStatus};

const USER_STACKS: usize = 0x5000_0000;
const KERNEL_STACKS: usize = 0x5100_0000;

fn manager(n: usize) -> TaskManager {
    TaskManager::init(MemoryLayout::new(n, USER_STACKS, KERNEL_STACKS).unwrap())
}

fn statuses(tasks: &TaskManager) -> Vec<TaskStatus> {
    (0..tasks.task_count()).map(|i| tasks.task(i).unwrap().status).collect()
}

#[test]
fn init_builds_one_ready_task_per_slot() {
    let tasks = manager(3);
    assert_eq!(tasks.task_count(), 3);
    assert_eq!(tasks.current(), None);
    assert!(tasks.task(3).is_none());
    for id in 0..3 {
        let tcb = tasks.task(id).unwrap();
        assert_eq!(tcb.id, id);
        assert_eq!(tcb.status, TaskStatus::Ready);
        assert_eq!(tcb.memory_region.base, 0x4020_0000 + id * 0x20000);
        assert_eq!(tcb.memory_region.size, 0x20000);
        assert_eq!(tcb.user_stack.base, USER_STACKS + id * 8192);
        assert_eq!(tcb.kernel_stack.base, KERNEL_STACKS + id * 8192);
        assert_eq!(tcb.saved_context.pc, 0x4020_0000 + id * 0x20000);
        assert_eq!(tcb.saved_context.sp, USER_STACKS + (id + 1) * 8192);
        assert_eq!(tcb.saved_context.regs, [0usize; 31]);
        assert_eq!(tcb.saved_context.pstate & 0xf, 0);
        assert_eq!(tcb.saved_context.pstate & 0x80, 0);
    }
}

#[test]
fn initial_context_is_unprivileged_with_clear_registers() {
    let ctx = TrapContext::app_init_context(0x4020_0000, 0x5000_2000);
    assert_eq!(ctx.pc, 0x4020_0000);
    assert_eq!(ctx.sp, 0x5000_2000);
    assert_eq!(ctx.regs, [0usize; 31]);
    assert_eq!(ctx.pstate, 0);
    assert_eq!(ctx.syscall_number(), 0);
    assert_eq!(ctx.first_argument(), 0);
}

#[test]
fn return_value_goes_to_register_zero_only() {
    let mut ctx = TrapContext::app_init_context(1, 2);
    ctx.regs[8] = 124;
    ctx.regs[1] = 5;
    ctx.set_return_value(77);
    assert_eq!(ctx.regs[0], 77);
    assert_eq!(ctx.regs[1], 5);
    assert_eq!(ctx.regs[8], 124);
    assert_eq!(ctx.pc, 1);
    assert_eq!(ctx.sp, 2);
    assert_eq!(ctx.first_argument(), 77);
    assert_eq!(ctx.syscall_number(), 124);
}

#[test]
fn run_starts_the_first_task() {
    let mut tasks = manager(3);
    assert_eq!(tasks.run(), Some(0));
    assert_eq!(tasks.current(), Some(0));
    assert_eq!(tasks.current_task().id, 0);
    assert_eq!(statuses(&tasks), vec![TaskStatus::Running, TaskStatus::Ready, TaskStatus::Ready]);
}

#[test]
fn run_with_no_tasks_starts_nothing() {
    let mut tasks = manager(0);
    assert_eq!(tasks.run(), None);
    assert_eq!(tasks.current(), None);
}

#[test]
fn yield_goes_round_in_id_order() {
    let mut tasks = manager(3);
    tasks.run();
    assert_eq!(tasks.yield_now(), 1);
    assert_eq!(statuses(&tasks), vec![TaskStatus::Ready, TaskStatus::Running, TaskStatus::Ready]);
    assert_eq!(tasks.yield_now(), 2);
    assert_eq!(tasks.yield_now(), 0);
    assert_eq!(tasks.yield_now(), 1);
    assert_eq!(tasks.current(), Some(1));
}

#[test]
fn lone_task_yields_to_itself() {
    let mut tasks = manager(1);
    tasks.run();
    assert_eq!(tasks.yield_now(), 0);
    assert_eq!(statuses(&tasks), vec![TaskStatus::Running]);
}

#[test]
fn yield_skips_exited_tasks() {
    let mut tasks = manager(4);
    tasks.run();
    assert_eq!(tasks.yield_now(), 1);
    assert_eq!(tasks.exit(), Some(2));
    assert_eq!(tasks.yield_now(), 3);
    assert_eq!(tasks.yield_now(), 0);
    assert_eq!(tasks.yield_now(), 2);
    assert_eq!(tasks.exit(), Some(3));
    assert_eq!(tasks.yield_now(), 0);
    assert_eq!(tasks.yield_now(), 3);
    assert_eq!(
        statuses(&tasks),
        vec![TaskStatus::Ready, TaskStatus::Exited, TaskStatus::Exited, TaskStatus::Running]
    );
}

#[test]
fn exit_of_the_last_task_leaves_nobody_running() {
    let mut tasks = manager(2);
    tasks.run();
    assert_eq!(tasks.exit(), Some(1));
    assert_eq!(tasks.exit(), None);
    assert_eq!(tasks.current(), None);
    assert_eq!(statuses(&tasks), vec![TaskStatus::Exited, TaskStatus::Exited]);
}

#[test]
fn exited_task_never_comes_back() {
    let mut tasks = manager(3);
    tasks.run();
    tasks.yield_now();
    assert_eq!(tasks.exit(), Some(2));
    for _ in 0..20 {
        let next = tasks.yield_now();
        assert_ne!(next, 1);
        assert_eq!(tasks.task(1).unwrap().status, TaskStatus::Exited);
    }
}

#[test]
fn every_task_gets_the_same_number_of_turns() {
    let n = 5;
    let rounds = 7;
    let mut tasks = manager(n);
    let mut turns = vec![0usize; n];
    turns[tasks.run().unwrap()] += 1;
    for k in 1..=(rounds * n) {
        let next = tasks.yield_now();
        assert_eq!(next, k % n);
        turns[next] += 1;
        let most = *turns.iter().max().unwrap();
        let least = *turns.iter().min().unwrap();
        assert!(most - least <= 1);
    }
    assert_eq!(turns, vec![rounds + 1, rounds, rounds, rounds, rounds]);
}

#[test]
fn turns_follow_the_closed_form() {
    let n = 3;
    let mut tasks = manager(n);
    let mut turns = vec![0usize; n];
    turns[tasks.run().unwrap()] += 1;
    for k in 1..=10usize {
        turns[tasks.yield_now()] += 1;
        for task in 0..n {
            let expected = k / n + if task <= k % n { 1 } else { 0 };
            assert_eq!(turns[task], expected);
        }
    }
    assert_eq!(turns, vec![4, 4, 3]);
}

#[test]
fn save_context_touches_the_current_task_only() {
    let mut tasks = manager(2);
    tasks.run();
    let before_other = tasks.task(1).unwrap().saved_context;
    let mut ctx = TrapContext::app_init_context(0x1234, 0x5678);
    ctx.regs[5] = 55;
    tasks.save_context(ctx);
    assert_eq!(tasks.task(0).unwrap().saved_context, ctx);
    assert_eq!(tasks.task(1).unwrap().saved_context, before_other);
    tasks.set_return_value(1, 9);
    assert_eq!(tasks.task(1).unwrap().saved_context.regs[0], 9);
    assert_eq!(tasks.task(1).unwrap().saved_context.pc, before_other.pc);
    assert_eq!(tasks.task(0).unwrap().saved_context, ctx);
}

#[test]
fn sys_exit_reports_task_and_code() {
    let mut tasks = manager(2);
    tasks.run();
    assert_eq!(sys_exit(&mut tasks, -3), ExitRecord { task: 0, code: -3 });
    assert_eq!(tasks.current(), Some(1));
    assert_eq!(sys_exit(&mut tasks, 0), ExitRecord { task: 1, code: 0 });
    assert_eq!(tasks.current(), None);
}
