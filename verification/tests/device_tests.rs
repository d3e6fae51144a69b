use kernel_core::gicv2::{InterruptController, IRQ_LINES, TIMER_IRQ};
use kernel_core::syscall::sys_get_time;
use kernel_core::timer::{Timer, MSEC_PER_SEC, TICKS_PER_SEC, TICK_PERIOD_MS};

#[test]
fn tick_period_matches_the_tick_rate() {
    assert_eq!(TICK_PERIOD_MS, MSEC_PER_SEC / TICKS_PER_SEC);
    assert_eq!(TICK_PERIOD_MS, 10);
}

#[test]
fn timer_counts_one_period_per_tick() {
    let mut timer = Timer::new();
    assert!(!timer.is_armed());
    assert_eq!(timer.elapsed_ms(), 0);
    timer.init();
    assert!(timer.is_armed());
    assert_eq!(timer.elapsed_ms(), 0);
    let mut last = 0;
    for tick in 1..=50u64 {
        timer.rearm();
        assert!(timer.is_armed());
        assert_eq!(timer.ticks(), tick);
        assert_eq!(timer.elapsed_ms(), tick * 10);
        assert!(timer.elapsed_ms() > last);
        last = timer.elapsed_ms();
    }
    assert_eq!(sys_get_time(&timer), 500);
}

#[test]
fn init_keeps_the_count() {
    let mut timer = Timer::new();
    timer.init();
    timer.rearm();
    timer.rearm();
    timer.init();
    assert_eq!(timer.ticks(), 2);
    assert_eq!(timer.elapsed_ms(), 20);
}

#[test]
fn controller_is_inert_before_init() {
    let mut gic = InterruptController::new();
    assert!(!gic.enable(TIMER_IRQ));
    assert!(!gic.is_enabled(TIMER_IRQ));
    assert_eq!(gic.acknowledge(TIMER_IRQ), None);
    assert_eq!(gic.active(), None);
    assert!(!gic.end_of_interrupt(TIMER_IRQ));
}

#[test]
fn controller_init_is_idempotent() {
    let mut gic = InterruptController::new();
    gic.init();
    assert!(!gic.is_enabled(TIMER_IRQ));
    assert!(gic.enable(TIMER_IRQ));
    assert!(gic.enable(33));
    gic.init();
    assert!(gic.is_enabled(TIMER_IRQ));
    assert!(gic.is_enabled(33));
    assert!(!gic.is_enabled(34));
    assert_eq!(gic.acknowledge(33), Some(33));
    gic.init();
    assert_eq!(gic.active(), Some(33));
}

#[test]
fn only_existing_lines_can_be_enabled() {
    let mut gic = InterruptController::new();
    gic.init();
    assert_eq!(TIMER_IRQ, 30);
    assert_eq!(IRQ_LINES, 1020);
    assert!(gic.enable(0));
    assert!(gic.enable(IRQ_LINES - 1));
    assert!(!gic.enable(IRQ_LINES));
    assert!(!gic.enable(1023));
    assert!(!gic.is_enabled(IRQ_LINES));
    assert!(!gic.is_enabled(usize::MAX));
}

#[test]
fn acknowledge_then_complete() {
    let mut gic = InterruptController::new();
    gic.init();
    gic.enable(TIMER_IRQ);
    gic.enable(40);
    assert_eq!(gic.acknowledge(31), None);
    assert_eq!(gic.acknowledge(1023), None);
    assert_eq!(gic.acknowledge(TIMER_IRQ), Some(TIMER_IRQ));
    assert_eq!(gic.active(), Some(TIMER_IRQ));
    assert_eq!(gic.acknowledge(40), None);
    assert_eq!(gic.acknowledge(TIMER_IRQ), None);
    assert!(!gic.end_of_interrupt(40));
    assert_eq!(gic.active(), Some(TIMER_IRQ));
    assert!(gic.end_of_interrupt(TIMER_IRQ));
    assert_eq!(gic.active(), None);
    assert!(!gic.end_of_interrupt(TIMER_IRQ));
    assert_eq!(gic.acknowledge(40), Some(40));
}
