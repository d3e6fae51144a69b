use kernel_core::config::{APP_BASE_ADDRESS, APP_SIZE_LIMIT, KERNEL_STACK_SIZE, USER_STACK_SIZE};
use kernel_core::memory::{clear_bss, Memory, MemoryLayout, Region};

const USER_STACKS: usize = 0x5000_0000;
const KERNEL_STACKS: usize = 0x5100_0000;

fn layout(n: usize) -> MemoryLayout {
    MemoryLayout::new(n, USER_STACKS, KERNEL_STACKS).unwrap()
}

fn apart(a: Region, b: Region) -> bool {
    a.base + a.size <= b.base || b.base + b.size <= a.base
}

#[test]
fn layout_constants_have_their_values() {
    assert_eq!(USER_STACK_SIZE, 8192);
    assert_eq!(KERNEL_STACK_SIZE, 8192);
    assert_eq!(APP_BASE_ADDRESS, 0x4020_0000);
    assert_eq!(APP_SIZE_LIMIT, 0x20000);
}

#[test]
fn regions_follow_the_task_id() {
    let l = layout(4);
    assert_eq!(l.memory_region(0), Region { base: 0x4020_0000, size: 0x20000 });
    assert_eq!(l.memory_region(3), Region { base: 0x4026_0000, size: 0x20000 });
    assert_eq!(l.user_stack(2), Region { base: 0x5000_4000, size: 8192 });
    assert_eq!(l.kernel_stack(1), Region { base: 0x5100_2000, size: 8192 });
    assert_eq!(l.user_stack(2).top(), 0x5000_6000);
}

#[test]
fn region_holds_its_own_addresses_only() {
    let r = Region { base: 100, size: 10 };
    assert!(r.holds(100));
    assert!(r.holds(109));
    assert!(!r.holds(110));
    assert!(!r.holds(99));
    assert!(!Region { base: 100, size: 0 }.holds(100));
}

#[test]
fn regions_of_different_tasks_never_overlap() {
    let l = layout(5);
    for a in 0..5 {
        let own = [l.memory_region(a), l.user_stack(a), l.kernel_stack(a)];
        assert!(apart(own[0], own[1]) && apart(own[0], own[2]) && apart(own[1], own[2]));
        for b in 0..5 {
            if a != b {
                let other = [l.memory_region(b), l.user_stack(b), l.kernel_stack(b)];
                for x in own.iter() {
                    for y in other.iter() {
                        assert!(apart(*x, *y));
                    }
                }
            }
        }
    }
}

#[test]
fn layout_is_refused_when_arrays_overlap_or_overflow() {
    assert!(MemoryLayout::new(2, USER_STACKS, KERNEL_STACKS).is_some());
    assert!(MemoryLayout::new(2, APP_BASE_ADDRESS, KERNEL_STACKS).is_none());
    assert!(MemoryLayout::new(2, USER_STACKS, APP_BASE_ADDRESS + 1).is_none());
    assert!(MemoryLayout::new(2, USER_STACKS, USER_STACKS + 2 * USER_STACK_SIZE - 1).is_none());
    assert!(MemoryLayout::new(2, USER_STACKS, USER_STACKS + 2 * USER_STACK_SIZE).is_some());
    assert!(MemoryLayout::new(usize::MAX, USER_STACKS, KERNEL_STACKS).is_none());
    assert!(MemoryLayout::new(1, usize::MAX, KERNEL_STACKS).is_none());
    assert_eq!(
        MemoryLayout::new(0, 0, 0),
        Some(MemoryLayout { task_count: 0, user_stack_base: 0, kernel_stack_base: 0 })
    );
}

#[test]
fn fresh_memory_is_zero_and_mapped_where_tasks_live() {
    let mem = Memory::new(layout(2));
    assert_eq!(mem.read(APP_BASE_ADDRESS), Some(0));
    assert_eq!(mem.read(APP_BASE_ADDRESS + 2 * APP_SIZE_LIMIT - 1), Some(0));
    assert_eq!(mem.read(APP_BASE_ADDRESS + 2 * APP_SIZE_LIMIT), None);
    assert_eq!(mem.read(APP_BASE_ADDRESS - 1), None);
    assert_eq!(mem.read(USER_STACKS + 2 * USER_STACK_SIZE - 1), Some(0));
    assert_eq!(mem.read(KERNEL_STACKS), Some(0));
    assert_eq!(mem.read(0), None);
}

#[test]
fn write_changes_one_byte() {
    let mut mem = Memory::new(layout(2));
    assert!(mem.write(USER_STACKS + 5, 0x5a));
    assert_eq!(mem.read(USER_STACKS + 5), Some(0x5a));
    assert_eq!(mem.read(USER_STACKS + 4), Some(0));
    assert_eq!(mem.read(USER_STACKS + 6), Some(0));
    assert!(mem.write(KERNEL_STACKS + 5, 0x11));
    assert_eq!(mem.read(KERNEL_STACKS + 5), Some(0x11));
    assert_eq!(mem.read(USER_STACKS + 5), Some(0x5a));
    assert!(!mem.write(0x10, 1));
    assert_eq!(mem.read(0x10), None);
}

#[test]
fn sentinel_on_one_stack_is_invisible_on_the_other() {
    let l = layout(2);
    let mut mem = Memory::new(l);
    let top_a = l.user_stack(0).top() - 1;
    let top_b = l.user_stack(1).top() - 1;
    assert!(mem.write(top_a, 0xee));
    assert_eq!(mem.read(top_a), Some(0xee));
    assert_eq!(mem.read(top_b), Some(0));
    let kernel_a = l.kernel_stack(0).top() - 1;
    let kernel_b = l.kernel_stack(1).top() - 1;
    assert!(mem.write(kernel_a, 0xdd));
    assert_eq!(mem.read(kernel_b), Some(0));
    let image_a = l.memory_region(0).base + 17;
    let image_b = l.memory_region(1).base + 17;
    assert!(mem.write(image_a, 0xcc));
    assert_eq!(mem.read(image_b), Some(0));
    assert_eq!(mem.read(image_a), Some(0xcc));
}

#[test]
fn clear_bss_zeroes_every_byte() {
    let mut bss: Vec<u8> = (0..=255u8).cycle().take(1000).collect();
    clear_bss(&mut bss);
    assert_eq!(bss.len(), 1000);
    assert!(bss.iter().all(|b| *b == 0));
    let mut empty: Vec<u8> = Vec::new();
    clear_bss(&mut empty);
    assert!(empty.is_empty());
}
