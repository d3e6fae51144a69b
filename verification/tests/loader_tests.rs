use kernel_core::config::{APP_BASE_ADDRESS, APP_SIZE_LIMIT, KERNEL_STACK_SIZE, USER_STACK_SIZE};
use kernel_core::loader::{check_table, load_apps, name_before, AppEntry, BootError};
use kernel_core::memory::Memory;

const USER_STACKS: usize = 0x5000_0000;
const KERNEL_STACKS: usize = 0x5100_0000;

fn entry(name: &str, start: usize, end: usize) -> AppEntry {
    AppEntry { name: name.as_bytes().to_vec(), start, end }
}

fn loaded(table: &Vec<AppEntry>, data: &Vec<u8>) -> Memory {
    match load_apps(table, data, USER_STACKS, KERNEL_STACKS) {
        Ok(mem) => mem,
        Err(fault) => panic!("load failed: {:?}", fault),
    }
}

fn load_error(table: &Vec<AppEntry>, data: &Vec<u8>, usb: usize, ksb: usize) -> BootError {
    match load_apps(table, data, usb, ksb) {
        Ok(_) => panic!("load succeeded"),
        Err(fault) => fault,
    }
}

#[test]
fn names_are_ordered_bytewise() {
    let n = |s: &str| s.as_bytes().to_vec();
    assert!(name_before(&n("a"), &n("b")));
    assert!(!name_before(&n("b"), &n("a")));
    assert!(name_before(&n("app"), &n("apple")));
    assert!(!name_before(&n("apple"), &n("app")));
    assert!(!name_before(&n("same"), &n("same")));
    assert!(name_before(&n(""), &n("x")));
    assert!(!name_before(&n(""), &n("")));
    assert!(name_before(&n("00hello"), &n("01store")));
    assert!(name_before(&n("Z"), &n("a")));
}

#[test]
fn empty_table_is_accepted() {
    let table: Vec<AppEntry> = Vec::new();
    assert_eq!(check_table(&table, 0), Ok(()));
    let mem = loaded(&table, &Vec::new());
    assert_eq!(mem.layout().task_count, 0);
    assert_eq!(mem.read(APP_BASE_ADDRESS), None);
}

#[test]
fn well_formed_table_is_accepted() {
    let table = vec![entry("a", 0, 4), entry("b", 4, 4), entry("c", 8, 10)];
    assert_eq!(check_table(&table, 10), Ok(()));
}

#[test]
fn reversed_range_is_malformed() {
    let table = vec![entry("a", 0, 4), entry("b", 6, 5)];
    assert_eq!(check_table(&table, 10), Err(BootError::MalformedTable { index: 1 }));
}

#[test]
fn range_outside_the_data_is_malformed() {
    let table = vec![entry("a", 0, 11)];
    assert_eq!(check_table(&table, 10), Err(BootError::MalformedTable { index: 0 }));
}

#[test]
fn names_out_of_order_are_malformed() {
    let table = vec![entry("b", 0, 4), entry("a", 4, 8)];
    assert_eq!(check_table(&table, 8), Err(BootError::MalformedTable { index: 1 }));
    let twice = vec![entry("a", 0, 4), entry("a", 4, 8)];
    assert_eq!(check_table(&twice, 8), Err(BootError::MalformedTable { index: 1 }));
}

#[test]
fn overlapping_images_are_malformed() {
    let table = vec![entry("a", 0, 5), entry("b", 4, 8)];
    assert_eq!(check_table(&table, 8), Err(BootError::MalformedTable { index: 1 }));
}

#[test]
fn oversized_image_is_rejected() {
    let data = vec![7u8; APP_SIZE_LIMIT + 1];
    let table = vec![entry("big", 0, APP_SIZE_LIMIT + 1)];
    assert_eq!(check_table(&table, data.len()), Err(BootError::ImageTooLarge { index: 0 }));
    assert_eq!(
        load_error(&table, &data, USER_STACKS, KERNEL_STACKS),
        BootError::ImageTooLarge { index: 0 }
    );
}

#[test]
fn image_of_exactly_one_slot_is_accepted() {
    let data = vec![9u8; APP_SIZE_LIMIT];
    let table = vec![entry("full", 0, APP_SIZE_LIMIT)];
    let mem = loaded(&table, &data);
    assert_eq!(mem.read(APP_BASE_ADDRESS), Some(9));
    assert_eq!(mem.read(APP_BASE_ADDRESS + APP_SIZE_LIMIT - 1), Some(9));
    assert_eq!(mem.read(APP_BASE_ADDRESS + APP_SIZE_LIMIT), None);
}

#[test]
fn first_fault_is_reported() {
    let table = vec![entry("a", 0, 2), entry("b", 9, 3), entry("a", 0, 100)];
    assert_eq!(check_table(&table, 10), Err(BootError::MalformedTable { index: 1 }));
    let data = vec![0u8; APP_SIZE_LIMIT + 8];
    let big_then_bad = vec![entry("a", 0, APP_SIZE_LIMIT + 1), entry("b", 5, 1)];
    assert_eq!(
        check_table(&big_then_bad, data.len()),
        Err(BootError::ImageTooLarge { index: 0 })
    );
}

#[test]
fn images_land_in_their_slots_zero_padded() {
    let data: Vec<u8> = vec![1, 2, 3, 0xaa, 0xbb, 9, 9, 0xcc];
    let table = vec![entry("a", 0, 3), entry("b", 3, 5), entry("c", 7, 8)];
    let mem = loaded(&table, &data);
    assert_eq!(mem.layout().task_count, 3);
    let slot = |i: usize| APP_BASE_ADDRESS + i * APP_SIZE_LIMIT;
    assert_eq!(mem.read(slot(0)), Some(1));
    assert_eq!(mem.read(slot(0) + 1), Some(2));
    assert_eq!(mem.read(slot(0) + 2), Some(3));
    assert_eq!(mem.read(slot(0) + 3), Some(0));
    assert_eq!(mem.read(slot(0) + APP_SIZE_LIMIT - 1), Some(0));
    assert_eq!(mem.read(slot(1)), Some(0xaa));
    assert_eq!(mem.read(slot(1) + 1), Some(0xbb));
    assert_eq!(mem.read(slot(1) + 2), Some(0));
    assert_eq!(mem.read(slot(2)), Some(0xcc));
    assert_eq!(mem.read(slot(2) + 1), Some(0));
    assert_eq!(mem.read(slot(3)), None);
    assert_eq!(mem.read(USER_STACKS), Some(0));
    assert_eq!(mem.read(USER_STACKS + 3 * USER_STACK_SIZE - 1), Some(0));
    assert_eq!(mem.read(USER_STACKS + 3 * USER_STACK_SIZE), None);
    assert_eq!(mem.read(KERNEL_STACKS + 3 * KERNEL_STACK_SIZE - 1), Some(0));
}

#[test]
fn reloading_a_slot_leaves_nothing_stale() {
    let data: Vec<u8> = vec![5, 6, 7, 8];
    let table = vec![entry("a", 0, 4), entry("b", 4, 4)];
    let mut mem = loaded(&table, &data);
    assert!(mem.write(APP_BASE_ADDRESS + 100, 0x77));
    let short: Vec<u8> = vec![1];
    mem.fill_slot(0, &short, 0, 1);
    assert_eq!(mem.read(APP_BASE_ADDRESS), Some(1));
    assert_eq!(mem.read(APP_BASE_ADDRESS + 1), Some(0));
    assert_eq!(mem.read(APP_BASE_ADDRESS + 3), Some(0));
    assert_eq!(mem.read(APP_BASE_ADDRESS + 100), Some(0));
}

#[test]
fn stacks_on_top_of_the_slots_are_a_layout_conflict() {
    let data: Vec<u8> = vec![1, 2];
    let table = vec![entry("a", 0, 1), entry("b", 1, 2)];
    assert_eq!(
        load_error(&table, &data, APP_BASE_ADDRESS + APP_SIZE_LIMIT, KERNEL_STACKS),
        BootError::LayoutConflict
    );
    assert_eq!(
        load_error(&table, &data, USER_STACKS, USER_STACKS + USER_STACK_SIZE),
        BootError::LayoutConflict
    );
    assert_eq!(
        load_error(&table, &data, usize::MAX - 10, KERNEL_STACKS),
        BootError::LayoutConflict
    );
}

#[test]
fn a_faulty_table_wins_over_a_bad_layout() {
    let data: Vec<u8> = vec![1, 2];
    let table = vec![entry("b", 0, 1), entry("a", 1, 2)];
    assert_eq!(
        load_error(&table, &data, APP_BASE_ADDRESS, APP_BASE_ADDRESS),
        BootError::MalformedTable { index: 1 }
    );
}
