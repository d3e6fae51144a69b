//! Where each task's memory lives, and a byte store laid out accordingly.
//!
//! Every task owns three regions for its whole lifetime: the slot its image
//! is copied into, a user stack and a kernel stack. The slots start at
//! [`APP_BASE_ADDRESS`]; the two arrays of stacks start wherever the caller
//! placed them. A [`MemoryLayout`] is the checked description of that
//! placement, and [`Memory`] holds the bytes.

use vstd::prelude::*;
use crate::config::{APP_BASE_ADDRESS, APP_SIZE_LIMIT, KERNEL_STACK_SIZE, USER_STACK_SIZE};

verus! {

/// A run of `size` bytes starting at address `base`.
#[derive(Clone, Copy, Debug, PartialEq, Eq, Structural)]
pub struct Region {
    pub base: usize,
    pub size: usize,
}

impl Region {
    /// The first address past the region.
    pub open spec fn end(self) -> int {
        self.base + self.size
    }

    /// `addr` lies inside the region.
    pub open spec fn contains(self, addr: int) -> bool {
        self.base <= addr < self.end()
    }

    /// The two regions have no address in common.
    pub open spec fn disjoint_from(self, other: Region) -> bool {
        forall|addr: int| !(#[trigger] self.contains(addr) && other.contains(addr))
    }

    /// The address just past the region, which is where an empty descending
    /// stack placed in it begins.
    pub fn top(&self) -> (t: usize)
        requires
            self.end() <= usize::MAX,
        ensures
            t == self.end(),
    {
        self.base + self.size
    }

    /// Whether `addr` lies inside the region.
    pub fn holds(&self, addr: usize) -> (b: bool)
        ensures
            b == self.contains(addr as int),
    {
        addr >= self.base && addr - self.base < self.size
    }
}

/// One past the last address of an array of `count` blocks of `size` bytes
/// that starts at `base`.
pub open spec fn area_end(base: int, count: int, size: int) -> int {
    base + count * size
}

/// Two half-open address ranges share no address.
pub open spec fn ranges_apart(b1: int, e1: int, b2: int, e2: int) -> bool {
    b1 >= e1 || b2 >= e2 || e1 <= b2 || e2 <= b1
}

/// The placement of every task's memory: `task_count` slots from
/// [`APP_BASE_ADDRESS`] on, and as many user stacks and kernel stacks from the
/// two given bases on, task `id` owning the `id`-th block of each array.
#[derive(Clone, Copy, Debug, PartialEq, Eq, Structural)]
pub struct MemoryLayout {
    pub task_count: usize,
    pub user_stack_base: usize,
    pub kernel_stack_base: usize,
}

impl MemoryLayout {
    /// End of the array of image slots.
    pub open spec fn apps_end(self) -> int {
        area_end(APP_BASE_ADDRESS as int, self.task_count as int, APP_SIZE_LIMIT as int)
    }

    /// End of the array of user stacks.
    pub open spec fn user_stacks_end(self) -> int {
        area_end(self.user_stack_base as int, self.task_count as int, USER_STACK_SIZE as int)
    }

    /// End of the array of kernel stacks.
    pub open spec fn kernel_stacks_end(self) -> int {
        area_end(self.kernel_stack_base as int, self.task_count as int, KERNEL_STACK_SIZE as int)
    }

    /// The three arrays fit in the address space and do not overlap.
    pub open spec fn wf(self) -> bool {
        &&& self.apps_end() <= usize::MAX
        &&& self.user_stacks_end() <= usize::MAX
        &&& self.kernel_stacks_end() <= usize::MAX
        &&& ranges_apart(
            APP_BASE_ADDRESS as int,
            self.apps_end(),
            self.user_stack_base as int,
            self.user_stacks_end(),
        )
        &&& ranges_apart(
            APP_BASE_ADDRESS as int,
            self.apps_end(),
            self.kernel_stack_base as int,
            self.kernel_stacks_end(),
        )
        &&& ranges_apart(
            self.user_stack_base as int,
            self.user_stacks_end(),
            self.kernel_stack_base as int,
            self.kernel_stacks_end(),
        )
    }

    /// The slot that holds task `id`'s image: the `id`-th block of
    /// [`APP_SIZE_LIMIT`] bytes from [`APP_BASE_ADDRESS`] on.
    pub open spec fn memory_region_of(self, id: int) -> Region {
        Region { base: (APP_BASE_ADDRESS + id * APP_SIZE_LIMIT) as usize, size: APP_SIZE_LIMIT }
    }

    /// Task `id`'s user stack.
    pub open spec fn user_stack_of(self, id: int) -> Region {
        Region {
            base: (self.user_stack_base + id * USER_STACK_SIZE) as usize,
            size: USER_STACK_SIZE,
        }
    }

    /// Task `id`'s kernel stack.
    pub open spec fn kernel_stack_of(self, id: int) -> Region {
        Region {
            base: (self.kernel_stack_base + id * KERNEL_STACK_SIZE) as usize,
            size: KERNEL_STACK_SIZE,
        }
    }

    /// `addr` belongs to one of task `id`'s three regions.
    pub open spec fn owns(self, id: int, addr: int) -> bool {
        ||| self.memory_region_of(id).contains(addr)
        ||| self.user_stack_of(id).contains(addr)
        ||| self.kernel_stack_of(id).contains(addr)
    }

    /// Checks a placement: `Some` exactly when the three arrays fit in the
    /// address space without overlapping one another.
    pub fn new(task_count: usize, user_stack_base: usize, kernel_stack_base: usize) -> (layout:
        Option<MemoryLayout>)
        ensures
            layout == (if (MemoryLayout { task_count, user_stack_base, kernel_stack_base }).wf() {
                Some(MemoryLayout { task_count, user_stack_base, kernel_stack_base })
            } else {
                None
            }),
    {
        let apps_end = match array_end(APP_BASE_ADDRESS, task_count, APP_SIZE_LIMIT) {
            Some(e) => e,
            None => { return None; },
        };
        let user_end = match array_end(user_stack_base, task_count, USER_STACK_SIZE) {
            Some(e) => e,
            None => { return None; },
        };
        let kernel_end = match array_end(kernel_stack_base, task_count, KERNEL_STACK_SIZE) {
            Some(e) => e,
            None => { return None; },
        };
        if apart(APP_BASE_ADDRESS, apps_end, user_stack_base, user_end) && apart(
            APP_BASE_ADDRESS,
            apps_end,
            kernel_stack_base,
            kernel_end,
        ) && apart(user_stack_base, user_end, kernel_stack_base, kernel_end) {
            Some(MemoryLayout { task_count, user_stack_base, kernel_stack_base })
        } else {
            None
        }
    }

    /// The slot that holds task `id`'s image.
    pub fn memory_region(&self, id: usize) -> (r: Region)
        requires
            self.wf(),
            id < self.task_count,
        ensures
            r == self.memory_region_of(id as int),
            r.end() <= self.apps_end(),
    {
        proof {
            lemma_block_within(
                APP_BASE_ADDRESS as int,
                self.task_count as int,
                APP_SIZE_LIMIT as int,
                id as int,
            );
        }
        Region { base: APP_BASE_ADDRESS + id * APP_SIZE_LIMIT, size: APP_SIZE_LIMIT }
    }

    /// Task `id`'s user stack.
    pub fn user_stack(&self, id: usize) -> (r: Region)
        requires
            self.wf(),
            id < self.task_count,
        ensures
            r == self.user_stack_of(id as int),
            r.end() <= self.user_stacks_end(),
    {
        proof {
            lemma_block_within(
                self.user_stack_base as int,
                self.task_count as int,
                USER_STACK_SIZE as int,
                id as int,
            );
        }
        Region { base: self.user_stack_base + id * USER_STACK_SIZE, size: USER_STACK_SIZE }
    }

    /// Task `id`'s kernel stack.
    pub fn kernel_stack(&self, id: usize) -> (r: Region)
        requires
            self.wf(),
            id < self.task_count,
        ensures
            r == self.kernel_stack_of(id as int),
            r.end() <= self.kernel_stacks_end(),
    {
        proof {
            lemma_block_within(
                self.kernel_stack_base as int,
                self.task_count as int,
                KERNEL_STACK_SIZE as int,
                id as int,
            );
        }
        Region { base: self.kernel_stack_base + id * KERNEL_STACK_SIZE, size: KERNEL_STACK_SIZE }
    }

    /// No address belongs to two different tasks, whichever of their regions
    /// one looks at.
    pub proof fn lemma_tasks_are_disjoint(self, a: int, b: int)
        requires
            self.wf(),
            0 <= a < self.task_count,
            0 <= b < self.task_count,
            a != b,
        ensures
            forall|addr: int| !(#[trigger] self.owns(a, addr) && self.owns(b, addr)),
            self.memory_region_of(a).disjoint_from(self.memory_region_of(b)),
            self.user_stack_of(a).disjoint_from(self.user_stack_of(b)),
            self.kernel_stack_of(a).disjoint_from(self.kernel_stack_of(b)),
    {
        let n = self.task_count as int;
        lemma_block_within(APP_BASE_ADDRESS as int, n, APP_SIZE_LIMIT as int, a);
        lemma_block_within(APP_BASE_ADDRESS as int, n, APP_SIZE_LIMIT as int, b);
        lemma_block_within(self.user_stack_base as int, n, USER_STACK_SIZE as int, a);
        lemma_block_within(self.user_stack_base as int, n, USER_STACK_SIZE as int, b);
        lemma_block_within(self.kernel_stack_base as int, n, KERNEL_STACK_SIZE as int, a);
        lemma_block_within(self.kernel_stack_base as int, n, KERNEL_STACK_SIZE as int, b);
        lemma_blocks_apart(APP_BASE_ADDRESS as int, APP_SIZE_LIMIT as int, a, b);
        lemma_blocks_apart(self.user_stack_base as int, USER_STACK_SIZE as int, a, b);
        lemma_blocks_apart(self.kernel_stack_base as int, KERNEL_STACK_SIZE as int, a, b);
    }

    /// A task's own three regions do not overlap one another either.
    pub proof fn lemma_own_regions_are_disjoint(self, id: int)
        requires
            self.wf(),
            0 <= id < self.task_count,
        ensures
            self.memory_region_of(id).disjoint_from(self.user_stack_of(id)),
            self.memory_region_of(id).disjoint_from(self.kernel_stack_of(id)),
            self.user_stack_of(id).disjoint_from(self.kernel_stack_of(id)),
    {
        let n = self.task_count as int;
        lemma_block_within(APP_BASE_ADDRESS as int, n, APP_SIZE_LIMIT as int, id);
        lemma_block_within(self.user_stack_base as int, n, USER_STACK_SIZE as int, id);
        lemma_block_within(self.kernel_stack_base as int, n, KERNEL_STACK_SIZE as int, id);
    }
}

/// The `id`-th of `count` blocks lies inside the array of blocks.
pub proof fn lemma_block_within(base: int, count: int, size: int, id: int)
    requires
        0 <= id < count,
        0 <= size,
    ensures
        base <= base + id * size,
        base + id * size + size <= area_end(base, count, size),
        0 <= id * size,
{
    assert(0 <= id * size) by (nonlinear_arith)
        requires
            0 <= id,
            0 <= size,
    ;
    assert(id * size + size <= count * size) by (nonlinear_arith)
        requires
            id + 1 <= count,
            0 <= size,
    ;
}

/// Two different blocks of one array share no address.
pub proof fn lemma_blocks_apart(base: int, size: int, a: int, b: int)
    requires
        0 <= a,
        0 <= b,
        a != b,
        0 <= size,
    ensures
        base + a * size + size <= base + b * size || base + b * size + size <= base + a * size,
{
    if a < b {
        assert(a * size + size <= b * size) by (nonlinear_arith)
            requires
                a + 1 <= b,
                0 <= size,
        ;
    } else {
        assert(b * size + size <= a * size) by (nonlinear_arith)
            requires
                b + 1 <= a,
                0 <= size,
        ;
    }
}

/// End of an array of `count` blocks of `size` bytes at `base`, or `None`
/// where it would lie beyond the address space.
fn array_end(base: usize, count: usize, size: usize) -> (end: Option<usize>)
    ensures
        end == (if area_end(base as int, count as int, size as int) <= usize::MAX {
            Some(area_end(base as int, count as int, size as int) as usize)
        } else {
            None
        }),
{
    assert(0 <= count * size) by (nonlinear_arith)
        requires
            0 <= count,
            0 <= size,
    ;
    match count.checked_mul(size) {
        Some(bytes) => base.checked_add(bytes),
        None => None,
    }
}

/// Whether two half-open address ranges share no address.
fn apart(b1: usize, e1: usize, b2: usize, e2: usize) -> (r: bool)
    ensures
        r == ranges_apart(b1 as int, e1 as int, b2 as int, e2 as int),
{
    b1 >= e1 || b2 >= e2 || e1 <= b2 || e2 <= b1
}

/// Zeroes the kernel's uninitialised data, every byte of it, so that no
/// global state starts from what an earlier run left behind. This is the
/// first thing done at boot.
pub fn clear_bss(bss: &mut Vec<u8>)
    ensures
        final(bss)@.len() == old(bss)@.len(),
        forall|i: int| 0 <= i < final(bss)@.len() ==> final(bss)@[i] == 0,
{
    let mut i: usize = 0;
    while i < bss.len()
        invariant
            i <= bss.len(),
            bss@.len() == old(bss)@.len(),
            forall|j: int| 0 <= j < i ==> bss@[j] == 0,
        decreases bss.len() - i,
    {
        bss.set(i, 0);
        i = i + 1;
    }
}

/// An image as it sits in its slot: its own bytes, then zeros up to
/// [`APP_SIZE_LIMIT`].
pub open spec fn padded_image(bytes: Seq<u8>) -> Seq<u8> {
    Seq::new(
        APP_SIZE_LIMIT as nat,
        |k: int|
            if k < bytes.len() {
                bytes[k]
            } else {
                0u8
            },
    )
}

/// What a [`Memory`] holds: the placement and the bytes of the three arrays.
pub struct MemoryState {
    pub layout: MemoryLayout,
    pub apps: Seq<u8>,
    pub user_stacks: Seq<u8>,
    pub kernel_stacks: Seq<u8>,
}

impl MemoryState {
    /// The byte arrays are exactly as long as the placement says.
    pub open spec fn wf(self) -> bool {
        &&& self.layout.wf()
        &&& self.apps.len() == self.layout.task_count * APP_SIZE_LIMIT
        &&& self.user_stacks.len() == self.layout.task_count * USER_STACK_SIZE
        &&& self.kernel_stacks.len() == self.layout.task_count * KERNEL_STACK_SIZE
    }

    /// `addr` falls into the array of image slots.
    pub open spec fn in_apps(self, addr: int) -> bool {
        APP_BASE_ADDRESS <= addr < self.layout.apps_end()
    }

    /// `addr` falls into the array of user stacks.
    pub open spec fn in_user_stacks(self, addr: int) -> bool {
        self.layout.user_stack_base <= addr < self.layout.user_stacks_end()
    }

    /// `addr` falls into the array of kernel stacks.
    pub open spec fn in_kernel_stacks(self, addr: int) -> bool {
        self.layout.kernel_stack_base <= addr < self.layout.kernel_stacks_end()
    }

    /// The byte stored at `addr`, or `None` where no task memory is mapped.
    pub open spec fn byte_at(self, addr: int) -> Option<u8> {
        if self.in_apps(addr) {
            Some(self.apps[addr - APP_BASE_ADDRESS])
        } else if self.in_user_stacks(addr) {
            Some(self.user_stacks[addr - self.layout.user_stack_base])
        } else if self.in_kernel_stacks(addr) {
            Some(self.kernel_stacks[addr - self.layout.kernel_stack_base])
        } else {
            None
        }
    }

    /// The state after storing `value` at `addr`; unchanged where `addr` is
    /// not mapped.
    pub open spec fn write(self, addr: int, value: u8) -> MemoryState {
        if self.in_apps(addr) {
            MemoryState { apps: self.apps.update(addr - APP_BASE_ADDRESS, value), ..self }
        } else if self.in_user_stacks(addr) {
            MemoryState {
                user_stacks: self.user_stacks.update(addr - self.layout.user_stack_base, value),
                ..self
            }
        } else if self.in_kernel_stacks(addr) {
            MemoryState {
                kernel_stacks: self.kernel_stacks.update(
                    addr - self.layout.kernel_stack_base,
                    value,
                ),
                ..self
            }
        } else {
            self
        }
    }

    /// The bytes of task `id`'s image slot.
    pub open spec fn slot(self, id: int) -> Seq<u8> {
        self.apps.subrange(id * APP_SIZE_LIMIT, id * APP_SIZE_LIMIT + APP_SIZE_LIMIT)
    }

    /// Every mapped byte is zero.
    pub open spec fn is_zeroed(self) -> bool {
        forall|addr: int| #[trigger] self.byte_at(addr) is Some ==> self.byte_at(addr) == Some(0u8)
    }

    /// A store changes the byte at its address and no other.
    pub proof fn lemma_write_changes_one_byte(self, addr: int, value: u8)
        requires
            self.wf(),
        ensures
            self.write(addr, value).wf(),
            self.write(addr, value).layout == self.layout,
            self.byte_at(addr) is Some ==> self.write(addr, value).byte_at(addr) == Some(value),
            forall|other: int|
                other != addr ==> #[trigger] self.write(addr, value).byte_at(other)
                    == self.byte_at(other),
    {
    }

    /// Every address a task owns is mapped.
    pub proof fn lemma_owned_is_mapped(self, id: int, addr: int)
        requires
            self.wf(),
            0 <= id < self.layout.task_count,
            self.layout.owns(id, addr),
        ensures
            self.byte_at(addr) is Some,
    {
        let n = self.layout.task_count as int;
        lemma_block_within(APP_BASE_ADDRESS as int, n, APP_SIZE_LIMIT as int, id);
        lemma_block_within(self.layout.user_stack_base as int, n, USER_STACK_SIZE as int, id);
        lemma_block_within(self.layout.kernel_stack_base as int, n, KERNEL_STACK_SIZE as int, id);
    }

    /// Isolation: a store to an address that task `a` owns leaves every byte
    /// of every other task `b` as it was, in its image slot and in both of its
    /// stacks.
    pub proof fn lemma_write_is_isolated(self, a: int, b: int, addr: int, value: u8)
        requires
            self.wf(),
            0 <= a < self.layout.task_count,
            0 <= b < self.layout.task_count,
            a != b,
            self.layout.owns(a, addr),
        ensures
            forall|other: int| #[trigger]
                self.layout.owns(b, other) ==> self.write(addr, value).byte_at(other)
                    == self.byte_at(other),
            self.write(addr, value).slot(b) == self.slot(b),
    {
        self.layout.lemma_tasks_are_disjoint(a, b);
        self.lemma_write_changes_one_byte(addr, value);
        assert forall|other: int| #[trigger] self.layout.owns(b, other) implies self.write(
            addr,
            value,
        ).byte_at(other) == self.byte_at(other) by {
            assert(!(self.layout.owns(a, other) && self.layout.owns(b, other)));
        }
        let n = self.layout.task_count as int;
        lemma_block_within(APP_BASE_ADDRESS as int, n, APP_SIZE_LIMIT as int, a);
        lemma_block_within(APP_BASE_ADDRESS as int, n, APP_SIZE_LIMIT as int, b);
        lemma_blocks_apart(APP_BASE_ADDRESS as int, APP_SIZE_LIMIT as int, a, b);
        assert(self.write(addr, value).slot(b) =~= self.slot(b));
    }
}

/// The bytes of every task's image slot and stacks.
pub struct Memory {
    layout: MemoryLayout,
    apps: Vec<u8>,
    user_stacks: Vec<u8>,
    kernel_stacks: Vec<u8>,
}

impl View for Memory {
    type V = MemoryState;

    closed spec fn view(&self) -> MemoryState {
        MemoryState {
            layout: self.layout,
            apps: self.apps@,
            user_stacks: self.user_stacks@,
            kernel_stacks: self.kernel_stacks@,
        }
    }
}

impl Memory {
    /// The byte arrays are exactly as long as the placement says.
    pub open spec fn wf(&self) -> bool {
        self@.wf()
    }

    /// Memory for the given placement, every byte zero.
    pub fn new(layout: MemoryLayout) -> (mem: Memory)
        requires
            layout.wf(),
        ensures
            mem.wf(),
            mem@.layout == layout,
            mem@.is_zeroed(),
            forall|i: int| 0 <= i < mem@.apps.len() ==> mem@.apps[i] == 0,
            forall|i: int| 0 <= i < mem@.user_stacks.len() ==> mem@.user_stacks[i] == 0,
            forall|i: int| 0 <= i < mem@.kernel_stacks.len() ==> mem@.kernel_stacks[i] == 0,
    {
        let n = layout.task_count;
        assert(0 <= n * APP_SIZE_LIMIT && 0 <= n * USER_STACK_SIZE && 0 <= n * KERNEL_STACK_SIZE)
            by (nonlinear_arith)
            requires
                0 <= n,
        ;
        let apps = vec![0u8; n * APP_SIZE_LIMIT];
        let user_stacks = vec![0u8; n * USER_STACK_SIZE];
        let kernel_stacks = vec![0u8; n * KERNEL_STACK_SIZE];
        Memory { layout, apps, user_stacks, kernel_stacks }
    }

    /// The placement this memory was made for.
    pub fn layout(&self) -> (layout: MemoryLayout)
        ensures
            layout == self@.layout,
    {
        self.layout
    }

    /// The byte stored at `addr`, or `None` where no task memory is mapped.
    pub fn read(&self, addr: usize) -> (byte: Option<u8>)
        requires
            self.wf(),
        ensures
            byte == self@.byte_at(addr as int),
    {
        let n = self.layout.task_count;
        if addr >= APP_BASE_ADDRESS && addr - APP_BASE_ADDRESS < self.apps.len() {
            Some(self.apps[addr - APP_BASE_ADDRESS])
        } else if addr >= self.layout.user_stack_base && addr - self.layout.user_stack_base
            < self.user_stacks.len() {
            Some(self.user_stacks[addr - self.layout.user_stack_base])
        } else if addr >= self.layout.kernel_stack_base && addr - self.layout.kernel_stack_base
            < self.kernel_stacks.len() {
            Some(self.kernel_stacks[addr - self.layout.kernel_stack_base])
        } else {
            None
        }
    }

    /// Copies `data[start..end]` to the start of task `id`'s image slot and
    /// clears the rest of the slot, so that nothing stored there earlier
    /// survives. No other slot and no stack is touched.
    pub fn fill_slot(&mut self, id: usize, data: &Vec<u8>, start: usize, end: usize)
        requires
            old(self).wf(),
            id < old(self)@.layout.task_count,
            start <= end <= data.len(),
            end - start <= APP_SIZE_LIMIT,
        ensures
            final(self).wf(),
            final(self)@.layout == old(self)@.layout,
            final(self)@.slot(id as int) == padded_image(data@.subrange(start as int, end as int)),
            forall|other: int|
                0 <= other < old(self)@.layout.task_count && other != id
                    ==> #[trigger] final(self)@.slot(other) == old(self)@.slot(other),
            final(self)@.user_stacks == old(self)@.user_stacks,
            final(self)@.kernel_stacks == old(self)@.kernel_stacks,
    {
        let ghost before = self@;
        let ghost image = data@.subrange(start as int, end as int);
        let len = end - start;
        proof {
            lemma_block_within(
                APP_BASE_ADDRESS as int,
                self.layout.task_count as int,
                APP_SIZE_LIMIT as int,
                id as int,
            );
        }
        let base = id * APP_SIZE_LIMIT;
        let mut k: usize = 0;
        while k < APP_SIZE_LIMIT
            invariant
                k <= APP_SIZE_LIMIT,
                base == id * APP_SIZE_LIMIT,
                base + APP_SIZE_LIMIT <= self.apps.len(),
                len == end - start,
                start <= end <= data.len(),
                len <= APP_SIZE_LIMIT,
                image == data@.subrange(start as int, end as int),
                self.layout == before.layout,
                self.apps.len() == before.apps.len(),
                self.user_stacks@ == before.user_stacks,
                self.kernel_stacks@ == before.kernel_stacks,
                forall|j: int| 0 <= j < k ==> self.apps@[base + j] == padded_image(image)[j],
                forall|i: int|
                    0 <= i < self.apps.len() && !(base <= i < base + APP_SIZE_LIMIT)
                        ==> self.apps@[i] == before.apps[i],
            decreases APP_SIZE_LIMIT - k,
        {
            let byte = if k < len {
                data[start + k]
            } else {
                0u8
            };
            self.apps.set(base + k, byte);
            k = k + 1;
        }
        proof {
            assert(self@.slot(id as int) =~= padded_image(image));
            assert forall|other: int|
                0 <= other < before.layout.task_count && other != id implies #[trigger] self@.slot(
                other,
            ) == before.slot(other) by {
                lemma_block_within(
                    APP_BASE_ADDRESS as int,
                    before.layout.task_count as int,
                    APP_SIZE_LIMIT as int,
                    other,
                );
                lemma_blocks_apart(0, APP_SIZE_LIMIT as int, id as int, other);
                assert(self@.slot(other) =~= before.slot(other));
            }
        }
    }

    /// Stores `value` at `addr` and reports whether the address was mapped.
    /// An unmapped address leaves the memory untouched.
    pub fn write(&mut self, addr: usize, value: u8) -> (mapped: bool)
        requires
            old(self).wf(),
        ensures
            final(self).wf(),
            mapped == (old(self)@.byte_at(addr as int) is Some),
            final(self)@ == old(self)@.write(addr as int, value),
    {
        if addr >= APP_BASE_ADDRESS && addr - APP_BASE_ADDRESS < self.apps.len() {
            self.apps.set(addr - APP_BASE_ADDRESS, value);
            true
        } else if addr >= self.layout.user_stack_base && addr - self.layout.user_stack_base
            < self.user_stacks.len() {
            self.user_stacks.set(addr - self.layout.user_stack_base, value);
            true
        } else if addr >= self.layout.kernel_stack_base && addr - self.layout.kernel_stack_base
            < self.kernel_stacks.len() {
            self.kernel_stacks.set(addr - self.layout.kernel_stack_base, value);
            true
        } else {
            false
        }
    }
}

} // verus!
