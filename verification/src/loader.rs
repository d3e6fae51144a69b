//! The loader: checks the table of embedded images and copies every image
//! into its task's slot before any task runs.

use vstd::prelude::*;
use crate::config::APP_SIZE_LIMIT;
use crate::memory::{padded_image, Memory, MemoryLayout};

verus! {

/// One row of the embedded-image table: the image's name and where its bytes
/// lie in the embedded data, from `start` up to but not including `end`.
#[derive(Debug, PartialEq, Eq)]
pub struct AppEntry {
    pub name: Vec<u8>,
    pub start: usize,
    pub end: usize,
}

/// Why the machine cannot be brought up. Each of these is fatal: it means the
/// image was built or linked wrongly, and no task has run yet.
#[derive(Clone, Copy, Debug, PartialEq, Eq, Structural)]
pub enum BootError {
    /// Row `index` of the table is malformed: its range is reversed or leaves
    /// the embedded data, or it does not follow the previous row in name or
    /// position.
    MalformedTable { index: usize },
    /// The image of row `index` is larger than a slot.
    ImageTooLarge { index: usize },
    /// The image slots and the two arrays of stacks overlap or do not fit in
    /// the address space.
    LayoutConflict,
}

/// The first `k` bytes of `a` and `b` exist and agree.
pub open spec fn common_prefix(a: Seq<u8>, b: Seq<u8>, k: int) -> bool {
    &&& 0 <= k <= a.len()
    &&& k <= b.len()
    &&& forall|j: int| 0 <= j < k ==> a[j] == b[j]
}

/// `a` comes strictly before `b` in lexicographic byte order: after some
/// common prefix either `a` ends and `b` goes on, or `a` has the smaller byte.
pub open spec fn name_precedes(a: Seq<u8>, b: Seq<u8>) -> bool {
    exists|k: int|
        #[trigger] common_prefix(a, b, k) && k < b.len() && (k == a.len() || a[k] < b[k])
}

/// Row `i` is well formed: its range lies in the embedded data, and it follows
/// row `i - 1` both by name and by position.
pub open spec fn entry_well_formed(table: Seq<AppEntry>, i: int, data_len: int) -> bool {
    &&& table[i].start <= table[i].end <= data_len
    &&& i > 0 ==> {
        &&& table[i - 1].end <= table[i].start
        &&& name_precedes(table[i - 1].name@, table[i].name@)
    }
}

/// The image of row `i` fits in a slot.
pub open spec fn entry_fits(table: Seq<AppEntry>, i: int) -> bool {
    table[i].end - table[i].start <= APP_SIZE_LIMIT
}

/// Rows `0..upto` are all well formed and fit.
pub open spec fn entries_accepted(table: Seq<AppEntry>, upto: int, data_len: int) -> bool {
    forall|j: int|
        0 <= j < upto ==> #[trigger] entry_well_formed(table, j, data_len) && entry_fits(table, j)
}

/// The verdict on a table is the fault of its first faulty row, a malformed
/// row counting before an oversized one.
pub open spec fn table_verdict(
    table: Seq<AppEntry>,
    data_len: int,
    verdict: Result<(), BootError>,
) -> bool {
    match verdict {
        Ok(()) => entries_accepted(table, table.len() as int, data_len),
        Err(BootError::MalformedTable { index }) => {
            &&& index < table.len()
            &&& entries_accepted(table, index as int, data_len)
            &&& !entry_well_formed(table, index as int, data_len)
        },
        Err(BootError::ImageTooLarge { index }) => {
            &&& index < table.len()
            &&& entries_accepted(table, index as int, data_len)
            &&& entry_well_formed(table, index as int, data_len)
            &&& !entry_fits(table, index as int)
        },
        Err(BootError::LayoutConflict) => false,
    }
}

/// The row a verdict points at; the number of rows for an accepted table.
pub open spec fn verdict_row(table: Seq<AppEntry>, verdict: Result<(), BootError>) -> int {
    match verdict {
        Ok(()) => table.len() as int,
        Err(BootError::MalformedTable { index }) => index as int,
        Err(BootError::ImageTooLarge { index }) => index as int,
        Err(BootError::LayoutConflict) => 0,
    }
}

/// A table has one verdict only.
pub proof fn lemma_verdict_is_unique(
    table: Seq<AppEntry>,
    data_len: int,
    v1: Result<(), BootError>,
    v2: Result<(), BootError>,
)
    requires
        table_verdict(table, data_len, v1),
        table_verdict(table, data_len, v2),
    ensures
        v1 == v2,
{
    let i1 = verdict_row(table, v1);
    let i2 = verdict_row(table, v2);
    if i1 < i2 {
        assert(entry_well_formed(table, i1, data_len) && entry_fits(table, i1));
    } else if i2 < i1 {
        assert(entry_well_formed(table, i2, data_len) && entry_fits(table, i2));
    } else if v1 is Ok && v2 is Ok {
        assert(v1->Ok_0 == v2->Ok_0);
    }
}

/// Whether name `a` comes strictly before name `b`.
pub fn name_before(a: &Vec<u8>, b: &Vec<u8>) -> (r: bool)
    ensures
        r == name_precedes(a@, b@),
{
    let mut i: usize = 0;
    while i < a.len() && i < b.len()
        invariant
            common_prefix(a@, b@, i as int),
        decreases a.len() - i,
    {
        if a[i] != b[i] {
            proof {
                lemma_first_difference_decides(a@, b@, i as int);
            }
            return a[i] < b[i];
        }
        i = i + 1;
    }
    proof {
        lemma_first_difference_decides(a@, b@, i as int);
    }
    i < b.len()
}

/// Once the common prefix cannot be made longer, the order is decided at its
/// end.
proof fn lemma_first_difference_decides(a: Seq<u8>, b: Seq<u8>, i: int)
    requires
        common_prefix(a, b, i),
        i == a.len() || i == b.len() || a[i] != b[i],
    ensures
        name_precedes(a, b) == (i < b.len() && (i == a.len() || a[i] < b[i])),
{
    if name_precedes(a, b) {
        let k = choose|k: int|
            #[trigger] common_prefix(a, b, k) && k < b.len() && (k == a.len() || a[k] < b[k]);
        if k < i {
            assert(a[k] == b[k]);
        } else if k > i {
            assert(a[i] == b[i]);
        }
    }
}

/// Checks the table row by row against the length of the embedded data and
/// reports the first fault, if there is one.
pub fn check_table(table: &Vec<AppEntry>, data_len: usize) -> (verdict: Result<(), BootError>)
    ensures
        table_verdict(table@, data_len as int, verdict),
{
    let mut i: usize = 0;
    while i < table.len()
        invariant
            i <= table.len(),
            entries_accepted(table@, i as int, data_len as int),
        decreases table.len() - i,
    {
        let entry = &table[i];
        if !(entry.start <= entry.end && entry.end <= data_len) {
            return Err(BootError::MalformedTable { index: i });
        }
        if i > 0 {
            let previous = &table[i - 1];
            if !(previous.end <= entry.start && name_before(&previous.name, &entry.name)) {
                return Err(BootError::MalformedTable { index: i });
            }
        }
        if entry.end - entry.start > APP_SIZE_LIMIT {
            return Err(BootError::ImageTooLarge { index: i });
        }
        i = i + 1;
    }
    Ok(())
}

/// Memory `mem` holds every image of `table` at the start of its task's slot,
/// the rest of each slot zero, and both arrays of stacks zero.
pub open spec fn images_loaded(
    mem: crate::memory::MemoryState,
    table: Seq<AppEntry>,
    data: Seq<u8>,
) -> bool {
    &&& mem.layout.task_count == table.len()
    &&& forall|i: int|
        0 <= i < table.len() ==> #[trigger] mem.slot(i) == padded_image(
            data.subrange(table[i].start as int, table[i].end as int),
        )
    &&& forall|i: int| 0 <= i < mem.user_stacks.len() ==> mem.user_stacks[i] == 0
    &&& forall|i: int| 0 <= i < mem.kernel_stacks.len() ==> mem.kernel_stacks[i] == 0
}

/// Brings the task memory up: one slot and one pair of stacks for each row of
/// `table`, each image copied from `data` into its slot in table order and the
/// remainder of the slot cleared.
///
/// Nothing is loaded unless the whole table is accepted: a faulty table gives
/// its verdict, and an accepted table whose memory cannot be placed at the
/// given stack bases gives [`BootError::LayoutConflict`].
pub fn load_apps(
    table: &Vec<AppEntry>,
    data: &Vec<u8>,
    user_stack_base: usize,
    kernel_stack_base: usize,
) -> (loaded: Result<Memory, BootError>)
    ensures
        match loaded {
            Ok(mem) => {
                &&& table_verdict(table@, data.len() as int, Ok(()))
                &&& mem.wf()
                &&& mem@.layout == (MemoryLayout {
                    task_count: table.len(),
                    user_stack_base,
                    kernel_stack_base,
                })
                &&& images_loaded(mem@, table@, data@)
            },
            Err(BootError::LayoutConflict) => {
                &&& table_verdict(table@, data.len() as int, Ok(()))
                &&& !(MemoryLayout {
                    task_count: table.len(),
                    user_stack_base,
                    kernel_stack_base,
                }).wf()
            },
            Err(fault) => table_verdict(table@, data.len() as int, Err(fault)),
        },
{
    match check_table(table, data.len()) {
        Err(fault) => { return Err(fault); },
        Ok(()) => {},
    }
    let layout = match MemoryLayout::new(table.len(), user_stack_base, kernel_stack_base) {
        Some(layout) => layout,
        None => { return Err(BootError::LayoutConflict); },
    };
    let mut mem = Memory::new(layout);
    let mut i: usize = 0;
    while i < table.len()
        invariant
            i <= table.len(),
            entries_accepted(table@, table.len() as int, data.len() as int),
            mem.wf(),
            mem@.layout == layout,
            layout.task_count == table.len(),
            forall|j: int|
                0 <= j < i ==> #[trigger] mem@.slot(j) == padded_image(
                    data@.subrange(table[j].start as int, table[j].end as int),
                ),
            forall|j: int| 0 <= j < mem@.user_stacks.len() ==> mem@.user_stacks[j] == 0,
            forall|j: int| 0 <= j < mem@.kernel_stacks.len() ==> mem@.kernel_stacks[j] == 0,
        decreases table.len() - i,
    {
        assert(entry_well_formed(table@, i as int, data.len() as int) && entry_fits(
            table@,
            i as int,
        ));
        let entry = &table[i];
        mem.fill_slot(i, data, entry.start, entry.end);
        i = i + 1;
    }
    Ok(mem)
}

} // verus!
