//! The thread pointer on Darwin: a slot among the thread-specific values of the
//! C library, found by a mark.

use vstd::prelude::*;

verus! {

pub const PTHREAD_KEYS_MAX: usize = 512;

/// The mark that is stored to find the slot.
pub const MAGIC: u64 = 0xc476c475c47957;

/// The first slot from `i` on that holds the mark.
pub open spec fn marked_slot(slots: Seq<u64>, i: int) -> Option<int>
    decreases PTHREAD_KEYS_MAX - i,
{
    if i >= PTHREAD_KEYS_MAX || i >= slots.len() {
        None
    } else if slots[i] == MAGIC {
        Some(i)
    } else {
        marked_slot(slots, i + 1)
    }
}

/// Offset of the slot that holds the mark. The first slot is the library's
/// own.
pub fn find_slot(slots: &Vec<u64>) -> (r: Option<usize>)
    requires
        slots@.len() == PTHREAD_KEYS_MAX,
    ensures
        match (r, marked_slot(slots@, 1)) {
            (Some(off), Some(i)) => off == 8 * i,
            (None, None) => true,
            _ => false,
        },
{
    let mut i: usize = 1;
    while i < PTHREAD_KEYS_MAX
        invariant
            1 <= i <= PTHREAD_KEYS_MAX,
            slots@.len() == PTHREAD_KEYS_MAX,
            marked_slot(slots@, 1) == marked_slot(slots@, i as int),
        decreases PTHREAD_KEYS_MAX - i,
    {
        if slots[i] == MAGIC {
            return Some(8 * i);
        }
        i = i + 1;
    }
    None
}

/// The slot is the one that the library reads: what was written to it comes
/// back.
pub fn slot_agrees(back: u64) -> (r: bool)
    ensures
        r == (back == MAGIC),
{
    back == MAGIC
}

/// The slot that is found is the first that holds the mark, among the first 512.
pub proof fn law_first_marked_slot_is_found(slots: Seq<u64>, i: int, k: int)
    requires
        0 <= i <= k < slots.len(),
        k < 512,
        slots[k] == 0xc476c475c47957,
        forall|j: int| i <= j < k ==> #[trigger] slots[j] != 0xc476c475c47957,
    ensures
        marked_slot(slots, i) == Some(k),
    decreases k - i,
{
    if i < k {
        law_first_marked_slot_is_found(slots, i + 1, k);
    }
}

/// Without the mark no slot is found.
pub proof fn law_no_slot_without_the_mark(slots: Seq<u64>, i: int)
    requires
        0 <= i,
        forall|j: int| i <= j < slots.len() ==> #[trigger] slots[j] != 0xc476c475c47957,
    ensures
        marked_slot(slots, i) is None,
    decreases 512 - i,
{
    if i < 512 && i < slots.len() {
        law_no_slot_without_the_mark(slots, i + 1);
    }
}

} // verus!
