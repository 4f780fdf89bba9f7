//! From the ordinal of a reservation to the slot it gets.

use crate::state::spec_derive_slot;
use vstd::prelude::*;

verus! {

/// The slot of the reservation with the given ordinal, for a free list of
/// which the first `free_len` entries were free at the last flush and a table
/// of `table_len` slots. Reserving and flushing both go by this function, so
/// they agree on every ordinal.
pub fn derive_slot(ordinal: u32, free_len: usize, free: &Vec<u32>, table_len: usize) -> (index: u32)
    requires
        free_len <= free.len(),
        ordinal >= free_len ==> table_len + (ordinal - free_len) <= u32::MAX,
    ensures
        index == spec_derive_slot(ordinal as int, free_len as int, free@, table_len as int),
{
    let ordinal = ordinal as usize;
    if ordinal < free_len {
        free[free_len - 1 - ordinal]
    } else {
        (table_len + (ordinal - free_len)) as u32
    }
}

} // verus!
