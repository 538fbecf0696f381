//! Ids of fibers.
//!
//! A fiber is known to the poller, the timer wheel and the resolver under one number
//! that holds its runner and its slot there.
use vstd::prelude::*;

verus! {

/// How many runners there can be on a thread.
pub const MAX_RUNNERS: usize = 20;

/// The id of the fiber in slot `pos` of the runner `runner`.
pub open spec fn fiber_id_of(runner: i8, pos: usize) -> u64 {
    (pos as u64) | ((runner as u64) << 40u64)
}

/// The runner that an id names.
pub open spec fn runner_of(id: u64) -> usize {
    ((id >> 40u64) & 255u64) as usize
}

/// The slot that an id names.
pub open spec fn slot_of(id: u64) -> usize {
    (id & 0xffff_ffffu64) as usize
}

/// The id of the fiber in slot `pos` of the runner `runner`.
pub fn fiber_id(runner: i8, pos: usize) -> (id: u64)
    requires
        0 <= runner < MAX_RUNNERS,
    ensures
        id == fiber_id_of(runner, pos),
{
    (pos as u64) | ((runner as u64) << 40u64)
}

/// The runner and the slot that an id names.
pub fn split_id(id: u64) -> (parts: (usize, usize))
    ensures
        parts == (runner_of(id), slot_of(id)),
{
    (((id >> 40u64) & 255u64) as usize, (id & 0xffff_ffffu64) as usize)
}

/// An id names the runner and the slot that it was made of, as long as the slot's
/// number takes no more than 32 bits.
pub proof fn law_id_round_trip(runner: i8, pos: usize)
    requires
        0 <= runner < MAX_RUNNERS,
        pos <= 0xffff_ffff,
    ensures
        runner_of(fiber_id_of(runner, pos)) == runner,
        slot_of(fiber_id_of(runner, pos)) == pos,
{
    let p = pos as u64;
    let r = runner as u64;
    assert(((p | (r << 40u64)) >> 40u64) & 255u64 == r && (p | (r << 40u64)) & 0xffff_ffffu64 == p)
        by (bit_vector)
        requires
            p <= 0xffff_ffffu64,
            r < 20,
    ;
}

/// Two fibers never share an id, whether they are of one runner or of two.
pub proof fn law_ids_are_distinct(runner: i8, pos: usize, other_runner: i8, other_pos: usize)
    requires
        0 <= runner < MAX_RUNNERS,
        0 <= other_runner < MAX_RUNNERS,
        pos <= 0xffff_ffff,
        other_pos <= 0xffff_ffff,
        fiber_id_of(runner, pos) == fiber_id_of(other_runner, other_pos),
    ensures
        runner == other_runner,
        pos == other_pos,
{
    law_id_round_trip(runner, pos);
    law_id_round_trip(other_runner, other_pos);
}

} // verus!
