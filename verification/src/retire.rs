//! Which numbered directories are obsolete once a new one is allocated.
//!
//! Numbers live on a ring of 65536 values. Seen from the most recently
//! allocated number, the ring is split in two arcs: the numbers to keep, which
//! are the newest few behind it and everything up to half a ring ahead of it,
//! and the numbers to delete, which are the rest. Numbers ahead are kept
//! because another allocator running at the same time may have taken them.

use vstd::prelude::*;

verus! {


/// How far `number` lies behind `current` on the ring.
pub open spec fn age(current: u16, number: u16) -> int {
    (current - number) % 65536
}

/// How far `number` lies ahead of `current` on the ring.
pub open spec fn lead(current: u16, number: u16) -> int {
    (number - current) % 65536
}

/// Whether `number` is to be deleted when `current` is the newest number and
/// the newest `keep` numbers are retained.
pub open spec fn obsolete(current: u16, keep: u8, number: u16) -> bool {
    keep <= age(current, number) <= 32769
}

/// The first number of the arc that is kept.
pub open spec fn oldest_to_keep(current: u16, keep: u8) -> int {
    (current - keep + 1) % 65536
}

/// The first number of the arc that is deleted.
pub open spec fn oldest_to_delete(current: u16) -> int {
    (current + 32767) % 65536
}

/// The boundary test on the two arcs, for both orders of their first numbers.
pub open spec fn in_delete_arc(current: u16, keep: u8, number: u16) -> bool {
    let first_kept = oldest_to_keep(current, keep);
    let first_deleted = oldest_to_delete(current);
    ||| first_kept > first_deleted && number < first_kept && number >= first_deleted
    ||| first_kept < first_deleted && (number < first_kept || number >= first_deleted)
}

/// The two arcs never start at the same number, so every number lies in
/// exactly one of them.
pub proof fn lemma_arcs_differ(current: u16, keep: u8)
    ensures
        oldest_to_keep(current, keep) != oldest_to_delete(current),
{
}

/// The boundary test deletes exactly the numbers whose age is at least `keep`
/// and at most the horizon.
pub proof fn lemma_arc_test(current: u16, keep: u8, number: u16)
    ensures
        in_delete_arc(current, keep, number) == obsolete(current, keep, number),
{
}

/// A number that lies ahead of `current`, by up to 32766 steps and across the
/// wrap to zero or not, is never deleted.
pub proof fn lemma_ahead_is_kept(current: u16, keep: u8, number: u16)
    requires
        1 <= lead(current, number) <= 32766,
    ensures
        !obsolete(current, keep, number),
{
}

/// The numbers that follow `current`, which the next allocations take, are
/// never deleted: no allocation dooms a number that it or a racing
/// allocation is about to use.
pub proof fn lemma_next_numbers_are_kept(current: u16, keep: u8, steps: int)
    requires
        1 <= steps <= 32766,
    ensures
        !obsolete(current, keep, ((current + steps) % 65536) as u16),
{
    lemma_ahead_is_kept(current, keep, ((current + steps) % 65536) as u16);
}

/// The newest `keep` numbers, `current` among them, are never deleted.
pub proof fn lemma_window_is_kept(current: u16, keep: u8, number: u16)
    requires
        age(current, number) < keep,
    ensures
        !obsolete(current, keep, number),
{
}

/// Decides whether the directory numbered `number` is to be deleted.
pub fn is_obsolete(current: u16, keep: u8, number: u16) -> (r: bool)
    ensures
        r == obsolete(current, keep, number),
{
    let oldest_to_keep = current.wrapping_sub(keep as u16).wrapping_add(1);
    let oldest_to_delete = current.wrapping_add(u16::MAX / 2);
    proof {
        assert(oldest_to_keep == self::oldest_to_keep(current, keep));
        assert(oldest_to_delete == self::oldest_to_delete(current));
        lemma_arc_test(current, keep, number);
    }
    (oldest_to_keep > oldest_to_delete && (number < oldest_to_keep && number >= oldest_to_delete))
        || (oldest_to_keep < oldest_to_delete && (number < oldest_to_keep || number
        >= oldest_to_delete))
}

} // verus!
