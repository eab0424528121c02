//! The text CRDT replica that each document keeps in step with its buffer.
//!
//! A replica is read here as the sequence of the identities of the visible
//! units of the text it tracks, in text order: each identity is the replica
//! that inserted the unit and the unit's offset among everything that
//! replica inserted. Edits are read by the identities they carry.

use vstd::prelude::*;

verus! {

/// The replica type of the `cola` CRDT.
#[verifier::external_type_specification]
#[verifier::external_body]
pub struct ExReplica(cola::Replica);

/// An insertion produced by a replica, to be sent to other peers.
#[verifier::external_type_specification]
#[verifier::external_body]
pub struct ExInsertion(cola::Insertion);

/// A deletion produced by a replica, to be sent to other peers.
#[verifier::external_type_specification]
#[verifier::external_body]
pub struct ExDeletion(cola::Deletion);

/// The identities of the visible units of a replica's text, in order.
pub uninterp spec fn replica_chars(r: cola::Replica) -> Seq<(u64, nat)>;

/// The identifier a replica was made with.
pub uninterp spec fn replica_id(r: cola::Replica) -> u64;

/// The offset that the next unit this replica inserts will get (its own
/// version).
pub uninterp spec fn replica_version(r: cola::Replica) -> nat;

/// The inserted text of an insertion: the inserting replica and the range of
/// its offsets (`(0, 0, 0)` for an empty insertion).
pub uninterp spec fn insertion_text(i: cola::Insertion) -> (u64, nat, nat);

/// Where an insertion goes: just after the unit whose identity is
/// `(replica, offset - 1)`, or `(0, 0)` at the start of the text.
pub uninterp spec fn insertion_anchor(i: cola::Insertion) -> (u64, nat);

/// The replica that made a deletion (0 for an empty one).
pub uninterp spec fn deletion_by(d: cola::Deletion) -> u64;

/// The bounds of a deletion: the identity of its first unit, and the
/// identity just past its last unit (both `(0, 0)` for an empty one).
pub uninterp spec fn deletion_bounds(d: cola::Deletion) -> ((u64, nat), (u64, nat));

/// The identities of `len` units inserted by `id` from offset `from`.
pub open spec fn fresh_chars(id: u64, from: nat, len: nat) -> Seq<(u64, nat)> {
    Seq::new(len, |i: int| (id, (from + i) as nat))
}

/// The identity just past a unit.
pub open spec fn after_unit(c: (u64, nat)) -> (u64, nat) {
    (c.0, c.1 + 1)
}

/// Calls `cola::Replica::new`: a replica with identifier `id` for a buffer of
/// `len` units, all of which it counts as its own first `len` insertions. The
/// call panics when `id` is zero.
#[verifier::external_body]
pub(crate) fn replica_new(id: u64, len: usize) -> (r: cola::Replica)
    requires
        id != 0,
    ensures
        replica_chars(r) == fresh_chars(id, 0, len as nat),
        replica_id(r) == id,
        replica_version(r) == len,
{
    cola::Replica::new(id, len)
}

/// Calls `cola::Replica::fork`: a replica with identifier `id` and the same
/// text as `r`, whose own insertions start again at offset 0. The call panics
/// when `id` is zero.
#[verifier::external_body]
pub(crate) fn replica_fork(r: &cola::Replica, id: u64) -> (f: cola::Replica)
    requires
        id != 0,
    ensures
        replica_chars(f) == replica_chars(*r),
        replica_id(f) == id,
        replica_version(f) == 0,
{
    r.fork(id)
}

/// Calls `cola::Replica::inserted`: tells the replica that `len` units were
/// inserted at offset `at`. They become the replica's next `len` units, and
/// the returned insertion carries them and the identity they follow. The
/// call panics when `at` is past the end of the text.
#[verifier::external_body]
pub(crate) fn replica_inserted(r: &mut cola::Replica, at: usize, len: usize) -> (ins: cola::Insertion)
    requires
        at <= replica_chars(*old(r)).len(),
    ensures
        replica_chars(*final(r)) == replica_chars(*old(r)).take(at as int) + fresh_chars(
            replica_id(*old(r)),
            replica_version(*old(r)),
            len as nat,
        ) + replica_chars(*old(r)).skip(at as int),
        replica_version(*final(r)) == replica_version(*old(r)) + len,
        replica_id(*final(r)) == replica_id(*old(r)),
        len == 0 ==> insertion_text(ins) == (0u64, 0nat, 0nat) && insertion_anchor(ins) == (
            0u64,
            0nat,
        ),
        len > 0 ==> insertion_text(ins) == (
            replica_id(*old(r)),
            replica_version(*old(r)),
            (replica_version(*old(r)) + len) as nat,
        ),
        len > 0 && at == 0 ==> insertion_anchor(ins) == (0u64, 0nat),
        len > 0 && at > 0 ==> insertion_anchor(ins) == after_unit(
            replica_chars(*old(r))[at - 1],
        ),
{
    r.inserted(at, len)
}

/// Calls `cola::Replica::deleted`: tells the replica that the units
/// `start..end` were deleted; the returned deletion carries the identities
/// that bound them. The call panics when `start > end` or when `end` is past
/// the end of the text.
#[verifier::external_body]
pub(crate) fn replica_deleted(r: &mut cola::Replica, start: usize, end: usize) -> (del: cola::Deletion)
    requires
        start <= end,
        end <= replica_chars(*old(r)).len(),
    ensures
        replica_chars(*final(r)) == replica_chars(*old(r)).take(start as int) + replica_chars(
            *old(r),
        ).skip(end as int),
        replica_version(*final(r)) == replica_version(*old(r)),
        replica_id(*final(r)) == replica_id(*old(r)),
        start == end ==> deletion_by(del) == 0 && deletion_bounds(del) == ((0u64, 0nat), (0u64, 0nat)),
        start < end ==> deletion_by(del) == replica_id(*old(r)) && deletion_bounds(del) == (
            replica_chars(*old(r))[start as int],
            after_unit(replica_chars(*old(r))[end - 1]),
        ),
{
    r.deleted(start..end)
}

} // verus!
