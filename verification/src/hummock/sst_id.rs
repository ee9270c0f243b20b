//! Ids of sorted string tables.

use vstd::prelude::*;

verus! {

pub type HummockSstableId = u128;

pub type HummockRefCount = u64;

pub type HummockVersionId = u64;

pub type HummockContextId = u32;

pub type HummockEpoch = u64;

pub type HummockCompactionTaskId = u64;

pub type CompactionGroupId = u64;

pub const INVALID_VERSION_ID: HummockVersionId = 0;

pub const FIRST_VERSION_ID: HummockVersionId = 1;

/// The node of tables that exist only locally.
pub const INVALID_NODE_ID: u64 = u64::MAX;

/// The two parts of an id: the node that issued it, and a number.
#[derive(Clone, Copy, Debug, PartialEq, Eq, Structural)]
pub struct SstableId {
    pub node_id: u64,
    pub seq_id: u64,
}

/// The id as one number.
pub open spec fn id_as_int(id: SstableId) -> int {
    id.node_id * 0x1_0000_0000_0000_0000 + id.seq_id
}

impl SstableId {
    /// The id as one number.
    pub fn as_int(&self) -> (r: HummockSstableId)
        ensures
            r == id_as_int(*self),
    {
        self.node_id as u128 * 0x1_0000_0000_0000_0000 + self.seq_id as u128
    }

    /// The id that a number stands for.
    pub fn from_int(id: HummockSstableId) -> (r: SstableId)
        ensures
            id_as_int(r) == id,
    {
        SstableId {
            node_id: (id / 0x1_0000_0000_0000_0000) as u64,
            seq_id: (id % 0x1_0000_0000_0000_0000) as u64,
        }
    }
}

/// A number stands for one id only.
pub proof fn law_id_as_int_injective(a: SstableId, b: SstableId)
    requires
        id_as_int(a) == id_as_int(b),
    ensures
        a == b,
{
}

/// The id of the local table number `seq_id`.
pub fn get_local_sst_id(seq_id: u64) -> (r: HummockSstableId)
    ensures
        r == id_as_int(SstableId { node_id: INVALID_NODE_ID, seq_id }),
{
    SstableId { node_id: INVALID_NODE_ID, seq_id }.as_int()
}

/// The node part of an id is not the one of local tables.
pub open spec fn is_remote(id: HummockSstableId) -> bool {
    id / 0x1_0000_0000_0000_0000 != INVALID_NODE_ID
}

/// Whether a table was issued by a node.
pub fn is_remote_sst_id(id: HummockSstableId) -> (r: bool)
    ensures
        r == is_remote(id),
{
    SstableId::from_int(id).node_id != INVALID_NODE_ID
}

/// No local table is taken for a remote one.
pub proof fn law_local_id_is_not_remote(seq_id: u64)
    ensures
        !is_remote(id_as_int(SstableId { node_id: INVALID_NODE_ID, seq_id }) as u128),
{
}

/// An id reduced to 64 bits.
pub fn get_sst_id_hash(id: HummockSstableId) -> (r: u64)
    ensures
        r == id % (u64::MAX as u128),
{
    (id % (u64::MAX as HummockSstableId)) as u64
}

/// The number of a table has its node in the upper half and its number on the node in the lower half; it is
/// remote exactly if the node is one.
pub proof fn law_halves_of_id(id: SstableId)
    ensures
        id_as_int(id) / 0x1_0000_0000_0000_0000 == id.node_id,
        id_as_int(id) % 0x1_0000_0000_0000_0000 == id.seq_id,
        is_remote(id_as_int(id) as u128) <==> id.node_id != INVALID_NODE_ID,
{
}

} // verus!
