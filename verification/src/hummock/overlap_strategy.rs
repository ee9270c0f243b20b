//! When two tables overlap.

use vstd::prelude::*;

use crate::hummock::key::{
    full_key_less, full_key_lt, is_full_key, law_full_key_order_total, law_full_key_order_transitive,
};
use crate::hummock::version::{KeyRange, KeyRangeView, SstView, SstableInfo};

verus! {

/// Two key ranges have a full key in common. An empty bound is unbounded.
pub open spec fn ranges_overlap(a: KeyRangeView, b: KeyRangeView) -> bool {
    &&& a.right.len() == 0 || b.left.len() == 0 || !full_key_lt(a.right, b.left)
    &&& b.right.len() == 0 || a.left.len() == 0 || !full_key_lt(b.right, a.left)
}

/// Decides which tables a compaction has to read together.
pub trait OverlapStrategy {
    /// The relation that the strategy decides.
    spec fn overlaps(&self, a: SstView, b: SstView) -> bool;

    /// Whether two tables overlap.
    fn check_overlap(&self, a: &SstableInfo, b: &SstableInfo) -> (r: bool)
        requires
            a@.key_range.wf(),
            b@.key_range.wf(),
        ensures
            r == self.overlaps(a@, b@),
    ;
}

/// Tables overlap when their key ranges do.
#[derive(Clone, Copy, Debug)]
pub struct RangeOverlapStrategy {}

impl Default for RangeOverlapStrategy {
    fn default() -> (r: RangeOverlapStrategy)
        ensures
            r == (RangeOverlapStrategy {  }),
    {
        RangeOverlapStrategy {  }
    }
}

/// Whether two key ranges have a full key in common.
pub fn full_key_overlap(a: &KeyRange, b: &KeyRange) -> (r: bool)
    requires
        a@.wf(),
        b@.wf(),
    ensures
        r == ranges_overlap(a@, b@),
{
    if a.right.len() > 0 && b.left.len() > 0 && full_key_less(a.right.as_slice(), b.left.as_slice()) {
        return false;
    }
    if b.right.len() > 0 && a.left.len() > 0 && full_key_less(b.right.as_slice(), a.left.as_slice()) {
        return false;
    }
    true
}

impl OverlapStrategy for RangeOverlapStrategy {
    open spec fn overlaps(&self, a: SstView, b: SstView) -> bool {
        ranges_overlap(a.key_range, b.key_range)
    }

    fn check_overlap(&self, a: &SstableInfo, b: &SstableInfo) -> (r: bool) {
        full_key_overlap(&a.key_range, &b.key_range)
    }
}

/// Overlap of key ranges is symmetric.
pub proof fn law_ranges_overlap_symmetric(a: KeyRangeView, b: KeyRangeView)
    ensures
        ranges_overlap(a, b) == ranges_overlap(b, a),
{
}

/// A full key lies in a range, bounds included. An empty bound is unbounded.
pub open spec fn lies_in(key: Seq<u8>, range: KeyRangeView) -> bool {
    &&& range.left.len() == 0 || !full_key_lt(key, range.left)
    &&& range.right.len() == 0 || !full_key_lt(range.right, key)
}

/// Ranges that have a full key in common overlap.
pub proof fn law_common_key_is_overlap(a: KeyRangeView, b: KeyRangeView, key: Seq<u8>)
    requires
        a.wf(),
        b.wf(),
        is_full_key(key),
        lies_in(key, a),
        lies_in(key, b),
    ensures
        ranges_overlap(a, b),
{
    lemma_between(a, b, key);
    lemma_between(b, a, key);
}

proof fn lemma_between(a: KeyRangeView, b: KeyRangeView, key: Seq<u8>)
    requires
        a.wf(),
        b.wf(),
        is_full_key(key),
        lies_in(key, a),
        lies_in(key, b),
    ensures
        a.right.len() == 0 || b.left.len() == 0 || !full_key_lt(a.right, b.left),
{
    if a.right.len() > 0 && b.left.len() > 0 && full_key_lt(a.right, b.left) {
        law_full_key_order_total(key, a.right);
        law_full_key_order_total(key, b.left);
        law_full_key_order_total(a.right, b.left);
        if full_key_lt(key, a.right) {
            law_full_key_order_transitive(key, a.right, b.left);
        }
    }
}

/// Bounded ranges that overlap have a full key in common: the later one of their beginnings.
pub proof fn law_overlap_has_common_key(a: KeyRangeView, b: KeyRangeView)
    requires
        a.wf(),
        b.wf(),
        a.left.len() > 0,
        a.right.len() > 0,
        b.left.len() > 0,
        b.right.len() > 0,
        !full_key_lt(a.right, a.left),
        !full_key_lt(b.right, b.left),
        ranges_overlap(a, b),
    ensures
        exists|key: Seq<u8>| is_full_key(key) && #[trigger] lies_in(key, a) && lies_in(key, b),
{
    law_full_key_order_total(a.left, b.left);
    let key = if full_key_lt(a.left, b.left) {
        b.left
    } else {
        a.left
    };
    law_full_key_order_total(key, key);
    assert(lies_in(key, a));
    assert(lies_in(key, b));
}

} // verus!
