//! The per-worker tables of a ledger: each worker's allocation list and each
//! worker's bucket list. A worker without an entry has no allocations and
//! no buckets.

use vstd::prelude::*;
use crate::buckets::{Allocation, AllocationsModel, BucketsModel, allocations_sum_to_100, copy_allocations, copy_buckets, labels_sorted, percent_total, sorted_labels};
use crate::registry::{assign, distinct_keys, find_key, keys_distinct, lemma_assign, lemma_index_of, lookup, lookup_or};

verus! {

/// The model of the allocation table: worker to allocation list.
pub type AllocationTable = Seq<(Seq<char>, AllocationsModel)>;

/// The model of the bucket table: worker to bucket list.
pub type BucketTable = Seq<(Seq<char>, BucketsModel)>;

/// One entry per worker, and every stored allocation list adds up to 100
/// percent.
pub open spec fn allocation_table_wf(t: AllocationTable) -> bool {
    &&& distinct_keys(t)
    &&& forall|i: int| 0 <= i < t.len() ==> percent_total(#[trigger] t[i].1) == 100
}

/// One entry per worker, and each list in increasing label order (so one
/// bucket per label).
pub open spec fn bucket_table_wf(t: BucketTable) -> bool {
    &&& distinct_keys(t)
    &&& forall|i: int| 0 <= i < t.len() ==> sorted_labels(#[trigger] t[i].1)
}

/// The allocations of worker `w` (empty when none were set).
pub open spec fn allocations_of(t: AllocationTable, w: Seq<char>) -> AllocationsModel {
    lookup_or(t, w, Seq::empty())
}

/// The buckets of worker `w` (empty when the worker has none).
pub open spec fn buckets_of(t: BucketTable, w: Seq<char>) -> BucketsModel {
    lookup_or(t, w, Seq::empty())
}

/// In a well-formed table a worker's allocations are either unset or add up
/// to 100 percent.
pub proof fn lemma_allocations_of(t: AllocationTable, w: Seq<char>)
    requires
        allocation_table_wf(t),
    ensures
        allocations_of(t, w).len() == 0 || percent_total(allocations_of(t, w)) == 100,
{
    if lookup(t, w) is Some {
        let i = crate::registry::index_of(t, w);
        assert(percent_total(t[i].1) == 100);
    }
}

/// In a well-formed table a worker's bucket list is in label order.
pub proof fn lemma_buckets_of(t: BucketTable, w: Seq<char>)
    requires
        bucket_table_wf(t),
    ensures
        sorted_labels(buckets_of(t, w)),
{
    if lookup(t, w) is Some {
        let i = crate::registry::index_of(t, w);
        assert(sorted_labels(t[i].1));
    } else {
        assert(sorted_labels(Seq::<(Seq<char>, i128)>::empty()));
    }
}

/// Storing a list that adds up to 100 percent keeps the allocation table
/// well formed; the worker then has exactly that list, and every other
/// worker keeps theirs.
pub proof fn lemma_assign_allocations(t: AllocationTable, w: Seq<char>, a: AllocationsModel)
    requires
        allocation_table_wf(t),
        percent_total(a) == 100,
    ensures
        allocation_table_wf(assign(t, w, a)),
        allocations_of(assign(t, w, a), w) == a,
        forall|w2: Seq<char>| w2 != w ==> #[trigger] allocations_of(assign(t, w, a), w2) == allocations_of(t, w2),
{
    lemma_assign(t, w, a);
    let t2 = assign(t, w, a);
    assert forall|i: int| 0 <= i < t2.len() implies percent_total(#[trigger] t2[i].1) == 100 by {
        if i < t.len() && t2[i] == t[i] {
        } else {
        }
    }
    assert forall|w2: Seq<char>| w2 != w implies #[trigger] allocations_of(t2, w2) == allocations_of(t, w2) by {
        assert(lookup(t2, w2) == lookup(t, w2));
    }
}

/// Storing a list in label order keeps the bucket table well
/// formed; the worker then has exactly that list, and every other worker
/// keeps theirs.
pub proof fn lemma_assign_buckets(t: BucketTable, w: Seq<char>, b: BucketsModel)
    requires
        bucket_table_wf(t),
        sorted_labels(b),
    ensures
        bucket_table_wf(assign(t, w, b)),
        buckets_of(assign(t, w, b), w) == b,
        forall|w2: Seq<char>| w2 != w ==> #[trigger] buckets_of(assign(t, w, b), w2) == buckets_of(t, w2),
{
    lemma_assign(t, w, b);
    let t2 = assign(t, w, b);
    assert forall|i: int| 0 <= i < t2.len() implies sorted_labels(#[trigger] t2[i].1) by {
        if i < t.len() && t2[i] == t[i] {
        } else {
        }
    }
    assert forall|w2: Seq<char>| w2 != w implies #[trigger] buckets_of(t2, w2) == buckets_of(t, w2) by {
        assert(lookup(t2, w2) == lookup(t, w2));
    }
}

/// A copy of the allocations of `worker`.
pub fn allocations_for(t: &Vec<(String, Vec<Allocation>)>, worker: &String) -> (r: Vec<Allocation>)
    requires
        distinct_keys(t.deep_view()),
    ensures
        r.deep_view() == allocations_of(t.deep_view(), worker@),
{
    match find_key(t, worker) {
        Some(i) => {
            proof {
                lemma_index_of(t.deep_view(), worker@, i as int);
            }
            copy_allocations(&t[i].1)
        },
        None => {
            let r: Vec<Allocation> = Vec::new();
            assert(r.deep_view() =~= Seq::<(Seq<char>, u32)>::empty());
            r
        },
    }
}

/// A copy of the buckets of `worker`.
pub fn buckets_for(t: &Vec<(String, Vec<(String, i128)>)>, worker: &String) -> (r: Vec<(String, i128)>)
    requires
        bucket_table_wf(t.deep_view()),
    ensures
        r.deep_view() == buckets_of(t.deep_view(), worker@),
        sorted_labels(r.deep_view()),
{
    proof {
        lemma_buckets_of(t.deep_view(), worker@);
    }
    match find_key(t, worker) {
        Some(i) => {
            proof {
                lemma_index_of(t.deep_view(), worker@, i as int);
            }
            copy_buckets(&t[i].1)
        },
        None => {
            let r: Vec<(String, i128)> = Vec::new();
            assert(r.deep_view() =~= Seq::<(Seq<char>, i128)>::empty());
            r
        },
    }
}

/// Whether an allocation table is well formed (see `allocation_table_wf`).
pub fn allocation_table_valid(t: &Vec<(String, Vec<Allocation>)>) -> (r: bool)
    ensures
        r == allocation_table_wf(t.deep_view()),
{
    if !keys_distinct(t) {
        return false;
    }
    let ghost m = t.deep_view();
    let mut i: usize = 0;
    while i < t.len()
        invariant
            m == t.deep_view(),
            i <= t.len(),
            forall|j: int| 0 <= j < i ==> percent_total(#[trigger] m[j].1) == 100,
        decreases t.len() - i,
    {
        if !allocations_sum_to_100(&t[i].1) {
            assert(m[i as int].1 == t@[i as int].1.deep_view());
            assert(percent_total(m[i as int].1) != 100);
            return false;
        }
        i += 1;
    }
    true
}

/// Whether a bucket table is well formed (see `bucket_table_wf`).
pub fn bucket_table_valid(t: &Vec<(String, Vec<(String, i128)>)>) -> (r: bool)
    ensures
        r == bucket_table_wf(t.deep_view()),
{
    if !keys_distinct(t) {
        return false;
    }
    let ghost m = t.deep_view();
    let mut i: usize = 0;
    while i < t.len()
        invariant
            m == t.deep_view(),
            i <= t.len(),
            forall|j: int| 0 <= j < i ==> sorted_labels(#[trigger] m[j].1),
        decreases t.len() - i,
    {
        if !labels_sorted(&t[i].1) {
            assert(m[i as int].1 == t@[i as int].1.deep_view());
            assert(!sorted_labels(m[i as int].1));
            return false;
        }
        i += 1;
    }
    true
}

} // verus!
