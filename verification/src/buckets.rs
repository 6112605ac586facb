//! Budget buckets: a worker's named balances, and the ways a payment is
//! credited to them.
//!
//! A bucket list is modelled as a sequence of `(label, balance)` pairs in
//! increasing label order (see `order`), as the contract's bucket map
//! iterates; a label with no entry has balance 0. Amounts are `i128`
//! and every step that would leave that range is refused.

use vstd::prelude::*;
use crate::error::LedgerError;
use crate::order::{label_less, label_lt, lemma_label_order};
use crate::registry::{distinct_keys, find_key, has_key, index_of, lemma_index_of, lookup, lookup_or};

verus! {

/// One share of a worker's income: the bucket `label` receives `percent`
/// percent of each payment.
#[derive(Clone, Debug)]
pub struct Allocation {
    pub label: String,
    pub percent: u32,
}

impl DeepView for Allocation {
    type V = (Seq<char>, u32);

    open spec fn deep_view(&self) -> (Seq<char>, u32) {
        (self.label@, self.percent)
    }
}

impl Allocation {
    /// A copy of this allocation.
    pub fn duplicate(&self) -> (r: Allocation)
        ensures
            r.deep_view() == self.deep_view(),
    {
        Allocation { label: self.label.clone(), percent: self.percent }
    }
}

/// The model of a bucket list.
pub type BucketsModel = Seq<(Seq<char>, i128)>;

/// The model of an allocation list.
pub type AllocationsModel = Seq<(Seq<char>, u32)>;

pub open spec fn fits_i128(x: int) -> bool {
    i128::MIN <= x <= i128::MAX
}

/// Integer division rounding toward zero, as Rust's `/` does.
pub open spec fn trunc_div(a: int, d: int) -> int {
    if a >= 0 {
        a / d
    } else {
        -((-a) / d)
    }
}

/// The labels are in strictly increasing order.
pub open spec fn sorted_labels(b: BucketsModel) -> bool {
    forall|i: int, j: int| #![trigger b[i], b[j]] 0 <= i < j < b.len() ==> label_lt(b[i].0, b[j].0)
}

/// A new label `k` belongs at position `p`: every label before it is
/// smaller, every label from it on is larger.
pub open spec fn fits_at(b: BucketsModel, k: Seq<char>, p: int) -> bool {
    &&& 0 <= p <= b.len()
    &&& forall|i: int| 0 <= i < p ==> label_lt(#[trigger] b[i].0, k)
    &&& forall|i: int| p <= i < b.len() ==> label_lt(k, #[trigger] b[i].0)
}

/// Where a new label `k` is inserted.
pub open spec fn insert_position(b: BucketsModel, k: Seq<char>) -> int {
    choose|p: int| fits_at(b, k, p)
}

/// Bucket `k` set to balance `v`: replaced in place, or inserted in label
/// order when it did not exist.
pub open spec fn set_balance(b: BucketsModel, k: Seq<char>, v: i128) -> BucketsModel {
    if has_key(b, k) {
        b.update(index_of(b, k), (k, v))
    } else {
        b.insert(insert_position(b, k), (k, v))
    }
}

/// The balance of bucket `label` (0 when the bucket does not exist).
pub open spec fn balance(b: BucketsModel, label: Seq<char>) -> int {
    lookup_or(b, label, 0i128) as int
}

/// The balance of `label` raised by `amount`, or `None` when the new balance
/// does not fit in an `i128`.
pub open spec fn credit(b: BucketsModel, label: Seq<char>, amount: int) -> Option<BucketsModel> {
    if fits_i128(balance(b, label) + amount) {
        Some(set_balance(b, label, (balance(b, label) + amount) as i128))
    } else {
        None
    }
}

/// Withdrawing `amount` from bucket `label`: refused when the bucket holds
/// less than `amount`, or when the new balance would leave the `i128` range
/// (a negative amount raises the balance). The bucket is created when it did
/// not exist.
pub open spec fn withdrawal(b: BucketsModel, label: Seq<char>, amount: i128) -> Result<BucketsModel, LedgerError> {
    if balance(b, label) < amount {
        Err(LedgerError::InsufficientBucketBalance)
    } else if !fits_i128(balance(b, label) - amount) {
        Err(LedgerError::ArithmeticOverflow)
    } else {
        Ok(set_balance(b, label, (balance(b, label) - amount) as i128))
    }
}

/// The sum of all balances.
pub open spec fn bucket_total(b: BucketsModel) -> int
    decreases b.len(),
{
    if b.len() == 0 {
        0
    } else {
        bucket_total(b.drop_last()) + b.last().1
    }
}

/// The sum of all percentages.
pub open spec fn percent_total(a: AllocationsModel) -> int
    decreases a.len(),
{
    if a.len() == 0 {
        0
    } else {
        percent_total(a.drop_last()) + a.last().1
    }
}

/// `percent` percent of `total`, rounded toward zero.
pub open spec fn share_of(total: int, percent: int) -> int {
    trunc_div(total * percent, 100)
}

/// Crediting the first `k` allocations of a split of `total`: the bucket
/// list reached and the amount handed out so far. Every allocation but the
/// last receives its percentage of `total`, rounded toward zero; the last
/// one receives what is left, so that no rounding remainder is lost. `None`
/// when a product, a slice, a balance or the running sum leaves the `i128`
/// range.
pub open spec fn split_prefix(b0: BucketsModel, total: i128, a: AllocationsModel, k: nat) -> Option<(BucketsModel, int)>
    decreases k,
{
    if k == 0 {
        Some((b0, 0))
    } else {
        match split_prefix(b0, total, a, (k - 1) as nat) {
            None => None,
            Some((b, d)) => {
                let i = k - 1;
                let is_last = i == a.len() - 1;
                let product = total * a[i].1;
                let slice = if is_last { total - d } else { trunc_div(product, 100) };
                if (!is_last && !fits_i128(product)) || !fits_i128(slice) {
                    None
                } else {
                    match credit(b, a[i].0, slice) {
                        None => None,
                        Some(b2) => if fits_i128(d + slice) {
                            Some((b2, d + slice))
                        } else {
                            None
                        },
                    }
                }
            },
        }
    }
}

/// The bucket list after splitting `total` over all allocations `a`.
pub open spec fn split(b0: BucketsModel, total: i128, a: AllocationsModel) -> Option<BucketsModel> {
    match split_prefix(b0, total, a, a.len()) {
        Some((b, _)) => Some(b),
        None => None,
    }
}

/// Once a split has failed, it stays failed.
proof fn lemma_split_failure_persists(b0: BucketsModel, total: i128, a: AllocationsModel, k: nat, n: nat)
    requires
        k <= n,
        split_prefix(b0, total, a, k) is None,
    ensures
        split_prefix(b0, total, a, n) is None,
    decreases n - k,
{
    if k < n {
        lemma_split_failure_persists(b0, total, a, (k + 1) as nat, n);
    }
}

/// A split that fails on some allocation fails as a whole.
proof fn lemma_split_fails(b0: BucketsModel, total: i128, a: AllocationsModel, k: nat)
    requires
        k <= a.len(),
        split_prefix(b0, total, a, k) is None,
    ensures
        split(b0, total, a) is None,
{
    lemma_split_failure_persists(b0, total, a, k, a.len());
}

proof fn lemma_percent_prefix(a: AllocationsModel, i: int)
    requires
        0 <= i <= a.len(),
    ensures
        percent_total(a.take(i)) <= percent_total(a),
    decreases a.len(),
{
    if i < a.len() {
        assert(a.drop_last().take(i) =~= a.take(i));
        lemma_percent_prefix(a.drop_last(), i);
    } else {
        assert(a.take(i) =~= a);
    }
}

/// The shares handed to the first `k` allocations: each one's percentage of
/// `total`, rounded toward zero.
pub open spec fn leading_shares(total: int, a: AllocationsModel, k: int) -> int
    decreases k,
{
    if k <= 0 {
        0
    } else {
        leading_shares(total, a, k - 1) + share_of(total, a[k - 1].1 as int)
    }
}

/// What allocation `i` receives when `total` is split over `a`: its
/// percentage of `total` rounded toward zero, except for the last one, which
/// receives the remainder.
pub open spec fn slice_amount(total: int, a: AllocationsModel, i: int) -> int {
    if i == a.len() - 1 {
        total - leading_shares(total, a, a.len() - 1)
    } else {
        share_of(total, a[i].1 as int)
    }
}

/// What the first `k` allocations with label `label` receive together.
pub open spec fn label_credit(total: int, a: AllocationsModel, label: Seq<char>, k: int) -> int
    decreases k,
{
    if k <= 0 {
        0
    } else {
        label_credit(total, a, label, k - 1) + if a[k - 1].0 == label {
            slice_amount(total, a, k - 1)
        } else {
            0
        }
    }
}

proof fn lemma_bucket_total_update(b: BucketsModel, i: int, entry: (Seq<char>, i128))
    requires
        0 <= i < b.len(),
    ensures
        bucket_total(b.update(i, entry)) == bucket_total(b) - b[i].1 + entry.1,
    decreases b.len(),
{
    let u = b.update(i, entry);
    if i == b.len() - 1 {
        assert(u.drop_last() =~= b.drop_last());
    } else {
        assert(u.drop_last() =~= b.drop_last().update(i, entry));
        lemma_bucket_total_update(b.drop_last(), i, entry);
    }
}

/// Labels in strictly increasing order are distinct.
pub proof fn lemma_sorted_distinct(b: BucketsModel)
    requires
        sorted_labels(b),
    ensures
        distinct_keys(b),
{
    assert forall|i: int, j: int| 0 <= i < b.len() && 0 <= j < b.len() && i != j implies #[trigger] b[i].0
        != #[trigger] b[j].0 by {
        lemma_label_order(b[i].0, b[j].0, b[j].0);
        lemma_label_order(b[j].0, b[i].0, b[i].0);
    }
}

proof fn lemma_insert_position_exists(b: BucketsModel, k: Seq<char>)
    requires
        sorted_labels(b),
        !has_key(b, k),
    ensures
        fits_at(b, k, insert_position(b, k)),
    decreases b.len(),
{
    if b.len() == 0 {
        assert(fits_at(b, k, 0));
    } else {
        let d = b.drop_last();
        let n = b.len() - 1;
        assert(sorted_labels(d)) by {
            assert forall|i: int, j: int| #![trigger d[i], d[j]] 0 <= i < j < d.len() implies label_lt(d[i].0, d[j].0) by {
                assert(b[i] == d[i] && b[j] == d[j]);
            }
        }
        assert(!has_key(d, k)) by {
            if has_key(d, k) {
                let i = index_of(d, k);
                assert(b[i].0 == k);
            }
        }
        lemma_insert_position_exists(d, k);
        let q = insert_position(d, k);
        lemma_label_order(b[n].0, k, k);
        assert(b[n].0 != k);
        if label_lt(b[n].0, k) {
            assert forall|i: int| 0 <= i < b.len() implies label_lt(#[trigger] b[i].0, k) by {
                if i < n {
                    lemma_label_order(b[i].0, b[n].0, k);
                }
            }
            assert(fits_at(b, k, b.len() as int));
        } else {
            assert forall|i: int| 0 <= i < q implies label_lt(#[trigger] b[i].0, k) by {
                assert(b[i] == d[i]);
            }
            assert forall|i: int| q <= i < b.len() implies label_lt(k, #[trigger] b[i].0) by {
                if i < n {
                    assert(b[i] == d[i]);
                }
            }
            assert(fits_at(b, k, q));
        }
    }
}

proof fn lemma_fits_unique(b: BucketsModel, k: Seq<char>, p1: int, p2: int)
    requires
        fits_at(b, k, p1),
        fits_at(b, k, p2),
    ensures
        p1 == p2,
{
    if p1 < p2 {
        lemma_label_order(b[p1].0, k, k);
    } else if p2 < p1 {
        lemma_label_order(b[p2].0, k, k);
    }
}

proof fn lemma_bucket_total_insert(b: BucketsModel, p: int, x: (Seq<char>, i128))
    requires
        0 <= p <= b.len(),
    ensures
        bucket_total(b.insert(p, x)) == bucket_total(b) + x.1,
    decreases b.len(),
{
    let n = b.insert(p, x);
    if p == b.len() {
        assert(n.drop_last() =~= b);
    } else {
        assert(n.drop_last() =~= b.drop_last().insert(p, x));
        lemma_bucket_total_insert(b.drop_last(), p, x);
    }
}

/// Setting a balance keeps the labels in order, makes the bucket hold the
/// new balance, leaves every other bucket as it was, and changes the sum of
/// all balances by the difference.
pub proof fn lemma_set_balance(b: BucketsModel, k: Seq<char>, v: i128)
    requires
        sorted_labels(b),
    ensures
        sorted_labels(set_balance(b, k, v)),
        lookup(set_balance(b, k, v), k) == Some(v),
        forall|k2: Seq<char>| k2 != k ==> #[trigger] lookup(set_balance(b, k, v), k2) == lookup(b, k2),
        bucket_total(set_balance(b, k, v)) == bucket_total(b) - balance(b, k) + v,
{
    lemma_sorted_distinct(b);
    let n = set_balance(b, k, v);
    if has_key(b, k) {
        let i = index_of(b, k);
        lemma_index_of(b, k, i);
        assert(sorted_labels(n)) by {
            assert forall|x: int, y: int| #![trigger n[x], n[y]] 0 <= x < y < n.len() implies label_lt(n[x].0, n[y].0) by {
                assert(n[x].0 == b[x].0 && n[y].0 == b[y].0);
            }
        }
        lemma_sorted_distinct(n);
        lemma_index_of(n, k, i);
        assert forall|k2: Seq<char>| k2 != k implies #[trigger] lookup(n, k2) == lookup(b, k2) by {
            if has_key(b, k2) {
                let j = index_of(b, k2);
                lemma_index_of(b, k2, j);
                lemma_index_of(n, k2, j);
            } else if has_key(n, k2) {
                let j = index_of(n, k2);
                assert(b[j].0 == k2);
            }
        }
        lemma_bucket_total_update(b, i, (k, v));
    } else {
        lemma_insert_position_exists(b, k);
        let p = insert_position(b, k);
        assert(sorted_labels(n)) by {
            assert forall|x: int, y: int| #![trigger n[x], n[y]] 0 <= x < y < n.len() implies label_lt(n[x].0, n[y].0) by {
                if x < p && y < p {
                    assert(n[x] == b[x] && n[y] == b[y]);
                } else if x < p && y == p {
                    assert(n[x] == b[x]);
                } else if x < p {
                    assert(n[x] == b[x] && n[y] == b[y - 1]);
                } else if x == p {
                    assert(n[y] == b[y - 1]);
                } else {
                    assert(n[x] == b[x - 1] && n[y] == b[y - 1]);
                }
            }
        }
        lemma_sorted_distinct(n);
        lemma_index_of(n, k, p);
        assert forall|k2: Seq<char>| k2 != k implies #[trigger] lookup(n, k2) == lookup(b, k2) by {
            if has_key(b, k2) {
                let j = index_of(b, k2);
                lemma_index_of(b, k2, j);
                if j < p {
                    assert(n[j] == b[j]);
                    lemma_index_of(n, k2, j);
                } else {
                    assert(n[j + 1] == b[j]);
                    lemma_index_of(n, k2, j + 1);
                }
            } else if has_key(n, k2) {
                let j = index_of(n, k2);
                if j < p {
                    assert(b[j].0 == k2);
                } else if j > p {
                    assert(b[j - 1].0 == k2);
                }
            }
        }
        lemma_bucket_total_insert(b, p, (k, v));
    }
}

/// Crediting a bucket raises its balance, and the sum of all balances, by
/// the credited amount, and leaves every other bucket as it was.
pub proof fn law_credit(b: BucketsModel, label: Seq<char>, amount: int)
    requires
        sorted_labels(b),
        credit(b, label, amount) is Some,
    ensures
        sorted_labels(credit(b, label, amount)->0),
        balance(credit(b, label, amount)->0, label) == balance(b, label) + amount,
        forall|other: Seq<char>|
            other != label ==> #[trigger] balance(credit(b, label, amount)->0, other) == balance(b, other),
        bucket_total(credit(b, label, amount)->0) == bucket_total(b) + amount,
{
    let v = (balance(b, label) + amount) as i128;
    let b2 = set_balance(b, label, v);
    lemma_set_balance(b, label, v);
    assert forall|other: Seq<char>| other != label implies #[trigger] balance(b2, other) == balance(b, other) by {
        assert(lookup(b2, other) == lookup(b, other));
    }
}

/// A withdrawal lowers the bucket's balance, and the sum of all balances, by
/// the amount withdrawn, and leaves every other bucket as it was.
pub proof fn law_withdrawal(b: BucketsModel, label: Seq<char>, amount: i128)
    requires
        sorted_labels(b),
        withdrawal(b, label, amount) is Ok,
    ensures
        sorted_labels(withdrawal(b, label, amount)->Ok_0),
        balance(withdrawal(b, label, amount)->Ok_0, label) == balance(b, label) - amount,
        forall|other: Seq<char>|
            other != label ==> #[trigger] balance(withdrawal(b, label, amount)->Ok_0, other) == balance(b, other),
        bucket_total(withdrawal(b, label, amount)->Ok_0) == bucket_total(b) - amount,
{
    assert(credit(b, label, -amount) == Some(withdrawal(b, label, amount)->Ok_0));
    law_credit(b, label, -amount);
}

proof fn lemma_split_prefix(b0: BucketsModel, total: i128, a: AllocationsModel, k: nat)
    requires
        sorted_labels(b0),
        a.len() > 0,
        k <= a.len(),
        split_prefix(b0, total, a, k) is Some,
    ensures
        ({
            let (b, d) = split_prefix(b0, total, a, k)->0;
            &&& sorted_labels(b)
            &&& d == if k == a.len() { total as int } else { leading_shares(total as int, a, k as int) }
            &&& bucket_total(b) == bucket_total(b0) + d
            &&& forall|label: Seq<char>|
                #[trigger] balance(b, label) == balance(b0, label) + label_credit(total as int, a, label, k as int)
        }),
    decreases k,
{
    if k > 0 {
        let i = k - 1;
        lemma_split_prefix(b0, total, a, (k - 1) as nat);
        let (b, d) = split_prefix(b0, total, a, (k - 1) as nat)->0;
        let slice = if i == a.len() - 1 { total - d } else { trunc_div(total * a[i].1, 100) };
        assert(slice == slice_amount(total as int, a, i));
        law_credit(b, a[i].0, slice);
        let b2 = credit(b, a[i].0, slice)->0;
        assert(split_prefix(b0, total, a, k) == Some((b2, d + slice)));
        if k < a.len() {
            assert(d + slice == leading_shares(total as int, a, k as int));
        } else {
            assert(d + slice == total);
        }
        assert forall|label: Seq<char>|
            #[trigger] balance(b2, label) == balance(b0, label) + label_credit(total as int, a, label, k as int) by {
            if label == a[i].0 {
            } else {
                assert(balance(b2, label) == balance(b, label));
            }
        }
    }
}

/// Splitting `total` over a non-empty allocation list hands out exactly
/// `total`: the sum of all balances grows by `total`, since the last
/// allocation receives the rounding remainder. Each bucket grows by the
/// slices of the allocations that name it.
pub proof fn law_split_conserves(b0: BucketsModel, total: i128, a: AllocationsModel)
    requires
        sorted_labels(b0),
        a.len() > 0,
        split(b0, total, a) is Some,
    ensures
        sorted_labels(split(b0, total, a)->0),
        bucket_total(split(b0, total, a)->0) == bucket_total(b0) + total,
        forall|label: Seq<char>|
            #[trigger] balance(split(b0, total, a)->0, label) == balance(b0, label) + label_credit(
                total as int,
                a,
                label,
                a.len() as int,
            ),
{
    lemma_split_prefix(b0, total, a, a.len());
}

proof fn lemma_percent_at_most_total(a: AllocationsModel, i: int)
    requires
        0 <= i < a.len(),
    ensures
        a[i].1 <= percent_total(a),
        percent_total(a) >= 0,
    decreases a.len(),
{
    assert(percent_total(a) == percent_total(a.drop_last()) + a.last().1);
    if a.len() == 1 {
        assert(percent_total(a.drop_last()) == 0);
    } else if i < a.len() - 1 {
        assert(a.drop_last()[i] == a[i]);
        lemma_percent_at_most_total(a.drop_last(), i);
    } else {
        lemma_percent_at_most_total(a.drop_last(), 0);
    }
}

proof fn lemma_leading_shares_bound(total: int, a: AllocationsModel, k: int)
    requires
        total >= 0,
        0 <= k <= a.len(),
    ensures
        0 <= 100 * leading_shares(total, a, k) <= total * percent_total(a.take(k)),
    decreases k,
{
    if k > 0 {
        lemma_leading_shares_bound(total, a, k - 1);
        assert(a.take(k).drop_last() =~= a.take(k - 1));
        let p = a[k - 1].1 as int;
        assert(0 <= 100 * share_of(total, p) <= total * p) by (nonlinear_arith)
            requires
                total >= 0,
                p >= 0,
                share_of(total, p) == (total * p) / 100,
        ;
        assert(total * percent_total(a.take(k)) == total * percent_total(a.take(k - 1)) + total * p) by (nonlinear_arith)
            requires
                percent_total(a.take(k)) == percent_total(a.take(k - 1)) + p,
        ;
    }
}

/// When the percentages add up to 100 and the amount is not negative, every
/// allocation receives between 0 and the whole amount.
pub proof fn law_split_shares_in_range(total: int, a: AllocationsModel, i: int)
    requires
        total >= 0,
        percent_total(a) == 100,
        0 <= i < a.len(),
    ensures
        0 <= slice_amount(total, a, i) <= total,
{
    let n = a.len() as int;
    if i == n - 1 {
        lemma_leading_shares_bound(total, a, n - 1);
        assert(a.take(n).drop_last() =~= a.take(n - 1));
        assert(a.take(n) =~= a);
        lemma_percent_at_most_total(a, n - 1);
        let q = percent_total(a.take(n - 1));
        assert(q <= 100);
        assert(total * q <= total * 100) by (nonlinear_arith)
            requires
                total >= 0,
                q <= 100,
        ;
    } else {
        lemma_percent_at_most_total(a, i);
        let p = a[i].1 as int;
        assert(0 <= share_of(total, p) <= total) by (nonlinear_arith)
            requires
                total >= 0,
                0 <= p <= 100,
                share_of(total, p) == (total * p) / 100,
        ;
    }
}

proof fn lemma_label_credit_nonnegative(total: int, a: AllocationsModel, label: Seq<char>, k: int)
    requires
        total >= 0,
        percent_total(a) == 100,
        0 <= k <= a.len(),
    ensures
        label_credit(total, a, label, k) >= 0,
    decreases k,
{
    if k > 0 {
        lemma_label_credit_nonnegative(total, a, label, k - 1);
        law_split_shares_in_range(total, a, k - 1);
    }
}

/// When the percentages add up to 100 and the amount is not negative, a
/// split credits no bucket with a negative amount.
pub proof fn law_split_credits_nonnegative(total: int, a: AllocationsModel, label: Seq<char>)
    requires
        total >= 0,
        percent_total(a) == 100,
    ensures
        label_credit(total, a, label, a.len() as int) >= 0,
{
    lemma_label_credit_nonnegative(total, a, label, a.len() as int);
}

proof fn lemma_label_credit_monotone(total: int, a: AllocationsModel, label: Seq<char>, k1: int, k2: int)
    requires
        total >= 0,
        percent_total(a) == 100,
        0 <= k1 <= k2 <= a.len(),
    ensures
        label_credit(total, a, label, k1) <= label_credit(total, a, label, k2),
    decreases k2 - k1,
{
    if k1 < k2 {
        lemma_label_credit_monotone(total, a, label, k1, k2 - 1);
        law_split_shares_in_range(total, a, k2 - 1);
    }
}

proof fn lemma_split_prefix_succeeds(b0: BucketsModel, total: i128, a: AllocationsModel, k: nat)
    requires
        sorted_labels(b0),
        a.len() > 0,
        k <= a.len(),
        percent_total(a) == 100,
        total >= 0,
        total * 100 <= i128::MAX,
        forall|label: Seq<char>|
            #[trigger] balance(b0, label) + label_credit(total as int, a, label, a.len() as int) <= i128::MAX,
    ensures
        split_prefix(b0, total, a, k) is Some,
    decreases k,
{
    if k > 0 {
        let i = k - 1;
        lemma_split_prefix_succeeds(b0, total, a, (k - 1) as nat);
        lemma_split_prefix(b0, total, a, (k - 1) as nat);
        let (b, d) = split_prefix(b0, total, a, (k - 1) as nat)->0;
        lemma_percent_at_most_total(a, i);
        let p = a[i].1 as int;
        assert(0 <= total * p <= total * 100) by (nonlinear_arith)
            requires
                total >= 0,
                0 <= p <= 100,
        ;
        law_split_shares_in_range(total as int, a, i);
        let slice = if i == a.len() - 1 { total - d } else { trunc_div(total * a[i].1, 100) };
        assert(slice == slice_amount(total as int, a, i));
        let l = a[i].0;
        lemma_label_credit_monotone(total as int, a, l, k as int, a.len() as int);
        assert(balance(b0, l) + label_credit(total as int, a, l, a.len() as int) <= i128::MAX);
        assert(balance(b, l) == balance(b0, l) + label_credit(total as int, a, l, i));
        lemma_label_credit_nonnegative(total as int, a, l, i);
        assert(label_credit(total as int, a, l, k as int) == label_credit(total as int, a, l, i) + slice);
        assert(fits_i128(balance(b, l) + slice));
        if i < a.len() - 1 {
            lemma_leading_shares_bound(total as int, a, k as int);
            lemma_percent_prefix(a, k as int);
            let q = percent_total(a.take(k as int));
            assert(total * q <= total * 100) by (nonlinear_arith)
                requires
                    total >= 0,
                    q <= 100,
            ;
            assert(d + slice == leading_shares(total as int, a, k as int));
        }
    }
}

/// Splitting a non-negative amount over percentages that add up to 100 is
/// refused for no other reason than overflow: it succeeds whenever 100
/// times the amount and every bucket's final balance (its old balance plus
/// its slices) fit in an `i128`.
pub proof fn law_split_succeeds(b0: BucketsModel, total: i128, a: AllocationsModel)
    requires
        sorted_labels(b0),
        a.len() > 0,
        percent_total(a) == 100,
        total >= 0,
        total * 100 <= i128::MAX,
        forall|label: Seq<char>|
            #[trigger] balance(b0, label) + label_credit(total as int, a, label, a.len() as int) <= i128::MAX,
    ensures
        split(b0, total, a) is Some,
{
    lemma_split_prefix_succeeds(b0, total, a, a.len());
}

/// A copy of a bucket list.
pub fn copy_buckets(b: &Vec<(String, i128)>) -> (r: Vec<(String, i128)>)
    ensures
        r.deep_view() == b.deep_view(),
{
    let mut r: Vec<(String, i128)> = Vec::new();
    let mut i: usize = 0;
    while i < b.len()
        invariant
            i <= b.len(),
            r@.len() == i,
            forall|j: int| 0 <= j < i ==> #[trigger] r@[j].0@ == b@[j].0@ && r@[j].1 == b@[j].1,
        decreases b.len() - i,
    {
        r.push((b[i].0.clone(), b[i].1));
        i += 1;
    }
    assert(r.deep_view() =~= b.deep_view());
    r
}

/// A copy of an allocation list.
pub fn copy_allocations(a: &Vec<Allocation>) -> (r: Vec<Allocation>)
    ensures
        r.deep_view() == a.deep_view(),
{
    let mut r: Vec<Allocation> = Vec::new();
    let mut i: usize = 0;
    while i < a.len()
        invariant
            i <= a.len(),
            r@.len() == i,
            forall|j: int| 0 <= j < i ==> #[trigger] r@[j].deep_view() == a@[j].deep_view(),
        decreases a.len() - i,
    {
        r.push(a[i].duplicate());
        i += 1;
    }
    assert(r.deep_view() =~= a.deep_view());
    r
}

/// The balance of bucket `label`.
pub fn bucket_balance(b: &Vec<(String, i128)>, label: &String) -> (r: i128)
    requires
        sorted_labels(b.deep_view()),
    ensures
        r == balance(b.deep_view(), label@),
{
    proof {
        lemma_sorted_distinct(b.deep_view());
    }
    match find_key(b, label) {
        Some(i) => b[i].1,
        None => 0,
    }
}

/// Sets bucket `label` to balance `v`, keeping the labels in order (see
/// `set_balance`).
pub fn set_bucket(b: &mut Vec<(String, i128)>, label: String, v: i128)
    requires
        sorted_labels(old(b).deep_view()),
    ensures
        final(b).deep_view() == set_balance(old(b).deep_view(), label@, v),
        sorted_labels(final(b).deep_view()),
{
    let ghost m = b.deep_view();
    let ghost k = label@;
    proof {
        lemma_sorted_distinct(m);
        lemma_set_balance(m, k, v);
    }
    match find_key(b, &label) {
        Some(i) => {
            b.set(i, (label, v));
            assert(b.deep_view() =~= set_balance(m, k, v));
        },
        None => {
            let mut p: usize = 0;
            let mut searching = true;
            while searching && p < b.len()
                invariant
                    m == b.deep_view(),
                    k == label@,
                    p <= m.len(),
                    forall|i: int| 0 <= i < p ==> label_lt(#[trigger] m[i].0, k),
                    !searching ==> p < m.len() && !label_lt(m[p as int].0, k),
                decreases m.len() - p + if searching { 1int } else { 0int },
            {
                assert(m[p as int].0 == b@[p as int].0@);
                if label_less(&b[p].0, &label) {
                    p += 1;
                } else {
                    searching = false;
                }
            }
            proof {
                assert forall|i: int| p <= i < m.len() implies label_lt(k, #[trigger] m[i].0) by {
                    lemma_label_order(m[p as int].0, k, k);
                    assert(m[p as int].0 != k);
                    lemma_label_order(k, m[p as int].0, m[i].0);
                }
                assert(fits_at(m, k, p as int));
                lemma_insert_position_exists(m, k);
                lemma_fits_unique(m, k, p as int, insert_position(m, k));
            }
            b.insert(p, (label, v));
            assert(b.deep_view() =~= set_balance(m, k, v));
        },
    }
}

/// Whether the labels of `b` are in strictly increasing order.
pub fn labels_sorted(b: &Vec<(String, i128)>) -> (r: bool)
    ensures
        r == sorted_labels(b.deep_view()),
{
    let ghost m = b.deep_view();
    let n = b.len();
    let mut i: usize = 0;
    while i < n
        invariant
            n == b.len(),
            m == b.deep_view(),
            i <= n,
            forall|x: int, y: int| #![trigger m[x], m[y]] 0 <= x < i && x < y < n ==> label_lt(m[x].0, m[y].0),
        decreases n - i,
    {
        let mut j: usize = i + 1;
        while j < n
            invariant
                n == b.len(),
                m == b.deep_view(),
                i < n,
                i + 1 <= j <= n,
                forall|x: int, y: int| #![trigger m[x], m[y]] 0 <= x < i && x < y < n ==> label_lt(m[x].0, m[y].0),
                forall|y: int| i < y < j ==> label_lt(m[i as int].0, #[trigger] m[y].0),
            decreases n - j,
        {
            if !label_less(&b[i].0, &b[j].0) {
                assert(m[i as int].0 == b@[i as int].0@ && m[j as int].0 == b@[j as int].0@);
                assert(!label_lt(m[i as int].0, m[j as int].0));
                return false;
            }
            j += 1;
        }
        i += 1;
    }
    true
}

/// Credits `amount` to bucket `label`; refused, with the list unchanged,
/// when the new balance would not fit in an `i128`.
pub fn credit_bucket(b: &mut Vec<(String, i128)>, label: &String, amount: i128) -> (ok: bool)
    requires
        sorted_labels(old(b).deep_view()),
    ensures
        ok == credit(old(b).deep_view(), label@, amount as int) is Some,
        ok ==> credit(old(b).deep_view(), label@, amount as int) == Some(final(b).deep_view()),
        !ok ==> final(b)@ == old(b)@,
        sorted_labels(final(b).deep_view()),
{
    let current = bucket_balance(b, label);
    match current.checked_add(amount) {
        Some(n) => {
            set_bucket(b, label.clone(), n);
            true
        },
        None => false,
    }
}

/// Withdraws `amount` from bucket `label` (see `withdrawal`); on refusal the
/// list is unchanged.
pub fn withdraw_from(b: &mut Vec<(String, i128)>, label: &String, amount: i128) -> (r: Result<(), LedgerError>)
    requires
        sorted_labels(old(b).deep_view()),
    ensures
        match r {
            Ok(()) => withdrawal(old(b).deep_view(), label@, amount) == Ok::<BucketsModel, LedgerError>(final(b).deep_view()),
            Err(e) => {
                &&& withdrawal(old(b).deep_view(), label@, amount) == Err::<BucketsModel, LedgerError>(e)
                &&& final(b)@ == old(b)@
            },
        },
        sorted_labels(final(b).deep_view()),
{
    let current = bucket_balance(b, label);
    if current < amount {
        return Err(LedgerError::InsufficientBucketBalance);
    }
    match current.checked_sub(amount) {
        Some(n) => {
            set_bucket(b, label.clone(), n);
            Ok(())
        },
        None => Err(LedgerError::ArithmeticOverflow),
    }
}

/// Whether the percentages of `a` add up to exactly 100.
pub fn allocations_sum_to_100(a: &Vec<Allocation>) -> (r: bool)
    ensures
        r == (percent_total(a.deep_view()) == 100),
{
    let ghost m = a.deep_view();
    let mut sum: u64 = 0;
    let mut i: usize = 0;
    while i < a.len()
        invariant
            i <= a.len(),
            m == a.deep_view(),
            sum == percent_total(m.take(i as int)),
            sum <= 100,
        decreases a.len() - i,
    {
        assert(m.take(i + 1).drop_last() =~= m.take(i as int));
        sum = sum + a[i].percent as u64;
        if sum > 100 {
            proof {
                lemma_percent_prefix(m, i + 1);
            }
            return false;
        }
        i += 1;
    }
    assert(m.take(i as int) =~= m);
    sum == 100
}

/// Splits `total` over the allocations `a` (see `split_prefix`), returning
/// the new bucket list, or `None` when an amount would overflow.
pub fn split_into(b: &Vec<(String, i128)>, total: i128, a: &Vec<Allocation>) -> (r: Option<Vec<(String, i128)>>)
    requires
        sorted_labels(b.deep_view()),
    ensures
        match r {
            Some(v) => {
                &&& split(b.deep_view(), total, a.deep_view()) == Some(v.deep_view())
                &&& sorted_labels(v.deep_view())
            },
            None => split(b.deep_view(), total, a.deep_view()) is None,
        },
{
    let ghost b0 = b.deep_view();
    let ghost m = a.deep_view();
    let n = a.len();
    let mut out = copy_buckets(b);
    let mut distributed: i128 = 0;
    let mut i: usize = 0;
    while i < n
        invariant
            n == a.len(),
            m == a.deep_view(),
            b0 == b.deep_view(),
            i <= n,
            split_prefix(b0, total, m, i as nat) == Some((out.deep_view(), distributed as int)),
            sorted_labels(out.deep_view()),
        decreases n - i,
    {
        assert(m[i as int] == (a[i as int].label@, a[i as int].percent));
        assert(((i + 1) as nat - 1) as nat == i as nat);
        let slice: i128;
        if i == n - 1 {
            match total.checked_sub(distributed) {
                Some(s) => slice = s,
                None => {
                    proof {
                        lemma_split_fails(b0, total, m, (i + 1) as nat);
                    }
                    return None;
                },
            }
        } else {
            match total.checked_mul(a[i].percent as i128) {
                Some(p) => slice = p / 100,
                None => {
                    proof {
                        lemma_split_fails(b0, total, m, (i + 1) as nat);
                    }
                    return None;
                },
            }
        }
        if !credit_bucket(&mut out, &a[i].label, slice) {
            proof {
                lemma_split_fails(b0, total, m, (i + 1) as nat);
            }
            return None;
        }
        match distributed.checked_add(slice) {
            Some(d) => distributed = d,
            None => {
                proof {
                    lemma_split_fails(b0, total, m, (i + 1) as nat);
                }
                return None;
            },
        }
        i += 1;
    }
    Some(out)
}

} // verus!
