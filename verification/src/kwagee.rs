//! `Kwagee`: workers invoice clients in USDC. A worker may set a fixed
//! budget: of each payment, the part above the budget goes to a "Savings"
//! bucket, and the budget part is split over the worker's allocation
//! buckets by percentage (the last bucket receiving the rounding remainder),
//! or goes whole to a "Budget" bucket when the worker has set no
//! allocations. Workers withdraw from buckets.
//!
//! Authorisation, the ledger clock and event publication belong to the
//! contract host: the caller checks that the acting address has signed, and
//! hands in the current ledger time.

use vstd::prelude::*;
pub use crate::buckets::Allocation;
pub use crate::error::LedgerError;
pub use crate::invoice::InvoiceStatus;
use crate::buckets::{AllocationsModel, BucketsModel, sorted_labels, fits_i128, law_split_succeeds, allocations_sum_to_100, balance, bucket_total, credit, label_credit, credit_bucket, law_credit, law_split_conserves, law_split_credits_nonnegative, law_withdrawal, split, split_into, withdraw_from, withdrawal, percent_total};
use crate::invoice::{InvoiceBook, InvoiceRecord, InvoicesModel, cancellation, invoice_at, invoices_wf, ids_by_client, ids_by_worker, lemma_ids_unchanged_by_update, lemma_paid_total_update, paid_total, mark_paid, new_invoice, payment_check};
use crate::registry::{assign, distinct_keys, find_key, has_key, keys_distinct, lemma_assign, lemma_index_of, lookup, lookup_or, put};
use crate::tables::{AllocationTable, BucketTable, allocation_table_valid, allocation_table_wf, bucket_table_valid, allocations_for, allocations_of, bucket_table_wf, buckets_for, buckets_of, lemma_allocations_of, lemma_assign_allocations, lemma_assign_buckets, lemma_buckets_of};

verus! {

/// An invoice as `get_invoice` returns it. Addresses are given by their
/// string form; `amount_usdc` is in the token's smallest unit.
#[derive(Clone, Debug)]
pub struct Invoice {
    pub id: u64,
    pub worker: String,
    pub client: String,
    pub amount_usdc: i128,
    pub description: String,
    pub status: InvoiceStatus,
    pub created_at: u64,
    /// 0 if unpaid.
    pub paid_at: u64,
}

/// The invoice as returned for a record of the book.
pub open spec fn invoice_from_record(rec: InvoiceRecord) -> Invoice {
    Invoice {
        id: rec.id,
        worker: rec.worker,
        client: rec.client,
        amount_usdc: rec.amount,
        description: rec.description,
        status: rec.status,
        created_at: rec.created_at,
        paid_at: rec.paid_at,
    }
}

/// The part of a payment of `total` that the budget takes: all of it when
/// no positive fixed budget is set, else at most the fixed budget.
pub open spec fn budget_portion(fixed: i128, total: i128) -> i128 {
    if fixed > 0 {
        if fixed < total {
            fixed
        } else {
            total
        }
    } else {
        total
    }
}

/// Where a payment of `total` goes: what exceeds the budget portion to the
/// "Savings" bucket (when positive); the budget portion split over the
/// allocations `a`, or, when there are none, all of it to the "Budget"
/// bucket. `None` when an amount would overflow.
pub open spec fn payout(b: BucketsModel, fixed: i128, a: AllocationsModel, total: i128) -> Option<BucketsModel> {
    let budget = budget_portion(fixed, total);
    let savings = total - budget;
    let after_savings = if savings > 0 {
        credit(b, "Savings"@, savings)
    } else {
        Some(b)
    };
    match after_savings {
        None => None,
        Some(b1) => if a.len() == 0 {
            credit(b1, "Budget"@, budget as int)
        } else {
            split(b1, budget, a)
        },
    }
}

/// Each worker has at most one fixed budget, and every stored one is
/// positive.
pub open spec fn budget_table_wf(t: Seq<(Seq<char>, i128)>) -> bool {
    &&& distinct_keys(t)
    &&& forall|i: int| 0 <= i < t.len() ==> #[trigger] t[i].1 > 0
}

/// The fixed budget of worker `w` (0 when none was set).
pub open spec fn fixed_budget_of(t: Seq<(Seq<char>, i128)>, w: Seq<char>) -> i128 {
    lookup_or(t, w, 0i128)
}

/// The model of a `Kwagee`.
pub struct KwageeView {
    /// All invoices, invoice `i` (from 0) having id `i + 1`.
    pub invoices: InvoicesModel,
    /// Each worker's allocations.
    pub allocations: AllocationTable,
    /// Each worker's buckets.
    pub buckets: BucketTable,
    /// Each worker's fixed budget.
    pub fixed_budgets: Seq<(Seq<char>, i128)>,
}

impl KwageeView {
    pub open spec fn wf(self) -> bool {
        &&& invoices_wf(self.invoices)
        &&& allocation_table_wf(self.allocations)
        &&& bucket_table_wf(self.buckets)
        &&& budget_table_wf(self.fixed_budgets)
    }

    /// A new pending invoice with the next id (refused when ids are
    /// exhausted); the new state and the id.
    pub open spec fn create_invoice(
        self,
        worker: String,
        client: String,
        amount_usdc: i128,
        description: String,
        now: u64,
    ) -> Result<(Self, u64), LedgerError> {
        if self.invoices.len() >= u64::MAX {
            Err(LedgerError::ArithmeticOverflow)
        } else {
            Ok(
                (
                    KwageeView {
                        invoices: self.invoices.push(
                            new_invoice(self.invoices, worker, client, amount_usdc, description, now),
                        ),
                        ..self
                    },
                    (self.invoices.len() + 1) as u64,
                ),
            )
        }
    }

    /// `client` pays invoice `id` at time `now`: the invoice is marked paid
    /// and its amount is credited to its worker's buckets (see `payout`).
    pub open spec fn pay_invoice(self, client: Seq<char>, id: u64, now: u64) -> Result<Self, LedgerError> {
        match payment_check(self.invoices, client, id) {
            Err(e) => Err(e),
            Ok(inv) => match payout(
                buckets_of(self.buckets, inv.worker@),
                fixed_budget_of(self.fixed_budgets, inv.worker@),
                allocations_of(self.allocations, inv.worker@),
                inv.amount,
            ) {
                None => Err(LedgerError::ArithmeticOverflow),
                Some(b) => Ok(
                    KwageeView {
                        invoices: mark_paid(self.invoices, id, now),
                        buckets: assign(self.buckets, inv.worker@, b),
                        ..self
                    },
                ),
            },
        }
    }

    /// `worker` cancels invoice `id`.
    pub open spec fn cancel_invoice(self, worker: Seq<char>, id: u64) -> Result<Self, LedgerError> {
        match cancellation(self.invoices, worker, id) {
            Ok(s) => Ok(KwageeView { invoices: s, ..self }),
            Err(e) => Err(e),
        }
    }

    /// `worker` replaces their allocations by `a`, which must add up to 100
    /// percent.
    pub open spec fn set_allocations(self, worker: Seq<char>, a: AllocationsModel) -> Result<Self, LedgerError> {
        if percent_total(a) == 100 {
            Ok(KwageeView { allocations: assign(self.allocations, worker, a), ..self })
        } else {
            Err(LedgerError::AllocationsMustSumTo100)
        }
    }

    /// `worker` sets a fixed budget of `amount`, which must be positive.
    pub open spec fn set_fixed_budget(self, worker: Seq<char>, amount: i128) -> Result<Self, LedgerError> {
        if amount > 0 {
            Ok(KwageeView { fixed_budgets: assign(self.fixed_budgets, worker, amount), ..self })
        } else {
            Err(LedgerError::FixedBudgetNotPositive)
        }
    }

    /// `worker` withdraws `amount` from bucket `label`.
    pub open spec fn withdraw_from_bucket(self, worker: Seq<char>, label: Seq<char>, amount: i128) -> Result<Self, LedgerError> {
        match withdrawal(buckets_of(self.buckets, worker), label, amount) {
            Ok(b) => Ok(KwageeView { buckets: assign(self.buckets, worker, b), ..self }),
            Err(e) => Err(e),
        }
    }
}

/// The budget portion and the savings portion make up the whole payment.
/// With a positive fixed budget the budget portion is the smaller of the
/// budget and the payment, so savings are never negative; without one the
/// whole payment is budget.
pub proof fn law_budget_portion(fixed: i128, total: i128)
    ensures
        budget_portion(fixed, total) + (total - budget_portion(fixed, total)) == total,
        fixed > 0 ==> budget_portion(fixed, total) <= fixed,
        fixed > 0 ==> budget_portion(fixed, total) <= total,
        fixed > 0 ==> (budget_portion(fixed, total) == fixed || budget_portion(fixed, total) == total),
        fixed > 0 ==> total - budget_portion(fixed, total) >= 0,
        fixed <= 0 ==> budget_portion(fixed, total) == total,
{
}

/// What bucket `label` receives from a payment of `total`: the savings
/// part if it is the "Savings" bucket, plus its share of the budget part:
/// without allocations, the whole budget part if it is the "Budget" bucket;
/// otherwise the slices of the allocations that name it.
pub open spec fn payout_credit(fixed: i128, a: AllocationsModel, total: i128, label: Seq<char>) -> int {
    let budget = budget_portion(fixed, total);
    let savings = total - budget;
    (if savings > 0 && label == "Savings"@ {
        savings
    } else {
        0
    }) + if a.len() == 0 {
        if label == "Budget"@ {
            budget as int
        } else {
            0
        }
    } else {
        label_credit(budget as int, a, label, a.len() as int)
    }
}

/// A payment is credited in full: the worker's balances grow in total by
/// exactly the amount paid (savings and budget together), with no rounding
/// remainder lost, and each bucket grows by what `payout_credit` assigns to
/// it.
pub proof fn law_payout_conserves(b: BucketsModel, fixed: i128, a: AllocationsModel, total: i128)
    requires
        sorted_labels(b),
        payout(b, fixed, a, total) is Some,
    ensures
        sorted_labels(payout(b, fixed, a, total)->0),
        bucket_total(payout(b, fixed, a, total)->0) == bucket_total(b) + total,
        forall|label: Seq<char>|
            #[trigger] balance(payout(b, fixed, a, total)->0, label) == balance(b, label) + payout_credit(
                fixed,
                a,
                total,
                label,
            ),
{
    let budget = budget_portion(fixed, total);
    let savings = total - budget;
    let b1 = if savings > 0 {
        law_credit(b, "Savings"@, savings);
        credit(b, "Savings"@, savings)->0
    } else {
        b
    };
    assert(bucket_total(b1) == bucket_total(b) + if savings > 0 { savings } else { 0 });
    assert(forall|label: Seq<char>|
        #[trigger] balance(b1, label) == balance(b, label) + if savings > 0 && label == "Savings"@ { savings } else { 0 });
    if a.len() == 0 {
        law_credit(b1, "Budget"@, budget as int);
    } else {
        law_split_conserves(b1, budget, a);
    }
}

/// Creating an invoice gives it the next id; reading that id gives the
/// new pending invoice back, the worker's and the client's invoice lists
/// gain the id at their end, and every other invoice is as it was.
pub proof fn law_create_then_get(
    m: KwageeView,
    worker: String,
    client: String,
    amount_usdc: i128,
    description: String,
    now: u64,
)
    requires
        m.wf(),
        m.create_invoice(worker, client, amount_usdc, description, now) is Ok,
    ensures
        ({
            let (m2, id) = m.create_invoice(worker, client, amount_usdc, description, now)->Ok_0;
            &&& m2.wf()
            &&& id == m.invoices.len() + 1
            &&& invoice_at(m2.invoices, id) == Some(
                InvoiceRecord {
                    id,
                    worker,
                    client,
                    amount: amount_usdc,
                    description,
                    status: InvoiceStatus::Pending,
                    created_at: now,
                    paid_at: 0,
                },
            )
            &&& ids_by_worker(m2.invoices, worker@) == ids_by_worker(m.invoices, worker@).push(id)
            &&& ids_by_client(m2.invoices, client@) == ids_by_client(m.invoices, client@).push(id)
            &&& forall|other: u64| other != id ==> #[trigger] invoice_at(m2.invoices, other) == invoice_at(m.invoices, other)
        }),
{
    let (m2, id) = m.create_invoice(worker, client, amount_usdc, description, now)->Ok_0;
    assert(m2.invoices.drop_last() =~= m.invoices);
}

/// Paying an invoice marks it paid at the payment time, keeps everything
/// else about it, and credits exactly its amount to its worker's buckets;
/// no other worker's buckets, no allocations and no fixed budgets change.
/// Only the invoice's client can pay it, and only while it is pending.
pub proof fn law_pay_invoice(m: KwageeView, client: Seq<char>, id: u64, now: u64)
    requires
        m.wf(),
        m.pay_invoice(client, id, now) is Ok,
    ensures
        ({
            let m2 = m.pay_invoice(client, id, now)->Ok_0;
            let inv = invoice_at(m.invoices, id)->0;
            &&& m2.wf()
            &&& invoice_at(m.invoices, id) is Some
            &&& inv.status == InvoiceStatus::Pending
            &&& inv.client@ == client
            &&& invoice_at(m2.invoices, id) == Some(InvoiceRecord { status: InvoiceStatus::Paid, paid_at: now, ..inv })
            &&& forall|other: u64| other != id ==> #[trigger] invoice_at(m2.invoices, other) == invoice_at(m.invoices, other)
            &&& bucket_total(buckets_of(m2.buckets, inv.worker@)) == bucket_total(buckets_of(m.buckets, inv.worker@)) + inv.amount
            &&& forall|label: Seq<char>| #[trigger] balance(buckets_of(m2.buckets, inv.worker@), label) == balance(
                buckets_of(m.buckets, inv.worker@),
                label,
            ) + payout_credit(
                fixed_budget_of(m.fixed_budgets, inv.worker@),
                allocations_of(m.allocations, inv.worker@),
                inv.amount,
                label,
            )
            &&& forall|w: Seq<char>| w != inv.worker@ ==> #[trigger] buckets_of(m2.buckets, w) == buckets_of(m.buckets, w)
            &&& m2.allocations == m.allocations
            &&& m2.fixed_budgets == m.fixed_budgets
        }),
{
    let m2 = m.pay_invoice(client, id, now)->Ok_0;
    let inv = invoice_at(m.invoices, id)->0;
    let w = inv.worker@;
    let b = buckets_of(m.buckets, w);
    lemma_buckets_of(m.buckets, w);
    let f = fixed_budget_of(m.fixed_budgets, w);
    law_payout_conserves(b, f, allocations_of(m.allocations, w), inv.amount);
    let nb = payout(b, f, allocations_of(m.allocations, w), inv.amount)->0;
    lemma_assign_buckets(m.buckets, w, nb);
    assert(invoices_wf(m2.invoices)) by {
        assert forall|i: int| 0 <= i < m2.invoices.len() implies #[trigger] m2.invoices[i].id == i + 1 by {
            assert(m.invoices[i].id == i + 1);
        }
    }
}

/// A paid or cancelled invoice is settled for good: paying it again is
/// refused as not pending, and its worker cannot cancel it.
pub proof fn law_settled_invoice_is_final(m: KwageeView, id: u64, client: Seq<char>, now: u64)
    requires
        m.wf(),
        invoice_at(m.invoices, id) is Some,
        invoice_at(m.invoices, id)->0.status != InvoiceStatus::Pending,
    ensures
        m.pay_invoice(client, id, now) == Err::<KwageeView, LedgerError>(LedgerError::InvoiceNotPending),
        m.cancel_invoice(invoice_at(m.invoices, id)->0.worker@, id) == Err::<KwageeView, LedgerError>(
            LedgerError::NotCancellable,
        ),
{
}

/// Paying an invoice settles it: a second payment is refused as not
/// pending, and so is a cancellation.
pub proof fn law_pay_then_settled(m: KwageeView, client: Seq<char>, id: u64, now: u64, client2: Seq<char>, now2: u64)
    requires
        m.wf(),
        m.pay_invoice(client, id, now) is Ok,
    ensures
        ({
            let m2 = m.pay_invoice(client, id, now)->Ok_0;
            &&& m2.pay_invoice(client2, id, now2) == Err::<KwageeView, LedgerError>(LedgerError::InvoiceNotPending)
            &&& m2.cancel_invoice(invoice_at(m.invoices, id)->0.worker@, id) == Err::<KwageeView, LedgerError>(
                LedgerError::NotCancellable,
            )
        }),
{
    law_pay_invoice(m, client, id, now);
    let m2 = m.pay_invoice(client, id, now)->Ok_0;
    law_settled_invoice_is_final(m2, id, client2, now2);
}

/// Cancelling an invoice settles it: it can no longer be paid, nor
/// cancelled again; nothing else changes.
pub proof fn law_cancel_then_settled(m: KwageeView, worker: Seq<char>, id: u64, client: Seq<char>, now: u64)
    requires
        m.wf(),
        m.cancel_invoice(worker, id) is Ok,
    ensures
        ({
            let m2 = m.cancel_invoice(worker, id)->Ok_0;
            &&& m2.wf()
            &&& invoice_at(m.invoices, id)->0.worker@ == worker
            &&& invoice_at(m2.invoices, id) == Some(
                InvoiceRecord { status: InvoiceStatus::Cancelled, ..invoice_at(m.invoices, id)->0 },
            )
            &&& m2.pay_invoice(client, id, now) == Err::<KwageeView, LedgerError>(LedgerError::InvoiceNotPending)
            &&& m2.cancel_invoice(worker, id) == Err::<KwageeView, LedgerError>(LedgerError::NotCancellable)
            &&& m2.allocations == m.allocations
            &&& m2.buckets == m.buckets
        }),
{
    let m2 = m.cancel_invoice(worker, id)->Ok_0;
    assert(invoices_wf(m2.invoices)) by {
        assert forall|i: int| 0 <= i < m2.invoices.len() implies #[trigger] m2.invoices[i].id == i + 1 by {
            assert(m.invoices[i].id == i + 1);
        }
    }
    law_settled_invoice_is_final(m2, id, client, now);
}

/// Allocations are accepted exactly when they add up to 100 percent; once
/// set, reading them gives them back, and other workers keep theirs.
pub proof fn law_set_then_get_allocations(m: KwageeView, worker: Seq<char>, a: AllocationsModel)
    requires
        m.wf(),
    ensures
        m.set_allocations(worker, a) is Ok <==> percent_total(a) == 100,
        m.set_allocations(worker, a) is Ok ==> {
            let m2 = m.set_allocations(worker, a)->Ok_0;
            &&& m2.wf()
            &&& allocations_of(m2.allocations, worker) == a
            &&& forall|w: Seq<char>| w != worker ==> #[trigger] allocations_of(m2.allocations, w) == allocations_of(m.allocations, w)
        },
{
    if percent_total(a) == 100 {
        lemma_assign_allocations(m.allocations, worker, a);
    }
}

/// A worker's allocations are either unset or add up to 100 percent.
pub proof fn law_allocations_sum_to_100(m: KwageeView, worker: Seq<char>)
    requires
        m.wf(),
    ensures
        allocations_of(m.allocations, worker).len() == 0 || percent_total(allocations_of(m.allocations, worker)) == 100,
{
    lemma_allocations_of(m.allocations, worker);
}

/// A withdrawal is refused as insufficient exactly when the bucket holds
/// less than the amount, and succeeds exactly when the bucket holds at least
/// the amount and the new balance fits in an `i128`; it then lowers that
/// bucket, and the worker's total, by the amount, and changes nothing else.
pub proof fn law_withdraw(m: KwageeView, worker: Seq<char>, label: Seq<char>, amount: i128)
    requires
        m.wf(),
    ensures
        (m.withdraw_from_bucket(worker, label, amount) == Err::<KwageeView, LedgerError>(
            LedgerError::InsufficientBucketBalance,
        )) <==> balance(buckets_of(m.buckets, worker), label) < amount,
        m.withdraw_from_bucket(worker, label, amount) is Ok <==> (balance(buckets_of(m.buckets, worker), label) >= amount
            && fits_i128(balance(buckets_of(m.buckets, worker), label) - amount)),
        m.withdraw_from_bucket(worker, label, amount) is Ok ==> {
            let m2 = m.withdraw_from_bucket(worker, label, amount)->Ok_0;
            &&& m2.wf()
            &&& balance(buckets_of(m2.buckets, worker), label) == balance(buckets_of(m.buckets, worker), label) - amount
            &&& forall|l: Seq<char>| l != label ==> #[trigger] balance(buckets_of(m2.buckets, worker), l) == balance(
                buckets_of(m.buckets, worker),
                l,
            )
            &&& bucket_total(buckets_of(m2.buckets, worker)) == bucket_total(buckets_of(m.buckets, worker)) - amount
            &&& forall|w: Seq<char>| w != worker ==> #[trigger] buckets_of(m2.buckets, w) == buckets_of(m.buckets, w)
            &&& m2.invoices == m.invoices
        },
{
    let b = buckets_of(m.buckets, worker);
    lemma_buckets_of(m.buckets, worker);
    if m.withdraw_from_bucket(worker, label, amount) is Ok {
        law_withdrawal(b, label, amount);
        lemma_assign_buckets(m.buckets, worker, withdrawal(b, label, amount)->Ok_0);
    }
}

/// A fixed budget is accepted exactly when it is positive; once set,
/// reading it gives it back, and other workers keep theirs. A worker who
/// never set one reads 0.
pub proof fn law_set_then_get_fixed_budget(m: KwageeView, worker: Seq<char>, amount: i128)
    requires
        m.wf(),
    ensures
        m.set_fixed_budget(worker, amount) is Ok <==> amount > 0,
        m.set_fixed_budget(worker, amount) is Ok ==> {
            let m2 = m.set_fixed_budget(worker, amount)->Ok_0;
            &&& m2.wf()
            &&& fixed_budget_of(m2.fixed_budgets, worker) == amount
            &&& forall|w: Seq<char>| w != worker ==> #[trigger] fixed_budget_of(m2.fixed_budgets, w) == fixed_budget_of(m.fixed_budgets, w)
        },
        !has_key(m.fixed_budgets, worker) ==> fixed_budget_of(m.fixed_budgets, worker) == 0,
{
    if amount > 0 {
        let t = m.fixed_budgets;
        lemma_assign(t, worker, amount);
        let t2 = assign(t, worker, amount);
        assert forall|i: int| 0 <= i < t2.len() implies #[trigger] t2[i].1 > 0 by {
            if i < t.len() && t2[i] == t[i] {
            } else {
            }
        }
        assert forall|w: Seq<char>| w != worker implies #[trigger] fixed_budget_of(t2, w) == fixed_budget_of(t, w) by {
            assert(lookup(t2, w) == lookup(t, w));
        }
    }
}

/// Creating an invoice is refused only when the ids are exhausted.
pub proof fn law_create_succeeds(
    m: KwageeView,
    worker: String,
    client: String,
    amount_usdc: i128,
    description: String,
    now: u64,
)
    ensures
        m.create_invoice(worker, client, amount_usdc, description, now) is Ok <==> m.invoices.len() < u64::MAX,
{
}

/// Reading an invoice just created gives back, field for field, what was
/// created: the next id, the given worker, client, amount, description and
/// time, pending and unpaid.
pub proof fn law_created_invoice_read(
    m: KwageeView,
    worker: String,
    client: String,
    amount_usdc: i128,
    description: String,
    now: u64,
)
    requires
        m.wf(),
        m.create_invoice(worker, client, amount_usdc, description, now) is Ok,
    ensures
        ({
            let (m2, id) = m.create_invoice(worker, client, amount_usdc, description, now)->Ok_0;
            let inv = invoice_from_record(invoice_at(m2.invoices, id)->0);
            &&& invoice_at(m2.invoices, id) is Some
            &&& inv.id == id
            &&& id == m.invoices.len() + 1
            &&& inv.worker == worker
            &&& inv.client == client
            &&& inv.amount_usdc == amount_usdc
            &&& inv.description == description
            &&& inv.status == InvoiceStatus::Pending
            &&& inv.created_at == now
            &&& inv.paid_at == 0
        }),
{
    law_create_then_get(m, worker, client, amount_usdc, description, now);
}

/// Paying is refused exactly in these cases, checked in this order: there
/// is no such invoice; it is not pending; the payer is not its client.
pub proof fn law_pay_refusals(m: KwageeView, client: Seq<char>, id: u64, now: u64)
    ensures
        invoice_at(m.invoices, id) is None ==> m.pay_invoice(client, id, now) == Err::<KwageeView, LedgerError>(
            LedgerError::InvoiceNotFound,
        ),
        invoice_at(m.invoices, id) is Some && invoice_at(m.invoices, id)->0.status != InvoiceStatus::Pending
            ==> m.pay_invoice(client, id, now) == Err::<KwageeView, LedgerError>(LedgerError::InvoiceNotPending),
        invoice_at(m.invoices, id) is Some && invoice_at(m.invoices, id)->0.status == InvoiceStatus::Pending
            && invoice_at(m.invoices, id)->0.client@ != client ==> m.pay_invoice(client, id, now) == Err::<
            KwageeView,
            LedgerError,
        >(LedgerError::NotInvoiceClient),
{
}

/// Paying a pending invoice by its own client is refused for no other
/// reason than overflow: with a non-negative amount whose hundredfold fits
/// in an `i128`, it succeeds whenever every bucket's final balance (its old
/// balance plus what `payout_credit` assigns it) fits in an `i128`. This
/// holds with or without a fixed budget, and whatever buckets the worker
/// already has.
pub proof fn law_pay_succeeds(m: KwageeView, client: Seq<char>, id: u64, now: u64)
    requires
        m.wf(),
        invoice_at(m.invoices, id) is Some,
        invoice_at(m.invoices, id)->0.status == InvoiceStatus::Pending,
        invoice_at(m.invoices, id)->0.client@ == client,
        invoice_at(m.invoices, id)->0.amount >= 0,
        invoice_at(m.invoices, id)->0.amount * 100 <= i128::MAX,
        forall|label: Seq<char>|
            #[trigger] balance(buckets_of(m.buckets, invoice_at(m.invoices, id)->0.worker@), label) + payout_credit(
                fixed_budget_of(m.fixed_budgets, invoice_at(m.invoices, id)->0.worker@),
                allocations_of(m.allocations, invoice_at(m.invoices, id)->0.worker@),
                invoice_at(m.invoices, id)->0.amount,
                label,
            ) <= i128::MAX,
    ensures
        m.pay_invoice(client, id, now) is Ok,
{
    let inv = invoice_at(m.invoices, id)->0;
    let w = inv.worker@;
    let total = inv.amount;
    let b = buckets_of(m.buckets, w);
    let a = allocations_of(m.allocations, w);
    let f = fixed_budget_of(m.fixed_budgets, w);
    lemma_buckets_of(m.buckets, w);
    lemma_allocations_of(m.allocations, w);
    law_budget_portion(f, total);
    let budget = budget_portion(f, total);
    let savings = total - budget;
    assert(0 <= budget <= total);
    let b1 = if savings > 0 {
        assert(balance(b, "Savings"@) + payout_credit(f, a, total, "Savings"@) <= i128::MAX);
        if a.len() > 0 {
            law_split_credits_nonnegative(budget as int, a, "Savings"@);
        }
        law_credit(b, "Savings"@, savings);
        credit(b, "Savings"@, savings)->0
    } else {
        b
    };
    assert(forall|label: Seq<char>|
        #[trigger] balance(b1, label) == balance(b, label) + if savings > 0 && label == "Savings"@ { savings } else { 0 });
    if a.len() == 0 {
        assert(balance(b, "Budget"@) + payout_credit(f, a, total, "Budget"@) <= i128::MAX);
        assert(balance(b1, "Budget"@) == balance(b, "Budget"@) + if savings > 0 && "Budget"@ == "Savings"@ { savings } else { 0 });
    } else {
        assert forall|label: Seq<char>|
            #[trigger] balance(b1, label) + label_credit(budget as int, a, label, a.len() as int) <= i128::MAX by {
            assert(balance(b, label) + payout_credit(f, a, total, label) <= i128::MAX);
        }
        assert(budget * 100 <= i128::MAX);
        law_split_succeeds(b1, budget, a);
    }
}

/// Cancelling succeeds exactly when the invoice exists, is the canceller's,
/// and is pending; refusals come in that order. On success the invoice is
/// cancelled with every other field kept, and no other invoice changes.
pub proof fn law_cancel_outcome(m: KwageeView, worker: Seq<char>, id: u64)
    requires
        m.wf(),
    ensures
        m.cancel_invoice(worker, id) is Ok <==> (invoice_at(m.invoices, id) is Some && invoice_at(m.invoices, id)->0.worker@
            == worker && invoice_at(m.invoices, id)->0.status == InvoiceStatus::Pending),
        invoice_at(m.invoices, id) is None ==> m.cancel_invoice(worker, id) == Err::<KwageeView, LedgerError>(
            LedgerError::InvoiceNotFound,
        ),
        invoice_at(m.invoices, id) is Some && invoice_at(m.invoices, id)->0.worker@ != worker ==> m.cancel_invoice(
            worker,
            id,
        ) == Err::<KwageeView, LedgerError>(LedgerError::NotYourInvoice),
        invoice_at(m.invoices, id) is Some && invoice_at(m.invoices, id)->0.worker@ == worker && invoice_at(
            m.invoices,
            id,
        )->0.status != InvoiceStatus::Pending ==> m.cancel_invoice(worker, id) == Err::<KwageeView, LedgerError>(
            LedgerError::NotCancellable,
        ),
        m.cancel_invoice(worker, id) is Ok ==> {
            let m2 = m.cancel_invoice(worker, id)->Ok_0;
            &&& invoice_at(m2.invoices, id) == Some(
                InvoiceRecord { status: InvoiceStatus::Cancelled, ..invoice_at(m.invoices, id)->0 },
            )
            &&& forall|other: u64| other != id ==> #[trigger] invoice_at(m2.invoices, other) == invoice_at(m.invoices, other)
            &&& m2.buckets == m.buckets
            &&& m2.allocations == m.allocations
        },
{
}

/// One state-changing call on the ledger, its arguments given as models.
/// Reading calls change nothing and need no entry.
pub enum KwageeCall {
    CreateInvoice { worker: String, client: String, amount_usdc: i128, description: String, now: u64 },
    PayInvoice { client: Seq<char>, id: u64, now: u64 },
    CancelInvoice { worker: Seq<char>, id: u64 },
    SetAllocations { worker: Seq<char>, allocations: AllocationsModel },
    WithdrawFromBucket { worker: Seq<char>, label: Seq<char>, amount: i128 },
    SetFixedBudget { worker: Seq<char>, amount: i128 },
}

impl KwageeView {
    /// The ledger with no invoices, allocations, buckets or fixed budgets.
    pub open spec fn empty() -> Self {
        KwageeView { invoices: Seq::empty(), allocations: Seq::empty(), buckets: Seq::empty(), fixed_budgets: Seq::empty() }
    }

    /// The state after `call`: its result when it succeeds, the state
    /// unchanged when it is refused.
    pub open spec fn step(self, call: KwageeCall) -> Self {
        match call {
            KwageeCall::CreateInvoice { worker, client, amount_usdc, description, now } => match self.create_invoice(
                worker,
                client,
                amount_usdc,
                description,
                now,
            ) {
                Ok((m, _)) => m,
                Err(_) => self,
            },
            KwageeCall::PayInvoice { client, id, now } => match self.pay_invoice(client, id, now) {
                Ok(m) => m,
                Err(_) => self,
            },
            KwageeCall::CancelInvoice { worker, id } => match self.cancel_invoice(worker, id) {
                Ok(m) => m,
                Err(_) => self,
            },
            KwageeCall::SetAllocations { worker, allocations } => match self.set_allocations(worker, allocations) {
                Ok(m) => m,
                Err(_) => self,
            },
            KwageeCall::WithdrawFromBucket { worker, label, amount } => match self.withdraw_from_bucket(worker, label, amount) {
                Ok(m) => m,
                Err(_) => self,
            },
            KwageeCall::SetFixedBudget { worker, amount } => match self.set_fixed_budget(worker, amount) {
                Ok(m) => m,
                Err(_) => self,
            },
        }
    }

    /// The state after `calls`, in order.
    pub open spec fn run(self, calls: Seq<KwageeCall>) -> Self
        decreases calls.len(),
    {
        if calls.len() == 0 {
            self
        } else {
            self.run(calls.drop_last()).step(calls.last())
        }
    }
}

/// The id of the invoice that `call` creates for worker `w` on state `m`,
/// as a sequence of at most one element.
pub open spec fn created_by(m: KwageeView, call: KwageeCall, w: Seq<char>) -> Seq<u64> {
    match call {
        KwageeCall::CreateInvoice { worker, client, amount_usdc, description, now } => match m.create_invoice(
            worker,
            client,
            amount_usdc,
            description,
            now,
        ) {
            Ok((_, id)) => if worker@ == w {
                seq![id]
            } else {
                Seq::empty()
            },
            Err(_) => Seq::empty(),
        },
        _ => Seq::empty(),
    }
}

/// The ids of the invoices that `calls` create for worker `w`, in order.
pub open spec fn created_ids(m: KwageeView, calls: Seq<KwageeCall>, w: Seq<char>) -> Seq<u64>
    decreases calls.len(),
{
    if calls.len() == 0 {
        Seq::empty()
    } else {
        created_ids(m, calls.drop_last(), w) + created_by(m.run(calls.drop_last()), calls.last(), w)
    }
}

/// The amount that `call` withdraws from worker `w`'s buckets on state `m`.
pub open spec fn withdrawn_by(m: KwageeView, call: KwageeCall, w: Seq<char>) -> int {
    match call {
        KwageeCall::WithdrawFromBucket { worker, label, amount } => if worker == w && m.withdraw_from_bucket(
            worker,
            label,
            amount,
        ) is Ok {
            amount as int
        } else {
            0
        },
        _ => 0,
    }
}

/// The amount that `calls` withdraw from worker `w`'s buckets.
pub open spec fn withdrawn(m: KwageeView, calls: Seq<KwageeCall>, w: Seq<char>) -> int
    decreases calls.len(),
{
    if calls.len() == 0 {
        0
    } else {
        withdrawn(m, calls.drop_last(), w) + withdrawn_by(m.run(calls.drop_last()), calls.last(), w)
    }
}

/// One call keeps the ledger well formed, leaves a settled invoice as it
/// was, adds to each worker's id list only the id it creates for them, and
/// changes each worker's bucket total by what it pays them minus what it
/// withdraws from them.
proof fn lemma_step(m: KwageeView, call: KwageeCall)
    requires
        m.wf(),
    ensures
        m.step(call).wf(),
        forall|id: u64|
            #![trigger invoice_at(m.step(call).invoices, id)]
            invoice_at(m.invoices, id) is Some && invoice_at(m.invoices, id)->0.status != InvoiceStatus::Pending
                ==> invoice_at(m.step(call).invoices, id) == invoice_at(m.invoices, id),
        forall|w: Seq<char>|
            #[trigger] ids_by_worker(m.step(call).invoices, w) == ids_by_worker(m.invoices, w) + created_by(m, call, w),
        forall|w: Seq<char>|
            #[trigger] bucket_total(buckets_of(m.step(call).buckets, w)) == bucket_total(buckets_of(m.buckets, w)) + (
            paid_total(m.step(call).invoices, w) - paid_total(m.invoices, w)) - withdrawn_by(m, call, w),
        forall|w: Seq<char>|
            !sets_allocations_of(call, w) ==> #[trigger] allocations_of(m.step(call).allocations, w) == allocations_of(
                m.allocations,
                w,
            ),
        forall|w: Seq<char>|
            !sets_fixed_budget_of(call, w) ==> #[trigger] fixed_budget_of(m.step(call).fixed_budgets, w)
                == fixed_budget_of(m.fixed_budgets, w),
{
    let m2 = m.step(call);
    match call {
        KwageeCall::CreateInvoice { worker, client, amount_usdc, description, now } => {
            if m.create_invoice(worker, client, amount_usdc, description, now) is Ok {
                law_create_then_get(m, worker, client, amount_usdc, description, now);
                assert(m2.invoices.drop_last() =~= m.invoices);
                assert forall|w: Seq<char>|
                    #[trigger] ids_by_worker(m2.invoices, w) == ids_by_worker(m.invoices, w) + created_by(m, call, w) by {
                    if worker@ == w {
                        assert(ids_by_worker(m.invoices, w).push(m2.invoices.last().id) =~= ids_by_worker(m.invoices, w)
                            + seq![m2.invoices.last().id]);
                    } else {
                        assert(ids_by_worker(m.invoices, w) =~= ids_by_worker(m.invoices, w) + Seq::<u64>::empty());
                    }
                }
            } else {
                assert forall|w: Seq<char>|
                    #[trigger] ids_by_worker(m2.invoices, w) == ids_by_worker(m.invoices, w) + created_by(m, call, w) by {
                    assert(ids_by_worker(m.invoices, w) =~= ids_by_worker(m.invoices, w) + Seq::<u64>::empty());
                }
            }
        },
        KwageeCall::PayInvoice { client, id, now } => {
            if m.pay_invoice(client, id, now) is Ok {
                law_pay_invoice(m, client, id, now);
                let i = id - 1;
                let inv = m.invoices[i];
                lemma_ids_unchanged_by_update(m.invoices, i, m2.invoices[i]);
                assert(m2.invoices =~= m.invoices.update(i, m2.invoices[i]));
                assert forall|w: Seq<char>|
                    #[trigger] ids_by_worker(m2.invoices, w) == ids_by_worker(m.invoices, w) + created_by(m, call, w) by {
                    assert(ids_by_worker(m.invoices, w) =~= ids_by_worker(m.invoices, w) + Seq::<u64>::empty());
                }
                assert forall|w: Seq<char>|
                    #[trigger] bucket_total(buckets_of(m2.buckets, w)) == bucket_total(buckets_of(m.buckets, w)) + (
                    paid_total(m2.invoices, w) - paid_total(m.invoices, w)) - withdrawn_by(m, call, w) by {
                    lemma_paid_total_update(m.invoices, i, m2.invoices[i], w);
                }
            } else {
                assert forall|w: Seq<char>|
                    #[trigger] ids_by_worker(m2.invoices, w) == ids_by_worker(m.invoices, w) + created_by(m, call, w) by {
                    assert(ids_by_worker(m.invoices, w) =~= ids_by_worker(m.invoices, w) + Seq::<u64>::empty());
                }
            }
        },
        KwageeCall::CancelInvoice { worker, id } => {
            if m.cancel_invoice(worker, id) is Ok {
                law_cancel_then_settled(m, worker, id, worker, 0);
                let i = id - 1;
                lemma_ids_unchanged_by_update(m.invoices, i, m2.invoices[i]);
                assert(m2.invoices =~= m.invoices.update(i, m2.invoices[i]));
                assert forall|w: Seq<char>|
                    #[trigger] ids_by_worker(m2.invoices, w) == ids_by_worker(m.invoices, w) + created_by(m, call, w) by {
                    assert(ids_by_worker(m.invoices, w) =~= ids_by_worker(m.invoices, w) + Seq::<u64>::empty());
                }
                assert forall|w: Seq<char>|
                    #[trigger] bucket_total(buckets_of(m2.buckets, w)) == bucket_total(buckets_of(m.buckets, w)) + (
                    paid_total(m2.invoices, w) - paid_total(m.invoices, w)) - withdrawn_by(m, call, w) by {
                    lemma_paid_total_update(m.invoices, i, m2.invoices[i], w);
                }
            } else {
                assert forall|w: Seq<char>|
                    #[trigger] ids_by_worker(m2.invoices, w) == ids_by_worker(m.invoices, w) + created_by(m, call, w) by {
                    assert(ids_by_worker(m.invoices, w) =~= ids_by_worker(m.invoices, w) + Seq::<u64>::empty());
                }
            }
        },
        KwageeCall::SetAllocations { worker, allocations } => {
            law_set_then_get_allocations(m, worker, allocations);
            assert forall|w: Seq<char>|
                #[trigger] ids_by_worker(m2.invoices, w) == ids_by_worker(m.invoices, w) + created_by(m, call, w) by {
                assert(ids_by_worker(m.invoices, w) =~= ids_by_worker(m.invoices, w) + Seq::<u64>::empty());
            }
        },
        KwageeCall::WithdrawFromBucket { worker, label, amount } => {
            law_withdraw(m, worker, label, amount);
            assert forall|w: Seq<char>|
                #[trigger] ids_by_worker(m2.invoices, w) == ids_by_worker(m.invoices, w) + created_by(m, call, w) by {
                assert(ids_by_worker(m.invoices, w) =~= ids_by_worker(m.invoices, w) + Seq::<u64>::empty());
            }
        },
        KwageeCall::SetFixedBudget { worker, amount } => {
            law_set_then_get_fixed_budget(m, worker, amount);
            assert forall|w: Seq<char>|
                #[trigger] ids_by_worker(m2.invoices, w) == ids_by_worker(m.invoices, w) + created_by(m, call, w) by {
                assert(ids_by_worker(m.invoices, w) =~= ids_by_worker(m.invoices, w) + Seq::<u64>::empty());
            }
        },
    }
}

/// Every sequence of calls keeps the ledger well formed.
pub proof fn law_run_wf(m: KwageeView, calls: Seq<KwageeCall>)
    requires
        m.wf(),
    ensures
        m.run(calls).wf(),
    decreases calls.len(),
{
    if calls.len() > 0 {
        law_run_wf(m, calls.drop_last());
        lemma_step(m.run(calls.drop_last()), calls.last());
    }
}

/// A paid or cancelled invoice stays exactly as it is under every later
/// sequence of calls: paying it is always refused as not pending, so its
/// amount is credited at most once, and never after a cancellation; its
/// worker can never cancel it.
pub proof fn law_settled_invoice_stays(m: KwageeView, calls: Seq<KwageeCall>, id: u64, client: Seq<char>, now: u64)
    requires
        m.wf(),
        invoice_at(m.invoices, id) is Some,
        invoice_at(m.invoices, id)->0.status != InvoiceStatus::Pending,
    ensures
        invoice_at(m.run(calls).invoices, id) == invoice_at(m.invoices, id),
        m.run(calls).pay_invoice(client, id, now) == Err::<KwageeView, LedgerError>(LedgerError::InvoiceNotPending),
        m.run(calls).cancel_invoice(invoice_at(m.invoices, id)->0.worker@, id) == Err::<KwageeView, LedgerError>(
            LedgerError::NotCancellable,
        ),
    decreases calls.len(),
{
    if calls.len() > 0 {
        law_settled_invoice_stays(m, calls.drop_last(), id, client, now);
        law_run_wf(m, calls.drop_last());
        lemma_step(m.run(calls.drop_last()), calls.last());
    }
    law_run_wf(m, calls);
    law_settled_invoice_is_final(m.run(calls), id, client, now);
}

/// Over any sequence of calls, a worker's invoice list grows by exactly the
/// ids of the invoices created for that worker, in creation order.
pub proof fn law_worker_ids_history(m: KwageeView, calls: Seq<KwageeCall>, w: Seq<char>)
    requires
        m.wf(),
    ensures
        ids_by_worker(m.run(calls).invoices, w) == ids_by_worker(m.invoices, w) + created_ids(m, calls, w),
    decreases calls.len(),
{
    if calls.len() == 0 {
        assert(ids_by_worker(m.invoices, w) =~= ids_by_worker(m.invoices, w) + Seq::<u64>::empty());
    } else {
        law_worker_ids_history(m, calls.drop_last(), w);
        law_run_wf(m, calls.drop_last());
        lemma_step(m.run(calls.drop_last()), calls.last());
        assert(ids_by_worker(m.invoices, w) + created_ids(m, calls, w) =~= ids_by_worker(m.invoices, w) + created_ids(
            m,
            calls.drop_last(),
            w,
        ) + created_by(m.run(calls.drop_last()), calls.last(), w));
    }
}

/// From a new ledger, a worker's invoice list is exactly the ids of the
/// invoices created for them, in creation order: strictly increasing, each
/// naming an invoice of theirs (paid and cancelled ones included), and
/// empty when none was created.
pub proof fn law_worker_ids_from_empty(calls: Seq<KwageeCall>, w: Seq<char>)
    ensures
        ids_by_worker(KwageeView::empty().run(calls).invoices, w) == created_ids(KwageeView::empty(), calls, w),
        ({
            let s = KwageeView::empty().run(calls).invoices;
            let r = ids_by_worker(s, w);
            &&& forall|i: int, j: int| #![trigger r[i], r[j]] 0 <= i < j < r.len() ==> r[i] < r[j]
            &&& forall|i: int| 0 <= i < r.len() ==> 1 <= #[trigger] r[i] <= s.len() && s[r[i] - 1].worker@ == w
        }),
{
    let e = KwageeView::empty();
    assert(e.wf());
    law_worker_ids_history(e, calls, w);
    assert(created_ids(e, calls, w) =~= Seq::<u64>::empty() + created_ids(e, calls, w));
    law_run_wf(e, calls);
    crate::invoice::law_worker_ids_ascending(e.run(calls).invoices, w);
}

/// Over any sequence of calls, a worker's bucket total changes by what is
/// paid to them (the amounts of their invoices that became paid) minus what
/// they withdraw.
pub proof fn law_bucket_total_history(m: KwageeView, calls: Seq<KwageeCall>, w: Seq<char>)
    requires
        m.wf(),
    ensures
        bucket_total(buckets_of(m.run(calls).buckets, w)) == bucket_total(buckets_of(m.buckets, w)) + (paid_total(
            m.run(calls).invoices,
            w,
        ) - paid_total(m.invoices, w)) - withdrawn(m, calls, w),
    decreases calls.len(),
{
    if calls.len() > 0 {
        law_bucket_total_history(m, calls.drop_last(), w);
        law_run_wf(m, calls.drop_last());
        lemma_step(m.run(calls.drop_last()), calls.last());
    }
}

/// From a new ledger, a worker's bucket total is the sum of their paid
/// invoices minus what they withdrew; a worker with neither has no buckets.
pub proof fn law_bucket_total_from_empty(calls: Seq<KwageeCall>, w: Seq<char>)
    ensures
        bucket_total(buckets_of(KwageeView::empty().run(calls).buckets, w)) == paid_total(
            KwageeView::empty().run(calls).invoices,
            w,
        ) - withdrawn(KwageeView::empty(), calls, w),
{
    let e = KwageeView::empty();
    assert(e.wf());
    law_bucket_total_history(e, calls, w);
    assert(buckets_of(e.buckets, w) =~= Seq::<(Seq<char>, i128)>::empty());
}

/// Paying an invoice of a non-negative amount lowers no bucket of any
/// worker.
pub proof fn law_pay_never_lowers_a_bucket(m: KwageeView, client: Seq<char>, id: u64, now: u64)
    requires
        m.wf(),
        m.pay_invoice(client, id, now) is Ok,
        invoice_at(m.invoices, id)->0.amount >= 0,
    ensures
        forall|w: Seq<char>, label: Seq<char>|
            #[trigger] balance(buckets_of(m.pay_invoice(client, id, now)->Ok_0.buckets, w), label) >= balance(
                buckets_of(m.buckets, w),
                label,
            ),
{
    law_pay_invoice(m, client, id, now);
    let inv = invoice_at(m.invoices, id)->0;
    let a = allocations_of(m.allocations, inv.worker@);
    let f = fixed_budget_of(m.fixed_budgets, inv.worker@);
    lemma_allocations_of(m.allocations, inv.worker@);
    law_budget_portion(f, inv.amount);
    assert(budget_portion(f, inv.amount) >= 0);
    assert forall|w: Seq<char>, label: Seq<char>|
        #[trigger] balance(buckets_of(m.pay_invoice(client, id, now)->Ok_0.buckets, w), label) >= balance(
            buckets_of(m.buckets, w),
            label,
        ) by {
        if w == inv.worker@ && a.len() > 0 {
            law_split_credits_nonnegative(budget_portion(f, inv.amount) as int, a, label);
        }
    }
}

/// Whether `call` sets the allocations of worker `w`.
pub open spec fn sets_allocations_of(call: KwageeCall, w: Seq<char>) -> bool {
    match call {
        KwageeCall::SetAllocations { worker, allocations } => worker == w,
        _ => false,
    }
}

/// Whether `call` sets the fixed budget of worker `w`.
pub open spec fn sets_fixed_budget_of(call: KwageeCall, w: Seq<char>) -> bool {
    match call {
        KwageeCall::SetFixedBudget { worker, amount } => worker == w,
        _ => false,
    }
}

/// A worker's allocations and fixed budget change only by calls that set
/// them.
proof fn lemma_run_keeps_settings(m: KwageeView, calls: Seq<KwageeCall>, w: Seq<char>)
    requires
        m.wf(),
    ensures
        (forall|i: int| 0 <= i < calls.len() ==> !sets_allocations_of(#[trigger] calls[i], w)) ==> allocations_of(
            m.run(calls).allocations,
            w,
        ) == allocations_of(m.allocations, w),
        (forall|i: int| 0 <= i < calls.len() ==> !sets_fixed_budget_of(#[trigger] calls[i], w)) ==> fixed_budget_of(
            m.run(calls).fixed_budgets,
            w,
        ) == fixed_budget_of(m.fixed_budgets, w),
    decreases calls.len(),
{
    if calls.len() > 0 {
        let d = calls.drop_last();
        lemma_run_keeps_settings(m, d, w);
        law_run_wf(m, d);
        lemma_step(m.run(d), calls.last());
        if forall|i: int| 0 <= i < calls.len() ==> !sets_allocations_of(#[trigger] calls[i], w) {
            assert forall|i: int| 0 <= i < d.len() implies !sets_allocations_of(#[trigger] d[i], w) by {
                assert(d[i] == calls[i]);
            }
            assert(!sets_allocations_of(calls[calls.len() - 1], w));
        }
        if forall|i: int| 0 <= i < calls.len() ==> !sets_fixed_budget_of(#[trigger] calls[i], w) {
            assert forall|i: int| 0 <= i < d.len() implies !sets_fixed_budget_of(#[trigger] d[i], w) by {
                assert(d[i] == calls[i]);
            }
            assert(!sets_fixed_budget_of(calls[calls.len() - 1], w));
        }
    }
}

/// Allocations that a worker set stay theirs, whatever other calls follow,
/// until they set new ones; a worker who never set any has none.
pub proof fn law_allocations_until_replaced(m: KwageeView, worker: Seq<char>, a: AllocationsModel, calls: Seq<KwageeCall>)
    requires
        m.wf(),
        m.set_allocations(worker, a) is Ok,
        forall|i: int| 0 <= i < calls.len() ==> !sets_allocations_of(#[trigger] calls[i], worker),
    ensures
        allocations_of(m.set_allocations(worker, a)->Ok_0.run(calls).allocations, worker) == a,
        allocations_of(KwageeView::empty().run(calls).allocations, worker) == Seq::<(Seq<char>, u32)>::empty(),
{
    law_set_then_get_allocations(m, worker, a);
    lemma_run_keeps_settings(m.set_allocations(worker, a)->Ok_0, calls, worker);
    let e = KwageeView::empty();
    assert(e.wf());
    lemma_run_keeps_settings(e, calls, worker);
}

/// A fixed budget that a worker set stays theirs, whatever other calls
/// follow, until they set a new one; it is always positive, and a worker who
/// never set one reads 0.
pub proof fn law_fixed_budget_until_replaced(m: KwageeView, worker: Seq<char>, amount: i128, calls: Seq<KwageeCall>)
    requires
        m.wf(),
        m.set_fixed_budget(worker, amount) is Ok,
        forall|i: int| 0 <= i < calls.len() ==> !sets_fixed_budget_of(#[trigger] calls[i], worker),
    ensures
        fixed_budget_of(m.set_fixed_budget(worker, amount)->Ok_0.run(calls).fixed_budgets, worker) == amount,
        amount > 0,
        fixed_budget_of(KwageeView::empty().run(calls).fixed_budgets, worker) == 0,
{
    law_set_then_get_fixed_budget(m, worker, amount);
    lemma_run_keeps_settings(m.set_fixed_budget(worker, amount)->Ok_0, calls, worker);
    let e = KwageeView::empty();
    assert(e.wf());
    lemma_run_keeps_settings(e, calls, worker);
}

/// The ledger's state.
pub struct Kwagee {
    book: InvoiceBook,
    allocations: Vec<(String, Vec<Allocation>)>,
    buckets: Vec<(String, Vec<(String, i128)>)>,
    fixed_budgets: Vec<(String, i128)>,
}

impl View for Kwagee {
    type V = KwageeView;

    closed spec fn view(&self) -> KwageeView {
        KwageeView {
            invoices: self.book.invoices(),
            allocations: self.allocations.deep_view(),
            buckets: self.buckets.deep_view(),
            fixed_budgets: self.fixed_budgets.deep_view(),
        }
    }
}

impl Kwagee {
    pub closed spec fn wf(&self) -> bool {
        &&& self.book.wf()
        &&& self@.wf()
    }

    /// A well-formed ledger has a well-formed model, so that the laws on
    /// the model apply to it.
    pub proof fn lemma_view_wf(&self)
        requires
            self.wf(),
        ensures
            self@.wf(),
    {
    }

    /// A ledger with no invoices, allocations, buckets or fixed budgets.
    pub fn new() -> (r: Kwagee)
        ensures
            r.wf(),
            r@.invoices == Seq::<InvoiceRecord>::empty(),
            r@.allocations == Seq::<(Seq<char>, AllocationsModel)>::empty(),
            r@.buckets == Seq::<(Seq<char>, BucketsModel)>::empty(),
            r@.fixed_budgets == Seq::<(Seq<char>, i128)>::empty(),
    {
        let r = Kwagee { book: InvoiceBook::new(), allocations: Vec::new(), buckets: Vec::new(), fixed_budgets: Vec::new() };
        assert(r.fixed_budgets.deep_view() =~= Seq::<(Seq<char>, i128)>::empty());
        assert(r.allocations.deep_view() =~= Seq::<(Seq<char>, AllocationsModel)>::empty());
        assert(r.buckets.deep_view() =~= Seq::<(Seq<char>, BucketsModel)>::empty());
        r
    }

    /// The ledger's contents, for storage: the invoices in id order, the
    /// allocation table, the bucket table and the fixed budgets.
    pub fn into_parts(self) -> (r: (Vec<InvoiceRecord>, Vec<(String, Vec<Allocation>)>, Vec<(String, Vec<(String, i128)>)>, Vec<(String, i128)>))
        ensures
            r.0@ == self@.invoices,
            r.1.deep_view() == self@.allocations,
            r.2.deep_view() == self@.buckets,
            r.3.deep_view() == self@.fixed_budgets,
    {
        (self.book.into_records(), self.allocations, self.buckets, self.fixed_budgets)
    }

    /// The ledger with the given contents, when they are consistent: invoices
    /// numbered 1, 2, 3, ... with no payment time while unpaid, one entry per
    /// worker in each table, allocation lists adding up to 100 percent, one
    /// bucket per label, and positive fixed budgets. `None` otherwise.
    pub fn from_parts(
        invoices: Vec<InvoiceRecord>,
        allocations: Vec<(String, Vec<Allocation>)>,
        buckets: Vec<(String, Vec<(String, i128)>)>,
        fixed_budgets: Vec<(String, i128)>,
    ) -> (r: Option<Kwagee>)
        ensures
            r is Some <==> (KwageeView {
                invoices: invoices@,
                allocations: allocations.deep_view(),
                buckets: buckets.deep_view(),
                fixed_budgets: fixed_budgets.deep_view(),
            }).wf(),
            match r {
                Some(ledger) => {
                    &&& ledger.wf()
                    &&& ledger@ == (KwageeView {
                        invoices: invoices@,
                        allocations: allocations.deep_view(),
                        buckets: buckets.deep_view(),
                        fixed_budgets: fixed_budgets.deep_view(),
                    })
                },
                None => true,
            },
    {
        if !allocation_table_valid(&allocations) || !bucket_table_valid(&buckets) {
            return None;
        }
        if !keys_distinct(&fixed_budgets) {
            return None;
        }
        let ghost t = fixed_budgets.deep_view();
        let mut i: usize = 0;
        while i < fixed_budgets.len()
            invariant
                t == fixed_budgets.deep_view(),
                i <= fixed_budgets.len(),
                forall|j: int| 0 <= j < i ==> #[trigger] t[j].1 > 0,
            decreases fixed_budgets.len() - i,
        {
            if fixed_budgets[i].1 <= 0 {
                assert(t[i as int].1 <= 0);
                return None;
            }
            i += 1;
        }
        match InvoiceBook::from_records(invoices) {
            Some(book) => Some(Kwagee { book, allocations, buckets, fixed_budgets }),
            None => None,
        }
    }

    /// Worker creates an invoice for a client; returns its id.
    pub fn create_invoice(
        &mut self,
        worker: String,
        client: String,
        amount_usdc: i128,
        description: String,
        now: u64,
    ) -> (r: Result<u64, LedgerError>)
        requires
            old(self).wf(),
        ensures
            final(self).wf(),
            final(self)@ == old(self)@.step(KwageeCall::CreateInvoice { worker, client, amount_usdc, description, now }),
            match r {
                Ok(id) => old(self)@.create_invoice(worker, client, amount_usdc, description, now)
                    == Ok::<(KwageeView, u64), LedgerError>((final(self)@, id)),
                Err(e) => {
                    &&& old(self)@.create_invoice(worker, client, amount_usdc, description, now)
                        == Err::<(KwageeView, u64), LedgerError>(e)
                    &&& final(self)@ == old(self)@
                },
            },
    {
        self.book.create(worker, client, amount_usdc, description, now)
    }

    /// Mark an invoice as paid and distribute its amount to the worker's
    /// buckets. Called by the client after the transfer is done.
    pub fn pay_invoice(&mut self, client: String, invoice_id: u64, now: u64) -> (r: Result<(), LedgerError>)
        requires
            old(self).wf(),
        ensures
            final(self).wf(),
            final(self)@ == old(self)@.step(KwageeCall::PayInvoice { client: client@, id: invoice_id, now }),
            match r {
                Ok(()) => old(self)@.pay_invoice(client@, invoice_id, now) == Ok::<KwageeView, LedgerError>(final(self)@),
                Err(e) => {
                    &&& old(self)@.pay_invoice(client@, invoice_id, now) == Err::<KwageeView, LedgerError>(e)
                    &&& final(self)@ == old(self)@
                },
            },
    {
        match self.book.check_payment(&client, invoice_id) {
            Err(e) => {
                return Err(e);
            },
            Ok(()) => {},
        }
        let (worker, amount) = match self.book.record(invoice_id) {
            Some(rec) => (rec.worker.clone(), rec.amount),
            None => {
                return Err(LedgerError::InvoiceNotFound);
            },
        };
        let new_buckets = match self.distribute_payment(&worker, amount) {
            Some(b) => b,
            None => {
                return Err(LedgerError::ArithmeticOverflow);
            },
        };
        let ghost old_buckets = self.buckets.deep_view();
        self.book.mark_paid(invoice_id, now);
        proof {
            lemma_assign_buckets(old_buckets, worker@, new_buckets.deep_view());
        }
        put(&mut self.buckets, worker, new_buckets);
        Ok(())
    }

    /// Worker cancels a pending invoice.
    pub fn cancel_invoice(&mut self, worker: String, invoice_id: u64) -> (r: Result<(), LedgerError>)
        requires
            old(self).wf(),
        ensures
            final(self).wf(),
            final(self)@ == old(self)@.step(KwageeCall::CancelInvoice { worker: worker@, id: invoice_id }),
            match r {
                Ok(()) => old(self)@.cancel_invoice(worker@, invoice_id) == Ok::<KwageeView, LedgerError>(final(self)@),
                Err(e) => {
                    &&& old(self)@.cancel_invoice(worker@, invoice_id) == Err::<KwageeView, LedgerError>(e)
                    &&& final(self)@ == old(self)@
                },
            },
    {
        self.book.cancel(&worker, invoice_id)
    }

    /// Get a single invoice by id.
    pub fn get_invoice(&self, invoice_id: u64) -> (r: Result<Invoice, LedgerError>)
        requires
            self.wf(),
        ensures
            match invoice_at(self@.invoices, invoice_id) {
                Some(rec) => r == Ok::<Invoice, LedgerError>(invoice_from_record(rec)),
                None => r == Err::<Invoice, LedgerError>(LedgerError::InvoiceNotFound),
            },
            invoice_at(self@.invoices, invoice_id) is Some ==> ({
                let rec = invoice_at(self@.invoices, invoice_id)->0;
                &&& r is Ok
                &&& r->Ok_0.id == rec.id
                &&& r->Ok_0.worker == rec.worker
                &&& r->Ok_0.client == rec.client
                &&& r->Ok_0.amount_usdc == rec.amount
                &&& r->Ok_0.description == rec.description
                &&& r->Ok_0.status == rec.status
                &&& r->Ok_0.created_at == rec.created_at
                &&& r->Ok_0.paid_at == rec.paid_at
            }),
    {
        match self.book.record(invoice_id) {
            Some(rec) => Ok(
                Invoice {
                    id: rec.id,
                    worker: rec.worker.clone(),
                    client: rec.client.clone(),
                    amount_usdc: rec.amount,
                    description: rec.description.clone(),
                    status: rec.status,
                    created_at: rec.created_at,
                    paid_at: rec.paid_at,
                },
            ),
            None => Err(LedgerError::InvoiceNotFound),
        }
    }

    /// Get all invoice ids of a worker, in creation order.
    pub fn get_worker_invoices(&self, worker: String) -> (r: Vec<u64>)
        requires
            self.wf(),
        ensures
            r@ == ids_by_worker(self@.invoices, worker@),
    {
        self.book.worker_invoice_ids(&worker)
    }

    /// Get all invoice ids addressed to a client, in creation order.
    pub fn get_client_invoices(&self, client: String) -> (r: Vec<u64>)
        requires
            self.wf(),
        ensures
            r@ == ids_by_client(self@.invoices, client@),
    {
        self.book.client_invoice_ids(&client)
    }

    /// Set a worker's fixed budget (must be greater than 0).
    pub fn set_fixed_budget(&mut self, worker: String, amount: i128) -> (r: Result<(), LedgerError>)
        requires
            old(self).wf(),
        ensures
            final(self).wf(),
            final(self)@ == old(self)@.step(KwageeCall::SetFixedBudget { worker: worker@, amount }),
            match r {
                Ok(()) => old(self)@.set_fixed_budget(worker@, amount) == Ok::<KwageeView, LedgerError>(final(self)@),
                Err(e) => {
                    &&& old(self)@.set_fixed_budget(worker@, amount) == Err::<KwageeView, LedgerError>(e)
                    &&& final(self)@ == old(self)@
                },
            },
    {
        if amount <= 0 {
            return Err(LedgerError::FixedBudgetNotPositive);
        }
        let ghost t = self.fixed_budgets.deep_view();
        proof {
            lemma_assign(t, worker@, amount);
        }
        put(&mut self.fixed_budgets, worker, amount);
        proof {
            let t2 = self.fixed_budgets.deep_view();
            assert forall|i: int| 0 <= i < t2.len() implies #[trigger] t2[i].1 > 0 by {
                if i < t.len() && t2[i] == t[i] {
                } else {
                }
            }
        }
        Ok(())
    }

    /// Get a worker's fixed budget (0 when none was set).
    pub fn get_fixed_budget(&self, worker: String) -> (r: i128)
        requires
            self.wf(),
        ensures
            r == fixed_budget_of(self@.fixed_budgets, worker@),
    {
        match find_key(&self.fixed_budgets, &worker) {
            Some(i) => {
                proof {
                    lemma_index_of(self.fixed_budgets.deep_view(), worker@, i as int);
                }
                self.fixed_budgets[i].1
            },
            None => 0,
        }
    }

    /// Set allocation weights for a worker (must sum to 100).
    pub fn set_allocations(&mut self, worker: String, allocations: Vec<Allocation>) -> (r: Result<(), LedgerError>)
        requires
            old(self).wf(),
        ensures
            final(self).wf(),
            final(self)@ == old(self)@.step(KwageeCall::SetAllocations { worker: worker@, allocations: allocations.deep_view() }),
            match r {
                Ok(()) => old(self)@.set_allocations(worker@, allocations.deep_view())
                    == Ok::<KwageeView, LedgerError>(final(self)@),
                Err(e) => {
                    &&& old(self)@.set_allocations(worker@, allocations.deep_view())
                        == Err::<KwageeView, LedgerError>(e)
                    &&& final(self)@ == old(self)@
                },
            },
    {
        if !allocations_sum_to_100(&allocations) {
            return Err(LedgerError::AllocationsMustSumTo100);
        }
        proof {
            lemma_assign_allocations(self.allocations.deep_view(), worker@, allocations.deep_view());
        }
        put(&mut self.allocations, worker, allocations);
        Ok(())
    }

    /// Get a worker's current allocation settings.
    pub fn get_allocations(&self, worker: String) -> (r: Vec<Allocation>)
        requires
            self.wf(),
        ensures
            r.deep_view() == allocations_of(self@.allocations, worker@),
    {
        allocations_for(&self.allocations, &worker)
    }

    /// Get the current balance of each bucket of a worker.
    pub fn get_buckets(&self, worker: String) -> (r: Vec<(String, i128)>)
        requires
            self.wf(),
        ensures
            r.deep_view() == buckets_of(self@.buckets, worker@),
    {
        buckets_for(&self.buckets, &worker)
    }

    /// Worker withdraws from one of their buckets (the transfer itself is
    /// done by the caller).
    pub fn withdraw_from_bucket(&mut self, worker: String, bucket_label: String, amount: i128) -> (r: Result<(), LedgerError>)
        requires
            old(self).wf(),
        ensures
            final(self).wf(),
            final(self)@ == old(self)@.step(KwageeCall::WithdrawFromBucket { worker: worker@, label: bucket_label@, amount }),
            match r {
                Ok(()) => old(self)@.withdraw_from_bucket(worker@, bucket_label@, amount)
                    == Ok::<KwageeView, LedgerError>(final(self)@),
                Err(e) => {
                    &&& old(self)@.withdraw_from_bucket(worker@, bucket_label@, amount)
                        == Err::<KwageeView, LedgerError>(e)
                    &&& final(self)@ == old(self)@
                },
            },
    {
        let mut b = buckets_for(&self.buckets, &worker);
        match withdraw_from(&mut b, &bucket_label, amount) {
            Err(e) => Err(e),
            Ok(()) => {
                proof {
                    lemma_assign_buckets(self.buckets.deep_view(), worker@, b.deep_view());
                }
                put(&mut self.buckets, worker, b);
                Ok(())
            },
        }
    }

    /// The worker's buckets after a payment of `total_amount` (see
    /// `payout`); `None` when an amount would overflow.
    fn distribute_payment(&self, worker: &String, total_amount: i128) -> (r: Option<Vec<(String, i128)>>)
        requires
            self.wf(),
        ensures
            match r {
                Some(b) => {
                    &&& payout(
                        buckets_of(self@.buckets, worker@),
                        fixed_budget_of(self@.fixed_budgets, worker@),
                        allocations_of(self@.allocations, worker@),
                        total_amount,
                    ) == Some(b.deep_view())
                    &&& sorted_labels(b.deep_view())
                },
                None => payout(
                    buckets_of(self@.buckets, worker@),
                    fixed_budget_of(self@.fixed_budgets, worker@),
                    allocations_of(self@.allocations, worker@),
                    total_amount,
                ) is None,
            },
    {
        let fixed_budget = self.get_fixed_budget(worker.clone());
        let mut buckets = buckets_for(&self.buckets, worker);
        let budget_amount = if fixed_budget > 0 {
            if fixed_budget < total_amount {
                fixed_budget
            } else {
                total_amount
            }
        } else {
            total_amount
        };
        let savings_amount = total_amount - budget_amount;
        if savings_amount > 0 {
            let savings_key = "Savings".to_owned();
            if !credit_bucket(&mut buckets, &savings_key, savings_amount) {
                return None;
            }
        }
        let allocations = allocations_for(&self.allocations, worker);
        if allocations.len() == 0 {
            let budget_key = "Budget".to_owned();
            if credit_bucket(&mut buckets, &budget_key, budget_amount) {
                Some(buckets)
            } else {
                None
            }
        } else {
            split_into(&buckets, budget_amount, &allocations)
        }
    }
}

} // verus!
