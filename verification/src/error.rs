//! Why a ledger operation was refused. Each refusal leaves the ledger as it
//! was.

use vstd::prelude::*;

verus! {

#[derive(Debug, Clone, Copy, PartialEq, Eq, Structural)]
pub enum LedgerError {
    /// No invoice has the given id.
    InvoiceNotFound,
    /// The invoice to pay is no longer pending.
    InvoiceNotPending,
    /// Only the invoice's client may pay it.
    NotInvoiceClient,
    /// Only the invoice's worker may cancel it.
    NotYourInvoice,
    /// Only a pending invoice can be cancelled.
    NotCancellable,
    /// The allocation percentages do not add up to 100.
    AllocationsMustSumTo100,
    /// The bucket holds less than the amount to withdraw.
    InsufficientBucketBalance,
    /// A fixed budget must be positive.
    FixedBudgetNotPositive,
    /// A counter or an amount would leave the range of its integer type.
    ArithmeticOverflow,
}

impl LedgerError {
    /// The message with which the contract refuses the call.
    pub fn message(&self) -> (m: &'static str)
        ensures
            *self == LedgerError::InvoiceNotFound ==> m@ == "Invoice not found"@,
            *self == LedgerError::InvoiceNotPending ==> m@ == "Invoice is not pending"@,
            *self == LedgerError::NotInvoiceClient ==> m@ == "Only the client can pay this invoice"@,
            *self == LedgerError::NotYourInvoice ==> m@ == "Not your invoice"@,
            *self == LedgerError::NotCancellable ==> m@ == "Only pending invoices can be cancelled"@,
            *self == LedgerError::AllocationsMustSumTo100 ==> m@ == "Allocations must sum to 100%"@,
            *self == LedgerError::InsufficientBucketBalance ==> m@ == "Insufficient bucket balance"@,
            *self == LedgerError::FixedBudgetNotPositive ==> m@ == "Fixed budget must be greater than 0"@,
            *self == LedgerError::ArithmeticOverflow ==> m@ == "arithmetic overflow"@,
    {
        match self {
            LedgerError::InvoiceNotFound => "Invoice not found",
            LedgerError::InvoiceNotPending => "Invoice is not pending",
            LedgerError::NotInvoiceClient => "Only the client can pay this invoice",
            LedgerError::NotYourInvoice => "Not your invoice",
            LedgerError::NotCancellable => "Only pending invoices can be cancelled",
            LedgerError::AllocationsMustSumTo100 => "Allocations must sum to 100%",
            LedgerError::InsufficientBucketBalance => "Insufficient bucket balance",
            LedgerError::FixedBudgetNotPositive => "Fixed budget must be greater than 0",
            LedgerError::ArithmeticOverflow => "arithmetic overflow",
        }
    }
}

} // verus!
