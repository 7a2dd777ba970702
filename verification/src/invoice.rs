//! The invoice record and its lifecycle state.

use crate::ledger::AccountM;
use crate::ledger::PaymentLedger;
use crate::ledger::ledger_wf;
use crate::ledger::sum_of;
use vstd::prelude::*;

verus! {

/// Where an invoice stands in its lifecycle.
///
/// `Open`: created, cumulative payments still below the total. `Settled`:
/// payments reached the total and the merchant payout fired. `Expired`: the
/// due date passed while still open; collected funds are refundable.
#[derive(Clone, Copy, Debug, PartialEq, Eq, Structural)]
pub enum InvoiceStatus {
    Open,
    Settled,
    Expired,
}

/// An invoice at the model level.
pub ghost struct InvoiceM {
    pub id: Seq<char>,
    pub memo: Option<Seq<char>>,
    pub total: int,
    pub due: int,
    pub merchant: Seq<char>,
    pub status: InvoiceStatus,
    pub ledger: Seq<AccountM>,
    pub collected: int,
}

impl InvoiceM {
    /// Well-formedness of one invoice: a positive total, a well-formed
    /// ledger whose sum is the cached `collected`, and a status that agrees
    /// with how the collected amount compares to the total.
    pub open spec fn wf(self) -> bool {
        &&& self.total > 0
        &&& self.total <= i128::MAX
        &&& ledger_wf(self.ledger)
        &&& self.collected == sum_of(self.ledger)
        &&& self.status == InvoiceStatus::Settled ==> self.collected >= self.total
        &&& self.status != InvoiceStatus::Settled ==> self.collected < self.total
    }
}

/// A request for a fixed total amount, owed by possibly several payers, due
/// by a deadline, payable to one merchant. The `collected` field caches the
/// sum of the payment ledger.
pub struct Invoice {
    /// Unique identifier, assigned by the caller at creation.
    pub id: String,
    /// Optional external correlation token; at most one invoice per memo.
    pub memo: Option<String>,
    /// The positive amount the invoice asks for; immutable after creation.
    pub total_amount: i128,
    /// Payments are accepted only while the clock is at or before this.
    pub due_date: u64,
    /// The identity paid on settlement.
    pub merchant: String,
    /// Where the invoice stands in its lifecycle.
    pub status: InvoiceStatus,
    /// Cumulative amount paid in, by payer.
    pub payments: PaymentLedger,
    /// The sum of all ledger amounts, kept current.
    pub collected: i128,
}

impl View for Invoice {
    type V = InvoiceM;

    open spec fn view(&self) -> InvoiceM {
        InvoiceM {
            id: self.id@,
            memo: match self.memo {
                Some(ref m) => Some(m@),
                None => None,
            },
            total: self.total_amount as int,
            due: self.due_date as int,
            merchant: self.merchant@,
            status: self.status,
            ledger: self.payments@,
            collected: self.collected as int,
        }
    }
}

impl Invoice {
    /// Well-formedness, at the model level.
    pub open spec fn wf(&self) -> bool {
        self@.wf()
    }

    /// Whether the invoice has been settled: cumulative payments reached the
    /// total and the merchant payout fired.
    pub fn is_settled(&self) -> (r: bool)
        ensures
            r == (self@.status == InvoiceStatus::Settled),
    {
        matches!(self.status, InvoiceStatus::Settled)
    }
}

} // verus!
