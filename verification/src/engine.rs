//! The escrow state machine: create an invoice, accept payments toward it,
//! detect completion and the payout it owes, expire it once the due date has
//! passed, and refund collected funds after expiry.
//!
//! Every operation is written twice: as a specification-level transition on
//! the model state (a sequence of [`InvoiceM`]) and as an executable method
//! of [`Contract`] whose contract pins the new state and the result to that
//! transition exactly. The laws module proves the global properties over the
//! transitions.

use crate::error::EscrowError;
use crate::invoice::Invoice;
use crate::invoice::InvoiceM;
use crate::invoice::InvoiceStatus;
use crate::ledger::PaymentLedger;
use crate::ledger::amount_for;
use crate::ledger::credit_m;
use crate::ledger::lemma_amount_le_sum;
use crate::ledger::lemma_set_m;
use crate::ledger::sum_of;
use crate::ledger::zero_m;
use vstd::prelude::*;

verus! {

/// What a recorded payment calls for from the hosting layer. The caller has
/// already moved `amount` from the payer into escrow before recording; the
/// fields below are the transfers owed out of escrow afterward.
#[derive(Clone, Copy, Debug, PartialEq, Eq, Structural)]
pub struct PaymentOutcome {
    /// Whether this payment settled the invoice.
    pub settled: bool,
    /// Owed back to this payment's payer: the part of the cumulative sum
    /// above the invoice total. Zero unless this payment settled the invoice.
    pub excess_refund: i128,
    /// Owed to the merchant: exactly the invoice total when this payment
    /// settled the invoice, zero otherwise.
    pub payout: i128,
}

/// [`PaymentOutcome`] at the model level.
pub ghost struct PaymentOutcomeM {
    pub settled: bool,
    pub excess_refund: int,
    pub payout: int,
}

impl View for PaymentOutcome {
    type V = PaymentOutcomeM;

    open spec fn view(&self) -> PaymentOutcomeM {
        PaymentOutcomeM {
            settled: self.settled,
            excess_refund: self.excess_refund as int,
            payout: self.payout as int,
        }
    }
}

/// What a refund request decided. When `refunded` holds, the hosting layer
/// owes the payer a transfer of `amount` out of escrow.
#[derive(Clone, Copy, Debug, PartialEq, Eq, Structural)]
pub struct RefundOutcome {
    /// Whether the invoice was confirmed expired. Holds even when the payer
    /// had nothing to reclaim; `amount` is zero in that case.
    pub refunded: bool,
    /// The payer's recorded cumulative payment, now cleared from the ledger.
    pub amount: i128,
}

/// [`RefundOutcome`] at the model level.
pub ghost struct RefundOutcomeM {
    pub refunded: bool,
    pub amount: int,
}

impl View for RefundOutcome {
    type V = RefundOutcomeM;

    open spec fn view(&self) -> RefundOutcomeM {
        RefundOutcomeM { refunded: self.refunded, amount: self.amount as int }
    }
}

/// Whether an invoice with this id exists.
pub open spec fn has_invoice(s: Seq<InvoiceM>, id: Seq<char>) -> bool {
    exists|i: int| 0 <= i < s.len() && s[i].id == id
}

/// The index of the invoice with this id; meaningful under `has_invoice`
/// and unique ids.
pub open spec fn inv_idx(s: Seq<InvoiceM>, id: Seq<char>) -> int {
    choose|i: int| 0 <= i < s.len() && s[i].id == id
}

/// The invoice with this id.
pub open spec fn invoice_of(s: Seq<InvoiceM>, id: Seq<char>) -> InvoiceM {
    s[inv_idx(s, id)]
}

/// Whether some invoice already carries this memo.
pub open spec fn memo_taken(s: Seq<InvoiceM>, memo: Seq<char>) -> bool {
    exists|i: int| 0 <= i < s.len() && s[i].memo == Some(memo)
}

/// No two invoices share an id.
pub open spec fn ids_unique(s: Seq<InvoiceM>) -> bool {
    forall|i: int, j: int| 0 <= i < j < s.len() ==> s[i].id != s[j].id
}

/// No two invoices share a memo value.
pub open spec fn memos_unique(s: Seq<InvoiceM>) -> bool {
    forall|i: int, j: int|
        0 <= i < j < s.len() && s[i].memo is Some ==> s[i].memo != s[j].memo
}

/// Well-formedness of the whole engine state: each invoice well-formed, ids
/// unique, memos unique.
pub open spec fn state_wf(s: Seq<InvoiceM>) -> bool {
    &&& forall|i: int| 0 <= i < s.len() ==> s[i].wf()
    &&& ids_unique(s)
    &&& memos_unique(s)
}

/// The invoice an accepted creation stores: open, with an empty ledger.
pub open spec fn fresh_invoice(
    id: Seq<char>,
    total: int,
    due: int,
    merchant: Seq<char>,
    memo: Option<Seq<char>>,
) -> InvoiceM {
    InvoiceM {
        id,
        memo,
        total,
        due,
        merchant,
        status: InvoiceStatus::Open,
        ledger: Seq::empty(),
        collected: 0,
    }
}

/// The creation transition. Rejects a taken id or memo, a non-positive
/// total, and a due date not strictly after `now`; otherwise appends a fresh
/// open invoice.
pub open spec fn create_t(
    s: Seq<InvoiceM>,
    id: Seq<char>,
    total: int,
    due: int,
    merchant: Seq<char>,
    memo: Option<Seq<char>>,
    now: int,
) -> (Seq<InvoiceM>, Result<(), EscrowError>) {
    if has_invoice(s, id) {
        (s, Err(EscrowError::DuplicateInvoice))
    } else if total <= 0 {
        (s, Err(EscrowError::InvalidAmount))
    } else if due <= now {
        (s, Err(EscrowError::InvalidDueDate))
    } else if memo is Some && memo_taken(s, memo->0) {
        (s, Err(EscrowError::DuplicateInvoice))
    } else {
        (s.push(fresh_invoice(id, total, due, merchant, memo)), Ok(()))
    }
}

/// The payment transition. On an open, unexpired invoice and a positive,
/// non-overflowing amount: credits the payer's ledger record, and where the
/// new cumulative sum reaches the total, marks the invoice settled and owes
/// the excess back to this payer and the total to the merchant.
pub open spec fn pay_t(
    s: Seq<InvoiceM>,
    id: Seq<char>,
    payer: Seq<char>,
    amount: int,
    now: int,
) -> (Seq<InvoiceM>, Result<PaymentOutcomeM, EscrowError>) {
    if !has_invoice(s, id) {
        (s, Err(EscrowError::InvoiceNotFound))
    } else {
        let inv = invoice_of(s, id);
        if inv.status == InvoiceStatus::Settled {
            (s, Err(EscrowError::AlreadySettled))
        } else if inv.status == InvoiceStatus::Expired || now > inv.due {
            (s, Err(EscrowError::InvoiceExpired))
        } else if amount <= 0 {
            (s, Err(EscrowError::InvalidAmount))
        } else if inv.collected + amount > i128::MAX {
            (s, Err(EscrowError::InvalidAmount))
        } else {
            let collected = inv.collected + amount;
            let settled = collected >= inv.total;
            let inv1 = InvoiceM {
                status: if settled {
                    InvoiceStatus::Settled
                } else {
                    InvoiceStatus::Open
                },
                ledger: credit_m(inv.ledger, payer, amount),
                collected,
                ..inv
            };
            let outcome = PaymentOutcomeM {
                settled,
                excess_refund: if settled {
                    collected - inv.total
                } else {
                    0
                },
                payout: if settled {
                    inv.total
                } else {
                    0
                },
            };
            (s.update(inv_idx(s, id), inv1), Ok(outcome))
        }
    }
}

/// The expiry transition: an open invoice whose due date lies strictly
/// before `now` becomes expired; anything else is left alone.
pub open spec fn expire_t(s: Seq<InvoiceM>, id: Seq<char>, now: int) -> (
    Seq<InvoiceM>,
    Result<bool, EscrowError>,
) {
    if !has_invoice(s, id) {
        (s, Err(EscrowError::InvoiceNotFound))
    } else {
        let inv = invoice_of(s, id);
        if inv.status == InvoiceStatus::Open && now > inv.due {
            (s.update(inv_idx(s, id), InvoiceM { status: InvoiceStatus::Expired, ..inv }), Ok(true))
        } else {
            (s, Ok(false))
        }
    }
}

/// The refund transition: on a confirmed-expired invoice, the payer's
/// recorded amount is cleared and owed back; on any other invoice the
/// request is declined without effect.
pub open spec fn refund_t(s: Seq<InvoiceM>, id: Seq<char>, payer: Seq<char>, now: int) -> (
    Seq<InvoiceM>,
    Result<RefundOutcomeM, EscrowError>,
) {
    if !has_invoice(s, id) {
        (s, Err(EscrowError::InvoiceNotFound))
    } else {
        let inv = invoice_of(s, id);
        if inv.status == InvoiceStatus::Expired && now > inv.due {
            let amt = amount_for(inv.ledger, payer);
            let inv1 = InvoiceM {
                ledger: zero_m(inv.ledger, payer),
                collected: inv.collected - amt,
                ..inv
            };
            (s.update(inv_idx(s, id), inv1), Ok(RefundOutcomeM { refunded: true, amount: amt }))
        } else {
            (s, Ok(RefundOutcomeM { refunded: false, amount: 0 }))
        }
    }
}

/// Where an invoice with `id` stands at index `i` of a unique-id state,
/// `inv_idx` finds exactly that index.
pub proof fn lemma_inv_idx(s: Seq<InvoiceM>, id: Seq<char>, i: int)
    requires
        ids_unique(s),
        0 <= i < s.len(),
        s[i].id == id,
    ensures
        has_invoice(s, id),
        inv_idx(s, id) == i,
        invoice_of(s, id) == s[i],
{
    assert(has_invoice(s, id));
    let j = inv_idx(s, id);
    assert(0 <= j < s.len() && s[j].id == id);
    if j < i {
        assert(s[j].id != s[i].id);
    }
    if i < j {
        assert(s[i].id != s[j].id);
    }
}

/// Updating one invoice in place (same id, same memo) preserves the
/// uniqueness parts of well-formedness.
pub proof fn lemma_update_keeps_unique(s: Seq<InvoiceM>, i: int, inv1: InvoiceM)
    requires
        0 <= i < s.len(),
        inv1.id == s[i].id,
        inv1.memo == s[i].memo,
        ids_unique(s),
        memos_unique(s),
    ensures
        ids_unique(s.update(i, inv1)),
        memos_unique(s.update(i, inv1)),
{
    let t = s.update(i, inv1);
    assert forall|a: int, b: int| 0 <= a < b < t.len() implies t[a].id != t[b].id by {
        assert(s[a].id != s[b].id);
    }
    assert forall|a: int, b: int|
        0 <= a < b < t.len() && t[a].memo is Some implies t[a].memo != t[b].memo by {
        assert(t[a].memo == s[a].memo && t[b].memo == s[b].memo);
    }
}

/// The escrow engine: every invoice it has accepted, each with its payment
/// ledger and lifecycle state. A hosted deployment would keep this state in
/// durable keyed storage; here it is held directly and every change to it
/// is verified.
pub struct Contract {
    invoices: Vec<Invoice>,
}

impl View for Contract {
    type V = Seq<InvoiceM>;

    closed spec fn view(&self) -> Seq<InvoiceM> {
        self.invoices@.map(|i: int, inv: Invoice| inv@)
    }
}

impl Contract {
    /// Well-formedness of the whole engine state.
    pub open spec fn wf(&self) -> bool {
        state_wf(self@)
    }

    /// An engine with no invoices.
    pub fn new() -> (r: Contract)
        ensures
            r@ =~= Seq::<InvoiceM>::empty(),
            r.wf(),
    {
        Contract { invoices: Vec::new() }
    }

    /// The index of the invoice with this id, if it exists.
    fn find_idx(&self, id: &String) -> (r: Option<usize>)
        requires
            ids_unique(self@),
        ensures
            match r {
                Some(i) => {
                    &&& i < self@.len()
                    &&& self@[i as int].id == id@
                    &&& has_invoice(self@, id@)
                    &&& inv_idx(self@, id@) == i
                },
                None => !has_invoice(self@, id@),
            },
    {
        let ghost s0 = self@;
        let n = self.invoices.len();
        for i in 0..n
            invariant
                self@ == s0,
                n == s0.len(),
                ids_unique(s0),
                forall|j: int| 0 <= j < i ==> s0[j].id != id@,
        {
            if self.invoices[i].id == *id {
                proof {
                    lemma_inv_idx(s0, id@, i as int);
                }
                return Some(i);
            }
        }
        None
    }

    /// The index of the invoice carrying this memo, if any does.
    fn find_memo_idx(&self, memo: &String) -> (r: Option<usize>)
        ensures
            match r {
                Some(i) => i < self@.len() && self@[i as int].memo == Some(memo@),
                None => !memo_taken(self@, memo@),
            },
    {
        let ghost s0 = self@;
        let n = self.invoices.len();
        for i in 0..n
            invariant
                self@ == s0,
                n == s0.len(),
                forall|j: int| 0 <= j < i ==> s0[j].memo != Some(memo@),
        {
            if let Some(m) = &self.invoices[i].memo {
                if *m == *memo {
                    return Some(i);
                }
            }
        }
        None
    }

    /// Create an invoice: a caller-chosen fresh id, a positive total, a due
    /// date strictly after `now`, the merchant owed on settlement, and an
    /// optional fresh memo for external correlation. Returns the id back on
    /// success; on failure nothing is stored.
    pub fn create_invoice(
        &mut self,
        invoice_id: String,
        total_amount: i128,
        due_date: u64,
        merchant: String,
        memo: Option<String>,
        now: u64,
    ) -> (r: Result<String, EscrowError>)
        requires
            old(self).wf(),
        ensures
            final(self).wf(),
            final(self)@ == create_t(
                old(self)@,
                invoice_id@,
                total_amount as int,
                due_date as int,
                merchant@,
                memo_view(&memo),
                now as int,
            ).0,
            match r {
                Ok(rid) => {
                    &&& rid@ == invoice_id@
                    &&& create_t(
                        old(self)@,
                        invoice_id@,
                        total_amount as int,
                        due_date as int,
                        merchant@,
                        memo_view(&memo),
                        now as int,
                    ).1 == Ok::<(), EscrowError>(())
                },
                Err(e) => {
                    &&& create_t(
                        old(self)@,
                        invoice_id@,
                        total_amount as int,
                        due_date as int,
                        merchant@,
                        memo_view(&memo),
                        now as int,
                    ).1 == Err::<(), EscrowError>(e)
                    &&& final(self)@ == old(self)@
                },
            },
    {
        let ghost s0 = self@;
        if self.find_idx(&invoice_id).is_some() {
            return Err(EscrowError::DuplicateInvoice);
        }
        if total_amount <= 0 {
            return Err(EscrowError::InvalidAmount);
        }
        if due_date <= now {
            return Err(EscrowError::InvalidDueDate);
        }
        if let Some(m) = &memo {
            if self.find_memo_idx(m).is_some() {
                return Err(EscrowError::DuplicateInvoice);
            }
        }
        let invoice = Invoice {
            id: invoice_id.clone(),
            memo,
            total_amount,
            due_date,
            merchant,
            status: InvoiceStatus::Open,
            payments: PaymentLedger::new(),
            collected: 0,
        };
        let ghost im = invoice@;
        self.invoices.push(invoice);
        proof {
            assert(self@ =~= s0.push(im));
            assert forall|a: int, b: int| 0 <= a < b < self@.len() implies self@[a].id
                != self@[b].id by {
                if b == self@.len() - 1 {
                    assert(!has_invoice(s0, im.id));
                    assert(s0[a].id != im.id);
                }
            }
            assert forall|a: int, b: int|
                0 <= a < b < self@.len() && self@[a].memo is Some implies self@[a].memo
                != self@[b].memo by {
                if b == self@.len() - 1 {
                    if im.memo is Some {
                        assert(!memo_taken(s0, im.memo->0));
                        assert(s0[a].memo != Some(im.memo->0));
                    }
                }
            }
        }
        Ok(invoice_id)
    }

    /// Record a payment of `amount` by `payer` toward an invoice. The caller
    /// has already moved `amount` from the payer into escrow; on failure the
    /// caller owes it straight back, as no state was committed. On success
    /// the returned outcome lists the transfers now owed out of escrow.
    ///
    /// After each accepted payment the ledger sum has grown by exactly
    /// `amount`, and the invoice is settled exactly when the sum has reached
    /// the total. The settling payment owes the merchant exactly the total
    /// and owes its payer exactly the part of the sum above the total.
    pub fn pay_invoice(
        &mut self,
        invoice_id: &String,
        payer: &String,
        amount: i128,
        now: u64,
    ) -> (r: Result<PaymentOutcome, EscrowError>)
        requires
            old(self).wf(),
        ensures
            final(self).wf(),
            final(self)@ == pay_t(old(self)@, invoice_id@, payer@, amount as int, now as int).0,
            match r {
                Ok(o) => pay_t(old(self)@, invoice_id@, payer@, amount as int, now as int).1
                    == Ok::<PaymentOutcomeM, EscrowError>(o@),
                Err(e) => {
                    &&& pay_t(old(self)@, invoice_id@, payer@, amount as int, now as int).1
                        == Err::<PaymentOutcomeM, EscrowError>(e)
                    &&& final(self)@ == old(self)@
                },
            },
            match r {
                Ok(o) => {
                    let before = invoice_of(old(self)@, invoice_id@);
                    let after = invoice_of(final(self)@, invoice_id@);
                    &&& sum_of(after.ledger) == sum_of(before.ledger) + amount
                    &&& amount_for(after.ledger, payer@) == amount_for(before.ledger, payer@)
                        + amount
                    &&& o@.settled == (sum_of(after.ledger) >= before.total)
                    &&& after.status == (if o@.settled {
                        InvoiceStatus::Settled
                    } else {
                        InvoiceStatus::Open
                    })
                    &&& o@.payout == (if o@.settled {
                        before.total
                    } else {
                        0
                    })
                    &&& o@.excess_refund == (if o@.settled {
                        sum_of(after.ledger) - before.total
                    } else {
                        0
                    })
                },
                Err(_) => true,
            },
    {
        let ghost s0 = self@;
        let idx = match self.find_idx(invoice_id) {
            None => {
                return Err(EscrowError::InvoiceNotFound);
            },
            Some(i) => i,
        };
        let ghost im0 = s0[idx as int];
        proof {
            assert(im0.wf());
        }
        match self.invoices[idx].status {
            InvoiceStatus::Settled => {
                return Err(EscrowError::AlreadySettled);
            },
            InvoiceStatus::Expired => {
                return Err(EscrowError::InvoiceExpired);
            },
            InvoiceStatus::Open => {},
        }
        if now > self.invoices[idx].due_date {
            return Err(EscrowError::InvoiceExpired);
        }
        if amount <= 0 {
            return Err(EscrowError::InvalidAmount);
        }
        let collected = self.invoices[idx].collected;
        let total = self.invoices[idx].total_amount;
        if collected > i128::MAX - amount {
            return Err(EscrowError::InvalidAmount);
        }
        let mut inv = self.invoices.remove(idx);
        inv.payments.credit(payer, amount);
        inv.collected = collected + amount;
        let settled = inv.collected >= total;
        let excess = if settled {
            inv.status = InvoiceStatus::Settled;
            inv.collected - total
        } else {
            0
        };
        let payout = if settled {
            total
        } else {
            0
        };
        let ghost im1 = inv@;
        self.invoices.insert(idx, inv);
        proof {
            assert(self@ =~= s0.update(idx as int, im1));
            assert(im1 == pay_t(s0, invoice_id@, payer@, amount as int, now as int).0[idx as int]);
            lemma_update_keeps_unique(s0, idx as int, im1);
            assert forall|i: int| 0 <= i < self@.len() implies self@[i].wf() by {
                if i != idx as int {
                    assert(self@[i] == s0[i]);
                }
            }
            lemma_inv_idx(self@, invoice_id@, idx as int);
        }
        Ok(PaymentOutcome { settled, excess_refund: excess, payout })
    }

    /// Expire an invoice: where it is still open and its due date lies
    /// strictly before `now`, it becomes expired — the one gate that makes
    /// refunds possible — and the call reports `true`. A settled, already
    /// expired, or not yet due invoice is left alone with `false`.
    pub fn expire_invoice(&mut self, invoice_id: &String, now: u64) -> (r: Result<
        bool,
        EscrowError,
    >)
        requires
            old(self).wf(),
        ensures
            final(self).wf(),
            final(self)@ == expire_t(old(self)@, invoice_id@, now as int).0,
            match r {
                Ok(b) => expire_t(old(self)@, invoice_id@, now as int).1 == Ok::<
                    bool,
                    EscrowError,
                >(b),
                Err(e) => {
                    &&& expire_t(old(self)@, invoice_id@, now as int).1 == Err::<
                        bool,
                        EscrowError,
                    >(e)
                    &&& final(self)@ == old(self)@
                },
            },
    {
        let ghost s0 = self@;
        let idx = match self.find_idx(invoice_id) {
            None => {
                return Err(EscrowError::InvoiceNotFound);
            },
            Some(i) => i,
        };
        let is_open = matches!(self.invoices[idx].status, InvoiceStatus::Open);
        if !(is_open && now > self.invoices[idx].due_date) {
            return Ok(false);
        }
        let mut inv = self.invoices.remove(idx);
        inv.status = InvoiceStatus::Expired;
        let ghost im1 = inv@;
        self.invoices.insert(idx, inv);
        proof {
            assert(self@ =~= s0.update(idx as int, im1));
            lemma_update_keeps_unique(s0, idx as int, im1);
            assert forall|i: int| 0 <= i < self@.len() implies self@[i].wf() by {
                if i != idx as int {
                    assert(self@[i] == s0[i]);
                }
            }
        }
        Ok(true)
    }

    /// Refund `payer`'s collected payments on an expired invoice: their
    /// recorded cumulative amount is cleared from the ledger and owed back
    /// to them out of escrow. On an invoice that is not confirmed expired —
    /// settled, still open, or with `now` at or before the due date — the
    /// request is declined and nothing changes.
    pub fn refund_payment(&mut self, invoice_id: &String, payer: &String, now: u64) -> (r: Result<
        RefundOutcome,
        EscrowError,
    >)
        requires
            old(self).wf(),
        ensures
            final(self).wf(),
            final(self)@ == refund_t(old(self)@, invoice_id@, payer@, now as int).0,
            match r {
                Ok(o) => refund_t(old(self)@, invoice_id@, payer@, now as int).1 == Ok::<
                    RefundOutcomeM,
                    EscrowError,
                >(o@),
                Err(e) => {
                    &&& refund_t(old(self)@, invoice_id@, payer@, now as int).1 == Err::<
                        RefundOutcomeM,
                        EscrowError,
                    >(e)
                    &&& final(self)@ == old(self)@
                },
            },
            match r {
                Ok(o) => {
                    let before = invoice_of(old(self)@, invoice_id@);
                    &&& o@.refunded == (before.status == InvoiceStatus::Expired && now > before.due)
                    &&& (before.status == InvoiceStatus::Settled ==> !o@.refunded)
                    &&& (now <= before.due ==> !o@.refunded)
                    &&& (o@.refunded ==> o@.amount == amount_for(before.ledger, payer@)
                        && amount_for(invoice_of(final(self)@, invoice_id@).ledger, payer@) == 0)
                    &&& (!o@.refunded ==> final(self)@ == old(self)@ && o@.amount == 0)
                },
                Err(_) => true,
            },
    {
        let ghost s0 = self@;
        let idx = match self.find_idx(invoice_id) {
            None => {
                return Err(EscrowError::InvoiceNotFound);
            },
            Some(i) => i,
        };
        let ghost im0 = s0[idx as int];
        proof {
            assert(im0.wf());
        }
        let is_expired = matches!(self.invoices[idx].status, InvoiceStatus::Expired);
        if !(is_expired && now > self.invoices[idx].due_date) {
            return Ok(RefundOutcome { refunded: false, amount: 0 });
        }
        let mut inv = self.invoices.remove(idx);
        let amt = inv.payments.amount_of(payer);
        proof {
            lemma_amount_le_sum(im0.ledger, payer@);
        }
        inv.payments.zero_out(payer);
        inv.collected = inv.collected - amt;
        let ghost im1 = inv@;
        self.invoices.insert(idx, inv);
        proof {
            assert(self@ =~= s0.update(idx as int, im1));
            lemma_update_keeps_unique(s0, idx as int, im1);
            assert forall|i: int| 0 <= i < self@.len() implies self@[i].wf() by {
                if i != idx as int {
                    assert(self@[i] == s0[i]);
                }
            }
            lemma_inv_idx(self@, invoice_id@, idx as int);
        }
        Ok(RefundOutcome { refunded: true, amount: amt })
    }

    /// Look an invoice up by id. A pure read.
    pub fn get_invoice(&self, invoice_id: &String) -> (r: Result<&Invoice, EscrowError>)
        requires
            self.wf(),
        ensures
            match r {
                Ok(inv) => has_invoice(self@, invoice_id@) && inv@ == invoice_of(
                    self@,
                    invoice_id@,
                ),
                Err(e) => e == EscrowError::InvoiceNotFound && !has_invoice(self@, invoice_id@),
            },
    {
        match self.find_idx(invoice_id) {
            Some(i) => Ok(&self.invoices[i]),
            None => Err(EscrowError::InvoiceNotFound),
        }
    }

    /// Look an invoice up by its memo. A pure read through the secondary
    /// correlation key.
    pub fn get_invoice_by_memo(&self, memo: &String) -> (r: Option<&Invoice>)
        requires
            self.wf(),
        ensures
            match r {
                Some(inv) => {
                    &&& memo_taken(self@, memo@)
                    &&& inv@.memo == Some(memo@)
                    &&& has_invoice(self@, inv@.id)
                    &&& inv@ == invoice_of(self@, inv@.id)
                },
                None => !memo_taken(self@, memo@),
            },
    {
        match self.find_memo_idx(memo) {
            Some(i) => {
                proof {
                    lemma_inv_idx(self@, self@[i as int].id, i as int);
                }
                Some(&self.invoices[i])
            },
            None => None,
        }
    }

    /// Whether the invoice has been settled. A pure read of the lifecycle
    /// state.
    pub fn verify_payment(&self, invoice_id: &String) -> (r: Result<bool, EscrowError>)
        requires
            self.wf(),
        ensures
            match r {
                Ok(b) => has_invoice(self@, invoice_id@) && b == (invoice_of(
                    self@,
                    invoice_id@,
                ).status == InvoiceStatus::Settled),
                Err(e) => e == EscrowError::InvoiceNotFound && !has_invoice(self@, invoice_id@),
            },
    {
        match self.find_idx(invoice_id) {
            Some(i) => Ok(self.invoices[i].is_settled()),
            None => Err(EscrowError::InvoiceNotFound),
        }
    }

    /// Whether the invoice is past collecting: already expired, or still
    /// open with its due date strictly before `now`. A pure read.
    pub fn invoice_is_expired(&self, invoice_id: &String, now: u64) -> (r: Result<
        bool,
        EscrowError,
    >)
        requires
            self.wf(),
        ensures
            match r {
                Ok(b) => {
                    let inv = invoice_of(self@, invoice_id@);
                    &&& has_invoice(self@, invoice_id@)
                    &&& b == (inv.status == InvoiceStatus::Expired || (inv.status
                        == InvoiceStatus::Open && now > inv.due))
                },
                Err(e) => e == EscrowError::InvoiceNotFound && !has_invoice(self@, invoice_id@),
            },
    {
        match self.find_idx(invoice_id) {
            Some(i) => {
                let expired = matches!(self.invoices[i].status, InvoiceStatus::Expired);
                let open = matches!(self.invoices[i].status, InvoiceStatus::Open);
                Ok(expired || (open && now > self.invoices[i].due_date))
            },
            None => Err(EscrowError::InvoiceNotFound),
        }
    }
}

/// The model value of an optional memo.
pub open spec fn memo_view(memo: &Option<String>) -> Option<Seq<char>> {
    match memo {
        Some(m) => Some(m@),
        None => None,
    }
}

} // verus!
