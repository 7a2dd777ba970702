//! The error taxonomy of the escrow engine.

use vstd::prelude::*;

verus! {

/// Every way a public operation of the engine can fail. Each failure is
/// detected before any state is committed, so an `Err` always leaves the
/// engine exactly as it was.
#[derive(Clone, Copy, Debug, PartialEq, Eq, Structural)]
pub enum EscrowError {
    /// The invoice id, or the memo, is already taken by an existing invoice.
    DuplicateInvoice,
    /// The amount is not strictly positive, or accepting it would overflow
    /// the cumulative sum of payments.
    InvalidAmount,
    /// The due date is not strictly in the future.
    InvalidDueDate,
    /// No invoice with the given id exists.
    InvoiceNotFound,
    /// The invoice has already been settled.
    AlreadySettled,
    /// The invoice's due date has passed, or it has been expired.
    InvoiceExpired,
    /// A value transfer could not be performed.
    TransferFailed,
    /// The caller is not authorized for the operation.
    Unauthorized,
}

impl EscrowError {
    /// A stable symbolic name for the error, for logs and host events.
    pub fn to_symbol(&self) -> (r: &'static str)
        ensures
            r@ == match self {
                EscrowError::DuplicateInvoice => "DuplicateInvoice"@,
                EscrowError::InvalidAmount => "InvalidAmount"@,
                EscrowError::InvalidDueDate => "InvalidDueDate"@,
                EscrowError::InvoiceNotFound => "InvoiceNotFound"@,
                EscrowError::AlreadySettled => "AlreadySettled"@,
                EscrowError::InvoiceExpired => "InvoiceExpired"@,
                EscrowError::TransferFailed => "TransferFailed"@,
                EscrowError::Unauthorized => "Unauthorized"@,
            },
    {
        match self {
            EscrowError::DuplicateInvoice => "DuplicateInvoice",
            EscrowError::InvalidAmount => "InvalidAmount",
            EscrowError::InvalidDueDate => "InvalidDueDate",
            EscrowError::InvoiceNotFound => "InvoiceNotFound",
            EscrowError::AlreadySettled => "AlreadySettled",
            EscrowError::InvoiceExpired => "InvoiceExpired",
            EscrowError::TransferFailed => "TransferFailed",
            EscrowError::Unauthorized => "Unauthorized",
        }
    }
}

} // verus!
