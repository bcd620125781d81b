//! What a call can answer instead of a transaction id.
//!
//! A recoverable error is handed back to the caller, who may branch on it. A
//! fatal condition ends the call without any change to the ledger: the
//! functions that change the ledger leave such inputs out of their
//! preconditions, and a check beside each of them names the condition.

use crate::types::Principal;
use vstd::prelude::*;

verus! {

/// Why a transfer moved nothing, or not all it was asked to move.
#[derive(Debug, PartialEq, Eq)]
pub enum TransferError {
    Unauthorized { token_ids: Vec<u128> },
    TooOld,
    CreatedInFuture { ledger_time: u64 },
    Duplicate { duplicate_of: u128 },
    TemporaryUnavailable,
    GenericError { error_code: u128, msg: String },
}

/// A `TransferError` as contracts speak of it.
pub enum TransferErrorView {
    Unauthorized { token_ids: Seq<u128> },
    TooOld,
    CreatedInFuture { ledger_time: u64 },
    Duplicate { duplicate_of: u128 },
    TemporaryUnavailable,
    GenericError { error_code: u128, msg: Seq<char> },
}

impl View for TransferError {
    type V = TransferErrorView;

    open spec fn view(&self) -> TransferErrorView {
        match *self {
            TransferError::Unauthorized { token_ids } => TransferErrorView::Unauthorized {
                token_ids: token_ids@,
            },
            TransferError::TooOld => TransferErrorView::TooOld,
            TransferError::CreatedInFuture { ledger_time } => TransferErrorView::CreatedInFuture {
                ledger_time,
            },
            TransferError::Duplicate { duplicate_of } => TransferErrorView::Duplicate {
                duplicate_of,
            },
            TransferError::TemporaryUnavailable => TransferErrorView::TemporaryUnavailable,
            TransferError::GenericError { error_code, msg } => TransferErrorView::GenericError {
                error_code,
                msg: msg@,
            },
        }
    }
}

/// Why an approval was not granted.
#[derive(Debug, PartialEq, Eq)]
pub enum ApprovalError {
    Unauthorized { token_ids: Vec<u128> },
    TooOld,
    TemporaryUnavailable,
    GenericError { error_code: u128, msg: String },
}

/// An `ApprovalError` as contracts speak of it.
pub enum ApprovalErrorView {
    Unauthorized { token_ids: Seq<u128> },
    TooOld,
    TemporaryUnavailable,
    GenericError { error_code: u128, msg: Seq<char> },
}

impl View for ApprovalError {
    type V = ApprovalErrorView;

    open spec fn view(&self) -> ApprovalErrorView {
        match *self {
            ApprovalError::Unauthorized { token_ids } => ApprovalErrorView::Unauthorized {
                token_ids: token_ids@,
            },
            ApprovalError::TooOld => ApprovalErrorView::TooOld,
            ApprovalError::TemporaryUnavailable => ApprovalErrorView::TemporaryUnavailable,
            ApprovalError::GenericError { error_code, msg } => ApprovalErrorView::GenericError {
                error_code,
                msg: msg@,
            },
        }
    }
}

/// Why a token was not minted.
#[derive(Clone, Copy, Debug, PartialEq, Eq)]
pub enum MintError {
    SupplyCapReached,
    Unauthorized { minting_authority: Principal },
}

/// A condition that ends a call at once and leaves the ledger as it was.
#[derive(Debug, PartialEq, Eq)]
pub enum Fatal {
    /// A transfer names no token.
    NoTokenProvided,
    /// The request names ids that no token has; they are listed in the order given.
    InvalidTokenIds { token_ids: Vec<u128> },
    /// A token would go to the account that owns it.
    SelfTransfer,
    /// A token's owner would be approved as its spender.
    SelfApprove,
    /// A token with the id to mint exists.
    IdExists,
    /// An approval names no token and the caller owns none.
    NoTokensAvailable,
}

/// A `Fatal` as contracts speak of it.
pub enum FatalView {
    NoTokenProvided,
    InvalidTokenIds { token_ids: Seq<u128> },
    SelfTransfer,
    SelfApprove,
    IdExists,
    NoTokensAvailable,
}

impl View for Fatal {
    type V = FatalView;

    open spec fn view(&self) -> FatalView {
        match *self {
            Fatal::NoTokenProvided => FatalView::NoTokenProvided,
            Fatal::InvalidTokenIds { token_ids } => FatalView::InvalidTokenIds {
                token_ids: token_ids@,
            },
            Fatal::SelfTransfer => FatalView::SelfTransfer,
            Fatal::SelfApprove => FatalView::SelfApprove,
            Fatal::IdExists => FatalView::IdExists,
            Fatal::NoTokensAvailable => FatalView::NoTokensAvailable,
        }
    }
}

} // verus!
