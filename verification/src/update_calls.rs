//! The calls that change the ledger, for a host that cannot know beforehand
//! whether a request meets a fatal condition: each checks first and changes
//! the ledger only where there is none.

use crate::approve::approval_answer;
use crate::config::Config;
use crate::errors::{ApprovalError, Fatal, MintError, TransferError};
use crate::ledger::Ledger;
use crate::token::{Token, TokenView};
use crate::transfer::transfer_answer;
use crate::types::{blob_view, ApprovalArgs, MintArgs, Principal, TransferArgs};
use vstd::prelude::*;

verus! {

/// The token that a mint request describes.
pub open spec fn token_of(arg: MintArgs) -> TokenView {
    TokenView {
        id: arg.id,
        owner: arg.to,
        name: arg.name@,
        image: blob_view(arg.image),
        description: Some(arg.description@),
        approvals: Seq::empty(),
    }
}

/// Moves a batch of tokens for `caller` at the ledger time `now`.
///
/// `Err` names the fatal condition that the request meets; the ledger is
/// then as it was. `Ok` holds what `Config::transfer` answers.
pub fn icrc7_transfer(
    config: &Config,
    ledger: &mut Ledger,
    caller: &Principal,
    now: u64,
    arg: TransferArgs,
) -> (r: Result<Result<u128, TransferError>, Fatal>)
    requires
        old(ledger).wf(),
        old(ledger).tx_id < u128::MAX,
    ensures
        final(ledger).wf(),
        match r {
            Err(fatal) => {
                &&& config.transfer_fatal(old(ledger)@, *caller, now, arg@) == Some(fatal@)
                &&& *final(ledger) == *old(ledger)
            },
            Ok(answer) => {
                &&& config.transfer_fatal(old(ledger)@, *caller, now, arg@) is None
                &&& transfer_answer(answer) == config.transfer_result(old(ledger)@, *caller, now, arg@)
                &&& final(ledger)@ == config.transfer_state(old(ledger)@, *caller, now, arg@)
            },
        },
{
    match config.validate_transfer(ledger, caller, now, &arg) {
        Some(fatal) => Err(fatal),
        None => Ok(config.transfer(ledger, caller, now, arg)),
    }
}

/// Approves a spender for tokens of `caller`.
///
/// `Err` names the fatal condition that the request meets; the ledger is
/// then as it was. `Ok` holds what `Config::approve` answers.
pub fn icrc7_approve(config: &Config, ledger: &mut Ledger, caller: &Principal, arg: ApprovalArgs) -> (r:
    Result<Result<u128, ApprovalError>, Fatal>)
    requires
        old(ledger).wf(),
        old(ledger).tx_id < u128::MAX,
    ensures
        final(ledger).wf(),
        match r {
            Err(fatal) => {
                &&& config.approve_fatal(old(ledger)@, *caller, arg@) == Some(fatal@)
                &&& *final(ledger) == *old(ledger)
            },
            Ok(answer) => {
                &&& config.approve_fatal(old(ledger)@, *caller, arg@) is None
                &&& approval_answer(answer) == config.approve_result(old(ledger)@, *caller, arg@)
                &&& final(ledger)@ == config.approve_state(old(ledger)@, *caller, arg@)
            },
        },
{
    match config.validate_approve(ledger, caller, &arg) {
        Some(fatal) => Err(fatal),
        None => Ok(config.approve(ledger, caller, arg)),
    }
}

/// Mints the token that `arg` describes, without approvals, for `caller`.
///
/// `Err` names the fatal condition that the request meets; the ledger is
/// then as it was. `Ok` holds what `Config::mint` answers.
pub fn icrc7_mint(config: &Config, ledger: &mut Ledger, caller: &Principal, arg: MintArgs) -> (r: Result<
    Result<u128, MintError>,
    Fatal,
>)
    requires
        old(ledger).wf(),
        old(ledger).tx_id < u128::MAX,
    ensures
        final(ledger).wf(),
        match r {
            Err(fatal) => {
                &&& config.mint_fatal(old(ledger)@, *caller, arg.id) == Some(fatal@)
                &&& *final(ledger) == *old(ledger)
            },
            Ok(answer) => {
                &&& config.mint_fatal(old(ledger)@, *caller, arg.id) is None
                &&& answer == config.mint_result(old(ledger)@, *caller)
                &&& final(ledger)@ == config.mint_state(old(ledger)@, *caller, token_of(arg))
            },
        },
{
    match config.validate_mint(ledger, caller, arg.id) {
        Some(fatal) => Err(fatal),
        None => {
            let token = Token {
                id: arg.id,
                owner: arg.to,
                name: arg.name,
                image: arg.image,
                description: Some(arg.description),
                approvals: Vec::new(),
            };
            Ok(config.mint(ledger, caller, token))
        },
    }
}

} // verus!
