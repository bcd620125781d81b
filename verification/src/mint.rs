//! Minting: the one way a token comes into the ledger.

use crate::config::Config;
use crate::errors::{Fatal, FatalView, MintError};
use crate::ledger::{get_tx_id, increment_total_supply, increment_tx_id, Ledger, LedgerView};
use crate::token::{Token, TokenView};
use crate::types::Principal;
use vstd::prelude::*;

verus! {

impl Config {
    /// Whether one more token would take the supply past the cap.
    pub open spec fn cap_reached(&self, s: LedgerView) -> bool {
        self.supply_cap matches Some(cap) && s.total_supply + 1 > cap
    }

    /// What `mint` answers.
    pub open spec fn mint_result(&self, s: LedgerView, caller: Principal) -> Result<
        u128,
        MintError,
    > {
        if caller != self.minting_authority {
            Err(MintError::Unauthorized { minting_authority: self.minting_authority })
        } else if self.cap_reached(s) {
            Err(MintError::SupplyCapReached)
        } else {
            Ok((s.tx_id + 1) as u128)
        }
    }

    /// The condition that ends a mint without an answer: the minting
    /// authority asks, within the cap, for an id that a token has already.
    pub open spec fn mint_fatal(&self, s: LedgerView, caller: Principal, id: u128) -> Option<
        FatalView,
    > {
        if self.mint_result(s, caller) is Ok && s.tokens.contains_key(id) {
            Some(FatalView::IdExists)
        } else {
            None
        }
    }

    /// The ledger after `mint`: on success it holds the token, free of
    /// approvals, and both counters have advanced by one; else it is as before.
    pub open spec fn mint_state(&self, s: LedgerView, caller: Principal, token: TokenView) -> LedgerView {
        if self.mint_result(s, caller) is Ok {
            LedgerView {
                tokens: s.tokens.insert(token.id, TokenView { approvals: Seq::empty(), ..token }),
                total_supply: (s.total_supply + 1) as u128,
                tx_id: (s.tx_id + 1) as u128,
                ..s
            }
        } else {
            s
        }
    }

    /// Names the fatal condition on which `mint` must not be called, if there
    /// is one.
    pub fn validate_mint(&self, ledger: &Ledger, caller: &Principal, id: u128) -> (r: Option<Fatal>)
        requires
            ledger.wf(),
        ensures
            match r {
                Some(fatal) => self.mint_fatal(ledger@, *caller, id) == Some(fatal@),
                None => self.mint_fatal(ledger@, *caller, id) is None,
            },
    {
        if *caller != self.minting_authority {
            return None;
        }
        if let Some(cap) = self.supply_cap {
            if ledger.total_supply >= cap {
                return None;
            }
        }
        if ledger.tokens.contains_key(&id) {
            Some(Fatal::IdExists)
        } else {
            None
        }
    }

    /// Adds `token` to the ledger for the minting authority and answers the
    /// id of this transaction.
    pub fn mint(&self, ledger: &mut Ledger, caller: &Principal, token: Token) -> (r: Result<
        u128,
        MintError,
    >)
        requires
            old(ledger).wf(),
            old(ledger).tx_id < u128::MAX,
            self.mint_fatal(old(ledger)@, *caller, token.id) is None,
        ensures
            final(ledger).wf(),
            r == self.mint_result(old(ledger)@, *caller),
            final(ledger)@ == self.mint_state(old(ledger)@, *caller, token@),
            r is Ok ==> final(ledger).total_supply == old(ledger).total_supply + 1,
            r is Ok ==> (self.supply_cap matches Some(cap) ==> final(ledger).total_supply <= cap),
            r matches Ok(tx_id) ==> tx_id == old(ledger).tx_id + 1 && final(ledger).tx_id == tx_id,
            r is Err ==> *final(ledger) == *old(ledger),
    {
        if *caller != self.minting_authority {
            return Err(MintError::Unauthorized { minting_authority: self.minting_authority });
        }
        if let Some(cap) = self.supply_cap {
            if ledger.total_supply >= cap {
                return Err(MintError::SupplyCapReached);
            }
        }
        proof {
            ledger.tokens.lemma_wf();
        }
        let mut token = token;
        token.approvals = Vec::new();
        increment_total_supply(ledger);
        ledger.tokens.insert(token);
        increment_tx_id(ledger);
        assert(ledger@ =~= self.mint_state(old(ledger)@, *caller, token@));
        Ok(get_tx_id(ledger))
    }
}

} // verus!
