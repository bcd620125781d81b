//! The ledger's state: the token store, the log of committed transfers and
//! the two counters.

use crate::store::TokenStore;
use crate::token::TokenView;
use crate::types::{blob_view, Account, Blob};
use vstd::prelude::*;

verus! {

/// One committed transfer of one token.
#[derive(Debug, PartialEq, Eq)]
pub struct TransferLog {
    pub id: u128,
    pub at: u64,
    pub memo: Option<Blob>,
    pub from: Account,
    pub to: Account,
}

/// A `TransferLog` as contracts speak of it.
pub struct TransferLogView {
    pub id: u128,
    pub at: u64,
    pub memo: Option<Seq<u8>>,
    pub from: Account,
    pub to: Account,
}

impl View for TransferLog {
    type V = TransferLogView;

    open spec fn view(&self) -> TransferLogView {
        TransferLogView {
            id: self.id,
            at: self.at,
            memo: blob_view(self.memo),
            from: self.from,
            to: self.to,
        }
    }
}

/// What a list of log entries holds.
pub open spec fn log_view(log: Seq<TransferLog>) -> Seq<TransferLogView> {
    log.map_values(|entry: TransferLog| entry@)
}

/// Everything that a call may change.
#[derive(Debug)]
pub struct Ledger {
    pub tokens: TokenStore,
    pub log: Vec<TransferLog>,
    pub tx_id: u128,
    pub total_supply: u128,
}

/// The ledger as contracts speak of it: the tokens by their ids, the log,
/// and the two counters.
#[verifier::ext_equal]
pub struct LedgerView {
    pub tokens: Map<u128, TokenView>,
    pub log: Seq<TransferLogView>,
    pub tx_id: u128,
    pub total_supply: u128,
}

impl LedgerView {
    /// Every token stands under its own id, and the supply counts the tokens.
    pub open spec fn wf(self) -> bool {
        &&& self.tokens.dom().finite()
        &&& forall|id: u128| self.tokens.contains_key(id) ==> (#[trigger] self.tokens[id]).id == id
        &&& self.total_supply == self.tokens.len()
    }
}

impl View for Ledger {
    type V = LedgerView;

    open spec fn view(&self) -> LedgerView {
        LedgerView {
            tokens: self.tokens@,
            log: log_view(self.log@),
            tx_id: self.tx_id,
            total_supply: self.total_supply,
        }
    }
}

impl Ledger {
    /// The ledger's invariant: the store is in order, and the supply counts
    /// its tokens.
    pub open spec fn wf(&self) -> bool {
        &&& self.tokens.wf()
        &&& self.total_supply == self.tokens@.len()
    }

    /// A ledger that keeps its invariant is one that the laws speak of.
    pub proof fn lemma_wf(&self)
        requires
            self.wf(),
        ensures
            self@.wf(),
    {
        self.tokens.lemma_wf();
    }

    /// A ledger without tokens, on which nothing has happened yet.
    pub fn new() -> (r: Ledger)
        ensures
            r.wf(),
            r@ == (LedgerView {
                tokens: Map::<u128, TokenView>::empty(),
                log: Seq::<TransferLogView>::empty(),
                tx_id: 0,
                total_supply: 0,
            }),
    {
        let r = Ledger { tokens: TokenStore::new(), log: Vec::new(), tx_id: 0, total_supply: 0 };
        assert(log_view(r.log@) =~= Seq::<TransferLogView>::empty());
        r
    }

    /// Whether the supply counts the tokens, as every call but a direct write
    /// to the counter leaves it.
    pub fn is_consistent(&self) -> (r: bool)
        requires
            self.tokens.wf(),
        ensures
            r == self.wf(),
    {
        self.tokens.len() as u128 == self.total_supply
    }
}

/// Counts one more transaction.
pub fn increment_tx_id(ledger: &mut Ledger)
    requires
        old(ledger).tx_id < u128::MAX,
    ensures
        final(ledger).tx_id == old(ledger).tx_id + 1,
        final(ledger).tokens == old(ledger).tokens,
        final(ledger).log == old(ledger).log,
        final(ledger).total_supply == old(ledger).total_supply,
{
    ledger.tx_id = ledger.tx_id + 1;
}

/// The id of the last transaction, or 0 before the first.
pub fn get_tx_id(ledger: &Ledger) -> (r: u128)
    ensures
        r == ledger.tx_id,
{
    ledger.tx_id
}

/// Counts one more token.
pub fn increment_total_supply(ledger: &mut Ledger)
    requires
        old(ledger).total_supply < u128::MAX,
    ensures
        final(ledger).total_supply == old(ledger).total_supply + 1,
        final(ledger).tokens == old(ledger).tokens,
        final(ledger).log == old(ledger).log,
        final(ledger).tx_id == old(ledger).tx_id,
{
    ledger.total_supply = ledger.total_supply + 1;
}

/// How many tokens were minted.
pub fn get_total_supply(ledger: &Ledger) -> (r: u128)
    ensures
        r == ledger.total_supply,
{
    ledger.total_supply
}

} // verus!
