//! A collection's parameters, set once when it is created, and what can be
//! read of a collection without changing it.

use crate::ledger::{get_total_supply, Ledger};
use crate::store::{owned_by, strictly_ascending};
use crate::token::metadata_view;
use crate::types::{blob_view, text_view, Account, Blob, CollectionMetadata, Metadata, Principal};
use vstd::prelude::*;

verus! {

/// The parameters of a collection.
///
/// `tx_window` and `permitted_drift` are durations on the ledger's clock: a
/// request may be dated up to `tx_window + permitted_drift` before the
/// ledger's time and up to `permitted_drift` after it.
#[derive(Debug, PartialEq, Eq)]
pub struct Config {
    pub name: String,
    pub symbol: String,
    pub royalties: Option<u16>,
    pub minting_authority: Principal,
    pub royalty_recipient: Option<Account>,
    pub description: Option<String>,
    pub logo: Option<Blob>,
    pub supply_cap: Option<u128>,
    pub tx_window: u64,
    pub permitted_drift: u64,
}

/// What a collection is provisioned from, by someone who becomes its
/// minting authority.
#[derive(Debug, PartialEq, Eq)]
pub struct CreateArg {
    pub name: String,
    pub symbol: String,
    pub royalties: Option<u16>,
    pub royalties_recipient: Option<Account>,
    pub description: Option<String>,
    pub logo: Option<Blob>,
    pub supply_cap: Option<u128>,
}

impl Default for Config {
    /// A nameless collection that the anonymous identity mints for, without
    /// a cap and without tolerance on timestamps.
    fn default() -> (r: Config)
        ensures
            r.name@ == Seq::<char>::empty(),
            r.symbol@ == Seq::<char>::empty(),
            r.royalties is None,
            r.minting_authority == Principal::of(seq![4u8]),
            r.royalty_recipient is None,
            r.description is None,
            r.logo is None,
            r.supply_cap is None,
            r.tx_window == 0,
            r.permitted_drift == 0,
    {
        Config {
            name: String::new(),
            symbol: String::new(),
            royalties: None,
            minting_authority: Principal::anonymous(),
            royalty_recipient: None,
            description: None,
            logo: None,
            supply_cap: None,
            tx_window: 0,
            permitted_drift: 0,
        }
    }
}

impl From<(Principal, CreateArg)> for Config {
    fn from(value: (Principal, CreateArg)) -> (r: Config) {
        let (minting_authority, arg) = value;
        Config {
            name: arg.name,
            symbol: arg.symbol,
            royalties: arg.royalties,
            minting_authority,
            royalty_recipient: arg.royalties_recipient,
            description: arg.description,
            logo: arg.logo,
            supply_cap: arg.supply_cap,
            tx_window: 0,
            permitted_drift: 0,
        }
    }
}

impl vstd::std_specs::convert::FromSpecImpl<(Principal, CreateArg)> for Config {
    open spec fn obeys_from_spec() -> bool {
        true
    }

    open spec fn from_spec(value: (Principal, CreateArg)) -> Config {
        Config {
            name: value.1.name,
            symbol: value.1.symbol,
            royalties: value.1.royalties,
            minting_authority: value.0,
            royalty_recipient: value.1.royalties_recipient,
            description: value.1.description,
            logo: value.1.logo,
            supply_cap: value.1.supply_cap,
            tx_window: 0,
            permitted_drift: 0,
        }
    }
}

impl Config {
    pub fn name(&self) -> (r: String)
        ensures
            r@ == self.name@,
    {
        self.name.clone()
    }

    pub fn symbol(&self) -> (r: String)
        ensures
            r@ == self.symbol@,
    {
        self.symbol.clone()
    }

    pub fn royalties(&self) -> (r: Option<u16>)
        ensures
            r == self.royalties,
    {
        self.royalties
    }

    pub fn royalty_recipient(&self) -> (r: Option<Account>)
        ensures
            r == self.royalty_recipient,
    {
        self.royalty_recipient
    }

    pub fn description(&self) -> (r: Option<String>)
        ensures
            text_view(r) == text_view(self.description),
    {
        self.description.clone()
    }

    pub fn image(&self) -> (r: Option<Blob>)
        ensures
            blob_view(r) == blob_view(self.logo),
    {
        self.logo.clone()
    }

    pub fn supply_cap(&self) -> (r: Option<u128>)
        ensures
            r == self.supply_cap,
    {
        self.supply_cap
    }

    /// The collection's parameters together with how many tokens it has.
    pub fn metadata(&self, ledger: &Ledger) -> (r: CollectionMetadata)
        ensures
            r.icrc7_name@ == self.name@,
            r.icrc7_symbol@ == self.symbol@,
            r.icrc7_royalties == self.royalties,
            r.icrc7_royalty_recipient == self.royalty_recipient,
            text_view(r.icrc7_description) == text_view(self.description),
            blob_view(r.icrc7_image) == blob_view(self.logo),
            r.icrc7_total_supply == ledger.total_supply,
            r.icrc7_supply_cap == self.supply_cap,
    {
        CollectionMetadata {
            icrc7_name: self.name.clone(),
            icrc7_symbol: self.symbol.clone(),
            icrc7_royalties: self.royalties,
            icrc7_royalty_recipient: self.royalty_recipient,
            icrc7_description: self.description.clone(),
            icrc7_image: self.logo.clone(),
            icrc7_total_supply: get_total_supply(ledger),
            icrc7_supply_cap: self.supply_cap,
        }
    }

    /// The account that owns the token `id`.
    pub fn owner_of(&self, ledger: &Ledger, id: &u128) -> (r: Account)
        requires
            ledger.wf(),
            ledger@.tokens.contains_key(*id),
        ensures
            r == ledger@.tokens[*id].owner,
    {
        ledger.tokens.owner_of(id)
    }

    /// The ids of the tokens that `account` owns, in ascending order.
    pub fn tokens_of(&self, ledger: &Ledger, account: &Account) -> (r: Vec<u128>)
        requires
            ledger.wf(),
        ensures
            strictly_ascending(r@),
            r@.to_set() == owned_by(ledger@.tokens, *account),
    {
        ledger.tokens.tokens_of(account)
    }

    /// The display metadata of the token `id`.
    pub fn token_metadata(&self, ledger: &Ledger, id: &u128) -> (r: Vec<(String, Metadata)>)
        requires
            ledger.wf(),
            ledger@.tokens.contains_key(*id),
        ensures
            metadata_view(r@) == ledger@.tokens[*id].metadata(),
    {
        ledger.tokens.get(id).token_metadata()
    }

    /// How many tokens `account` owns.
    pub fn balance_of(&self, ledger: &Ledger, account: &Account) -> (r: u128)
        requires
            ledger.wf(),
        ensures
            r == owned_by(ledger@.tokens, *account).len(),
            owned_by(ledger@.tokens, *account).finite(),
    {
        ledger.tokens.balance_of(account)
    }
}

} // verus!
