//! Setting up a collection.

use crate::config::Config;
use crate::types::{InitArg, Principal};
use vstd::prelude::*;

verus! {

/// The parameters of a collection that `caller` sets up with `arg`: the
/// authority that `arg` names mints for it, or else `caller`. Requests are
/// given no tolerance on their dates.
pub fn init(arg: InitArg, caller: Principal) -> (r: Config)
    ensures
        r == (Config {
            name: arg.name,
            symbol: arg.symbol,
            royalties: arg.royalties,
            minting_authority: match arg.minting_authority {
                Some(authority) => authority,
                None => caller,
            },
            royalty_recipient: arg.royalties_recipient,
            description: arg.description,
            logo: arg.image,
            supply_cap: arg.supply_cap,
            tx_window: 0,
            permitted_drift: 0,
        }),
{
    let minting_authority = match arg.minting_authority {
        None => caller,
        Some(authority) => authority,
    };
    Config {
        name: arg.name,
        symbol: arg.symbol,
        royalties: arg.royalties,
        minting_authority,
        royalty_recipient: arg.royalties_recipient,
        description: arg.description,
        logo: arg.image,
        supply_cap: arg.supply_cap,
        tx_window: 0,
        permitted_drift: 0,
    }
}

} // verus!
