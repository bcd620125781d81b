//! What a collection answers about itself whatever it holds.

use crate::types::Standard;
use vstd::prelude::*;

verus! {

/// The standards that the ledger implements: ICRC-7, and nothing else.
pub fn icrc7_supported_standards() -> (r: Vec<Standard>)
    ensures
        r@.len() == 1,
        r@[0].name@ == "ICRC-7"@,
        r@[0].url@ == "https://github.com/dfinity/ICRC/ICRCs/ICRC-7"@,
{
    let mut standards: Vec<Standard> = Vec::new();
    standards.push(
        Standard {
            name: "ICRC-7".to_string(),
            url: "https://github.com/dfinity/ICRC/ICRCs/ICRC-7".to_string(),
        },
    );
    standards
}

} // verus!
