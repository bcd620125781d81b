use icrc7::config::Config;
use icrc7::errors::{ApprovalError, Fatal};
use icrc7::ledger::{get_tx_id, Ledger};
use icrc7::token::{Approval, Token};
use icrc7::types::{Account, ApprovalArgs, MintArgs, Principal};
use icrc7::update_calls::{icrc7_approve, icrc7_mint};

fn identity(byte: u8) -> Principal {
    Principal::from_slice(&[byte]).unwrap()
}

fn plain_account(byte: u8) -> Account {
    Account::from_principal(&identity(byte))
}

fn collection() -> Config {
    Config {
        name: "Birds".to_string(),
        symbol: "BRD".to_string(),
        royalties: None,
        minting_authority: identity(100),
        royalty_recipient: None,
        description: None,
        logo: None,
        supply_cap: None,
        tx_window: 0,
        permitted_drift: 0,
    }
}

/// The identity 1 owns the tokens 10, 30 and 40; the identity 2 owns token 20.
fn four_tokens(config: &Config) -> Ledger {
    let mut ledger = Ledger::new();
    for (id, owner) in [(40u128, 1u8), (10, 1), (20, 2), (30, 1)] {
        let args = MintArgs { id, name: String::new(), description: String::new(), image: None, to: plain_account(owner) };
        assert!(matches!(icrc7_mint(config, &mut ledger, &identity(100), args), Ok(Ok(_))));
    }
    ledger
}

fn request(ids: Option<&[u128]>, spender: u8, expires_at: Option<u64>) -> ApprovalArgs {
    ApprovalArgs {
        from_subaccount: None,
        spender: identity(spender),
        token_ids: ids.map(|ids| ids.to_vec()),
        expires_at,
        memo: None,
        created_at: None,
    }
}

fn approvals_of(ledger: &Ledger, id: u128) -> Vec<Approval> {
    assert!(ledger.tokens.contains_key(&id));
    ledger.tokens.get(&id).approvals.clone()
}

#[test]
fn an_approval_without_ids_covers_every_token_of_the_caller() {
    let config = collection();
    let mut ledger = four_tokens(&config);
    let answer = icrc7_approve(&config, &mut ledger, &identity(1), request(None, 3, Some(77)));
    assert_eq!(answer, Ok(Ok(5)));
    let granted = vec![Approval::new(plain_account(3), Some(77))];
    assert_eq!(approvals_of(&ledger, 10), granted);
    assert_eq!(approvals_of(&ledger, 30), granted);
    assert_eq!(approvals_of(&ledger, 40), granted);
    assert_eq!(approvals_of(&ledger, 20), vec![]);
    assert_eq!(config.owner_of(&ledger, &10), plain_account(1));
}

#[test]
fn an_approval_without_ids_by_someone_without_tokens_is_fatal() {
    let config = collection();
    let mut ledger = four_tokens(&config);
    let answer = icrc7_approve(&config, &mut ledger, &identity(3), request(None, 1, None));
    assert_eq!(answer, Err(Fatal::NoTokensAvailable));
    let mut empty = Ledger::new();
    let answer = icrc7_approve(&config, &mut empty, &identity(1), request(None, 2, None));
    assert_eq!(answer, Err(Fatal::NoTokensAvailable));
}

#[test]
fn an_approval_for_no_ids_is_fatal() {
    let config = collection();
    let mut ledger = four_tokens(&config);
    let answer = icrc7_approve(&config, &mut ledger, &identity(1), request(Some(&[]), 2, None));
    assert_eq!(answer, Err(Fatal::NoTokensAvailable));
}

#[test]
fn an_approval_for_unknown_ids_is_fatal() {
    let config = collection();
    let mut ledger = four_tokens(&config);
    let answer = icrc7_approve(&config, &mut ledger, &identity(1), request(Some(&[10, 11, 5]), 2, None));
    assert_eq!(answer, Err(Fatal::InvalidTokenIds { token_ids: vec![11, 5] }));
    assert_eq!(approvals_of(&ledger, 10), vec![]);
}

#[test]
fn approving_the_owner_is_fatal() {
    let config = collection();
    let mut ledger = four_tokens(&config);
    let answer = icrc7_approve(&config, &mut ledger, &identity(1), request(Some(&[10]), 1, None));
    assert_eq!(answer, Err(Fatal::SelfApprove));
    let answer = icrc7_approve(&config, &mut ledger, &identity(1), request(None, 1, None));
    assert_eq!(answer, Err(Fatal::SelfApprove));
    // Token 20 belongs to the spender: the caller does not own it, and still it is fatal.
    let answer = icrc7_approve(&config, &mut ledger, &identity(1), request(Some(&[10, 20]), 2, None));
    assert_eq!(answer, Err(Fatal::SelfApprove));
    assert_eq!(approvals_of(&ledger, 10), vec![]);
    assert_eq!(config.validate_approve(&ledger, &identity(1), &request(Some(&[10]), 1, None)), Some(Fatal::SelfApprove));
    assert_eq!(config.validate_approve(&ledger, &identity(1), &request(Some(&[10]), 2, None)), None);
}

#[test]
fn an_approval_fails_as_a_whole_on_the_first_token_of_another_owner() {
    let config = collection();
    let mut ledger = four_tokens(&config);
    let answer = icrc7_approve(&config, &mut ledger, &identity(1), request(Some(&[10, 20, 30]), 3, None));
    assert_eq!(answer, Ok(Err(ApprovalError::Unauthorized { token_ids: vec![20] })));
    assert_eq!(approvals_of(&ledger, 10), vec![]);
    assert_eq!(approvals_of(&ledger, 30), vec![]);
    assert_eq!(get_tx_id(&ledger), 4);
    // An unauthorized token ahead of one that belongs to the spender is reported, not fatal.
    let answer = icrc7_approve(&config, &mut ledger, &identity(3), request(Some(&[10, 20]), 2, None));
    assert_eq!(answer, Ok(Err(ApprovalError::Unauthorized { token_ids: vec![10] })));
}

#[test]
fn approvals_pile_up() {
    let config = collection();
    let mut ledger = four_tokens(&config);
    let answer = icrc7_approve(&config, &mut ledger, &identity(1), request(Some(&[10, 30, 10]), 2, None));
    assert_eq!(answer, Ok(Ok(5)));
    let answer = icrc7_approve(&config, &mut ledger, &identity(1), request(Some(&[10]), 3, Some(9)));
    assert_eq!(answer, Ok(Ok(6)));
    let answer = icrc7_approve(&config, &mut ledger, &identity(1), request(Some(&[10]), 2, None));
    assert_eq!(answer, Ok(Ok(7)));
    let to_two = Approval::new(plain_account(2), None);
    let to_three = Approval::new(plain_account(3), Some(9));
    assert_eq!(approvals_of(&ledger, 10), vec![to_two, to_two, to_three, to_two]);
    assert_eq!(approvals_of(&ledger, 30), vec![to_two]);
    assert!(ledger.tokens.get(&10).approval_check(9, &plain_account(3)));
    assert!(!ledger.tokens.get(&10).approval_check(10, &plain_account(3)));
}

#[test]
fn the_caller_approves_without_a_sub_identity() {
    let config = collection();
    let mut ledger = Ledger::new();
    let owner = Account::new(identity(1), Some([0u8; 32]));
    let args = MintArgs { id: 1, name: String::new(), description: String::new(), image: None, to: owner };
    assert_eq!(icrc7_mint(&config, &mut ledger, &identity(100), args), Ok(Ok(1)));
    // The token belongs to a sub-identity of the caller, which the call does not speak for.
    let mut named = request(Some(&[1]), 2, None);
    named.from_subaccount = Some([0u8; 32]);
    let answer = icrc7_approve(&config, &mut ledger, &identity(1), named);
    assert_eq!(answer, Ok(Err(ApprovalError::Unauthorized { token_ids: vec![1] })));
    let answer = icrc7_approve(&config, &mut ledger, &identity(1), request(None, 2, None));
    assert_eq!(answer, Err(Fatal::NoTokensAvailable));
}

#[test]
fn a_token_takes_an_approval_from_its_owner_only() {
    let mut token = Token {
        id: 5,
        owner: plain_account(1),
        name: "five".to_string(),
        image: None,
        description: None,
        approvals: vec![],
    };
    let approval = Approval::new(plain_account(2), Some(3));
    assert_eq!(approval.account, plain_account(2));
    assert_eq!(approval.expires_at, Some(3));
    assert_eq!(token.approve(&plain_account(3), approval), Err(ApprovalError::Unauthorized { token_ids: vec![5] }));
    assert!(token.approvals.is_empty());
    assert_eq!(token.approve(&plain_account(1), approval), Ok(()));
    assert_eq!(token.approve(&plain_account(1), Approval::new(plain_account(3), None)), Ok(()));
    assert_eq!(token.approvals, vec![approval, Approval::new(plain_account(3), None)]);
    assert_eq!(token.owner, plain_account(1));
}

#[test]
fn approve_after_validation_answers_the_transaction_id() {
    let config = collection();
    let mut ledger = four_tokens(&config);
    let args = request(Some(&[10]), 2, None);
    assert_eq!(config.validate_approve(&ledger, &identity(1), &args), None);
    assert_eq!(config.approve(&mut ledger, &identity(1), args), Ok(5));
    assert_eq!(get_tx_id(&ledger), 5);
}
