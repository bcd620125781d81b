use icrc7::config::Config;
use icrc7::errors::{Fatal, TransferError};
use icrc7::ledger::{get_tx_id, Ledger, TransferLog};
use icrc7::token::{Approval, Token};
use icrc7::types::{Account, ApprovalArgs, MintArgs, Principal, TransferArgs};
use icrc7::update_calls::{icrc7_approve, icrc7_mint, icrc7_transfer};

const ALICE: u8 = 1;
const BOB: u8 = 2;
const CAROL: u8 = 3;
const DAVID: u8 = 4;
const AUTHORITY: u8 = 100;

fn who(byte: u8) -> Principal {
    Principal::from_slice(&[byte]).unwrap()
}

fn acct(byte: u8) -> Account {
    Account::from_principal(&who(byte))
}

/// tx_window 1000 and permitted_drift 100: at the time 5000 the window is [3900, 5100].
fn settings() -> Config {
    Config {
        name: "Birds".to_string(),
        symbol: "BRD".to_string(),
        royalties: None,
        minting_authority: who(AUTHORITY),
        royalty_recipient: None,
        description: None,
        logo: None,
        supply_cap: None,
        tx_window: 1_000,
        permitted_drift: 100,
    }
}

/// Alice owns the tokens 1 and 3, Bob owns token 2. Three transactions so far.
fn three_tokens(config: &Config) -> Ledger {
    let mut ledger = Ledger::new();
    for (id, owner) in [(3u128, ALICE), (1, ALICE), (2, BOB)] {
        let args = MintArgs {
            id,
            name: format!("bird {}", id),
            description: String::new(),
            image: None,
            to: acct(owner),
        };
        assert!(matches!(icrc7_mint(config, &mut ledger, &who(AUTHORITY), args), Ok(Ok(_))));
    }
    ledger
}

fn batch(ids: &[u128], to: u8) -> TransferArgs {
    TransferArgs {
        spender_subaccount: None,
        to: acct(to),
        token_ids: ids.to_vec(),
        memo: None,
        created_at_time: None,
        is_atomic: None,
    }
}

fn dated(ids: &[u128], to: u8, created_at_time: u64) -> TransferArgs {
    let mut args = batch(ids, to);
    args.created_at_time = Some(created_at_time);
    args
}

fn loose(ids: &[u128], to: u8) -> TransferArgs {
    let mut args = batch(ids, to);
    args.is_atomic = Some(false);
    args
}

fn approve(config: &Config, ledger: &mut Ledger, owner: u8, id: u128, spender: u8, expires_at: Option<u64>) {
    let args = ApprovalArgs {
        from_subaccount: None,
        spender: who(spender),
        token_ids: Some(vec![id]),
        expires_at,
        memo: None,
        created_at: None,
    };
    assert!(matches!(icrc7_approve(config, ledger, &who(owner), args), Ok(Ok(_))));
}

fn owner_of(config: &Config, ledger: &Ledger, id: u128) -> Account {
    assert!(ledger.tokens.contains_key(&id));
    config.owner_of(ledger, &id)
}

fn logged_ids(ledger: &Ledger) -> Vec<u128> {
    ledger.log.iter().map(|entry| entry.id).collect()
}

#[test]
fn a_request_dated_before_the_window_is_too_old() {
    let config = settings();
    let mut ledger = three_tokens(&config);
    let answer = icrc7_transfer(&config, &mut ledger, &who(ALICE), 5_000, dated(&[1], BOB, 3_899));
    assert_eq!(answer, Ok(Err(TransferError::TooOld)));
    assert_eq!(owner_of(&config, &ledger, 1), acct(ALICE));
    assert_eq!(get_tx_id(&ledger), 3);
}

#[test]
fn a_request_dated_at_the_lower_bound_is_accepted() {
    let config = settings();
    let mut ledger = three_tokens(&config);
    let answer = icrc7_transfer(&config, &mut ledger, &who(ALICE), 5_000, dated(&[1], BOB, 3_900));
    assert_eq!(answer, Ok(Ok(4)));
    assert_eq!(owner_of(&config, &ledger, 1), acct(BOB));
}

#[test]
fn a_request_dated_after_the_window_is_from_the_future() {
    let config = settings();
    let mut ledger = three_tokens(&config);
    let answer = icrc7_transfer(&config, &mut ledger, &who(ALICE), 5_000, dated(&[1], BOB, 5_101));
    assert_eq!(answer, Ok(Err(TransferError::CreatedInFuture { ledger_time: 5_000 })));
    assert_eq!(owner_of(&config, &ledger, 1), acct(ALICE));
    assert_eq!(get_tx_id(&ledger), 3);
}

#[test]
fn a_request_dated_at_the_upper_bound_is_accepted() {
    let config = settings();
    let mut ledger = three_tokens(&config);
    let answer = icrc7_transfer(&config, &mut ledger, &who(ALICE), 5_000, dated(&[1], BOB, 5_100));
    assert_eq!(answer, Ok(Ok(4)));
}

#[test]
fn no_request_is_too_old_while_the_clock_is_younger_than_the_window() {
    let config = settings();
    let mut ledger = three_tokens(&config);
    let answer = icrc7_transfer(&config, &mut ledger, &who(ALICE), 500, dated(&[1], BOB, 0));
    assert_eq!(answer, Ok(Ok(4)));
    // The entry was logged at 500, not at 0: the same request is no replay.
    let again = icrc7_transfer(&config, &mut ledger, &who(ALICE), 500, dated(&[1], BOB, 0));
    assert_eq!(again, Ok(Err(TransferError::Unauthorized { token_ids: vec![1] })));
}

#[test]
fn the_window_is_computed_without_overflow_at_the_end_of_time() {
    let mut config = settings();
    config.permitted_drift = u64::MAX;
    config.tx_window = u64::MAX;
    let mut ledger = three_tokens(&config);
    let answer = icrc7_transfer(&config, &mut ledger, &who(ALICE), u64::MAX, dated(&[1], BOB, u64::MAX));
    assert_eq!(answer, Ok(Ok(4)));
    // A replay is found although the window's lower bound lies before the first instant.
    let again = icrc7_transfer(&config, &mut ledger, &who(ALICE), u64::MAX, dated(&[1], BOB, u64::MAX));
    assert_eq!(again, Ok(Err(TransferError::Duplicate { duplicate_of: 0 })));
}

#[test]
fn no_dated_approval_holds_when_the_drift_passes_the_end_of_time() {
    let mut config = settings();
    config.permitted_drift = u64::MAX;
    let mut ledger = three_tokens(&config);
    approve(&config, &mut ledger, ALICE, 1, BOB, Some(u64::MAX));
    approve(&config, &mut ledger, ALICE, 3, BOB, None);
    let answer = icrc7_transfer(&config, &mut ledger, &who(BOB), 1, batch(&[1], CAROL));
    assert_eq!(answer, Ok(Err(TransferError::Unauthorized { token_ids: vec![1] })));
    let answer = icrc7_transfer(&config, &mut ledger, &who(BOB), 1, batch(&[3], CAROL));
    assert_eq!(answer, Ok(Ok(6)));
}

#[test]
fn an_approval_holds_up_to_its_expiry_seen_through_the_drift() {
    let config = settings();
    let mut ledger = three_tokens(&config);
    approve(&config, &mut ledger, ALICE, 1, BOB, Some(5_100));
    // At 5001 the approval is judged at 5101, after its expiry.
    let late = icrc7_transfer(&config, &mut ledger, &who(BOB), 5_001, batch(&[1], CAROL));
    assert_eq!(late, Ok(Err(TransferError::Unauthorized { token_ids: vec![1] })));
    // At 5000 it is judged at 5100, the expiry itself.
    let in_time = icrc7_transfer(&config, &mut ledger, &who(BOB), 5_000, batch(&[1], CAROL));
    assert_eq!(in_time, Ok(Ok(5)));
    assert_eq!(owner_of(&config, &ledger, 1), acct(CAROL));
}

#[test]
fn an_approval_is_for_the_account_and_not_for_its_other_sub_identities() {
    let config = settings();
    let mut ledger = three_tokens(&config);
    approve(&config, &mut ledger, ALICE, 1, BOB, None);
    let mut request = batch(&[1], CAROL);
    request.spender_subaccount = Some([0u8; 32]);
    let answer = icrc7_transfer(&config, &mut ledger, &who(BOB), 5_000, request);
    assert_eq!(answer, Ok(Err(TransferError::Unauthorized { token_ids: vec![1] })));
    let mut request = batch(&[1], CAROL);
    request.spender_subaccount = Some([7u8; 32]);
    let answer = icrc7_transfer(&config, &mut ledger, &who(ALICE), 5_000, request);
    assert_eq!(answer, Ok(Err(TransferError::Unauthorized { token_ids: vec![1] })));
}

#[test]
fn the_log_records_the_spender_as_the_source() {
    let config = settings();
    let mut ledger = three_tokens(&config);
    approve(&config, &mut ledger, ALICE, 1, BOB, None);
    let mut request = batch(&[1], CAROL);
    request.memo = Some(vec![1, 2, 3]);
    assert_eq!(icrc7_transfer(&config, &mut ledger, &who(BOB), 5_000, request), Ok(Ok(5)));
    assert_eq!(
        ledger.log,
        vec![TransferLog { id: 1, at: 5_000, memo: Some(vec![1, 2, 3]), from: acct(BOB), to: acct(CAROL) }]
    );
}

#[test]
fn an_atomic_batch_moves_every_token_and_logs_them_in_order() {
    let config = settings();
    let mut ledger = three_tokens(&config);
    approve(&config, &mut ledger, BOB, 2, ALICE, None);
    let answer = icrc7_transfer(&config, &mut ledger, &who(ALICE), 5_000, batch(&[3, 2, 1], CAROL));
    assert_eq!(answer, Ok(Ok(5)));
    for id in [1u128, 2, 3] {
        assert_eq!(owner_of(&config, &ledger, id), acct(CAROL));
        assert!(ledger.tokens.get(&id).approvals.is_empty());
    }
    assert_eq!(logged_ids(&ledger), vec![3, 2, 1]);
}

#[test]
fn an_atomic_batch_lists_every_unauthorized_token_in_order() {
    let config = settings();
    let mut ledger = three_tokens(&config);
    let answer = icrc7_transfer(&config, &mut ledger, &who(CAROL), 5_000, batch(&[2, 3, 1], DAVID));
    assert_eq!(answer, Ok(Err(TransferError::Unauthorized { token_ids: vec![2, 3, 1] })));
    assert!(ledger.log.is_empty());
}

#[test]
fn a_batch_that_is_not_atomic_moves_what_it_may_and_reports_the_rest() {
    let config = settings();
    let mut ledger = three_tokens(&config);
    let answer = icrc7_transfer(&config, &mut ledger, &who(ALICE), 5_000, loose(&[1, 2, 3], CAROL));
    assert_eq!(answer, Ok(Err(TransferError::Unauthorized { token_ids: vec![2] })));
    assert_eq!(owner_of(&config, &ledger, 1), acct(CAROL));
    assert_eq!(owner_of(&config, &ledger, 2), acct(BOB));
    assert_eq!(owner_of(&config, &ledger, 3), acct(CAROL));
    assert_eq!(logged_ids(&ledger), vec![1, 3]);
    assert_eq!(get_tx_id(&ledger), 3);
}

#[test]
fn a_batch_that_is_not_atomic_succeeds_when_every_token_may_move() {
    let config = settings();
    let mut ledger = three_tokens(&config);
    let answer = icrc7_transfer(&config, &mut ledger, &who(ALICE), 5_000, loose(&[3, 1], CAROL));
    assert_eq!(answer, Ok(Ok(4)));
    assert_eq!(logged_ids(&ledger), vec![3, 1]);
}

/// Alice has moved token 1 to Bob at 5000 with that date, and Bob has given it back undated.
fn with_a_logged_transfer(config: &Config) -> Ledger {
    let mut ledger = three_tokens(config);
    assert_eq!(icrc7_transfer(config, &mut ledger, &who(ALICE), 5_000, dated(&[1], BOB, 5_000)), Ok(Ok(4)));
    assert_eq!(icrc7_transfer(config, &mut ledger, &who(BOB), 5_001, batch(&[1], ALICE)), Ok(Ok(5)));
    ledger
}

#[test]
fn an_atomic_batch_with_a_replay_changes_nothing() {
    let config = settings();
    let mut ledger = with_a_logged_transfer(&config);
    let answer = icrc7_transfer(&config, &mut ledger, &who(ALICE), 5_050, dated(&[3, 1], BOB, 5_000));
    assert_eq!(answer, Ok(Err(TransferError::Duplicate { duplicate_of: 0 })));
    assert_eq!(owner_of(&config, &ledger, 3), acct(ALICE));
    assert_eq!(owner_of(&config, &ledger, 1), acct(ALICE));
    assert_eq!(ledger.log.len(), 2);
    assert_eq!(get_tx_id(&ledger), 5);
}

#[test]
fn a_replay_is_reported_before_an_unauthorized_token() {
    let config = settings();
    let mut ledger = with_a_logged_transfer(&config);
    let answer = icrc7_transfer(&config, &mut ledger, &who(ALICE), 5_050, dated(&[2, 1], BOB, 5_000));
    assert_eq!(answer, Ok(Err(TransferError::Duplicate { duplicate_of: 0 })));
}

#[test]
fn a_batch_that_is_not_atomic_stops_at_the_first_replay() {
    let config = settings();
    let mut ledger = with_a_logged_transfer(&config);
    let mut request = dated(&[3, 1, 2], BOB, 5_000);
    request.is_atomic = Some(false);
    let answer = icrc7_transfer(&config, &mut ledger, &who(ALICE), 5_050, request);
    assert_eq!(answer, Ok(Err(TransferError::Duplicate { duplicate_of: 0 })));
    // Token 3 came before the replay and has moved; the call is no transaction all the same.
    assert_eq!(owner_of(&config, &ledger, 3), acct(BOB));
    assert_eq!(owner_of(&config, &ledger, 1), acct(ALICE));
    assert_eq!(logged_ids(&ledger), vec![1, 1, 3]);
    assert_eq!(get_tx_id(&ledger), 5);
}

#[test]
fn a_request_with_another_memo_date_or_destination_is_no_replay() {
    let config = settings();
    let mut other_memo = dated(&[1], BOB, 5_000);
    other_memo.memo = Some(vec![]);
    let other_date = dated(&[1], BOB, 5_001);
    let other_destination = dated(&[1], CAROL, 5_000);
    let mut other_source = dated(&[1], BOB, 5_000);
    other_source.spender_subaccount = Some([0u8; 32]);
    let other_token = dated(&[3], BOB, 5_000);
    for request in [other_memo, other_date, other_destination, other_token] {
        let mut ledger = with_a_logged_transfer(&config);
        let answer = icrc7_transfer(&config, &mut ledger, &who(ALICE), 5_050, request);
        assert_eq!(answer, Ok(Ok(6)));
    }
    let mut ledger = with_a_logged_transfer(&config);
    let answer = icrc7_transfer(&config, &mut ledger, &who(ALICE), 5_050, other_source);
    assert_eq!(answer, Ok(Err(TransferError::Unauthorized { token_ids: vec![1] })));
}

#[test]
fn a_logged_transfer_at_the_lower_bound_is_no_longer_a_replay() {
    let config = settings();
    let mut ledger = with_a_logged_transfer(&config);
    // At 6100 the window starts at 5000: the date passes, the logged entry does not count.
    let answer = icrc7_transfer(&config, &mut ledger, &who(ALICE), 6_100, dated(&[1], BOB, 5_000));
    assert_eq!(answer, Ok(Ok(6)));
    let mut ledger = with_a_logged_transfer(&config);
    let answer = icrc7_transfer(&config, &mut ledger, &who(ALICE), 6_099, dated(&[1], BOB, 5_000));
    assert_eq!(answer, Ok(Err(TransferError::Duplicate { duplicate_of: 0 })));
}

#[test]
fn the_deduplication_check_finds_the_first_matching_entry() {
    let config = settings();
    let mut ledger = Ledger::new();
    for (id, at) in [(1u128, 10u64), (2, 20), (1, 20), (1, 20)] {
        ledger.log.push(TransferLog { id, at, memo: None, from: acct(ALICE), to: acct(BOB) });
    }
    let find = |floor: u64, at: u64, memo: Option<Vec<u8>>, id: u128, from: u8, to: u8| {
        config.tx_deduplication_check(&ledger, floor, at, &memo, id, &acct(from), &acct(to))
    };
    assert_eq!(find(0, 20, None, 1, ALICE, BOB), Some(2));
    assert_eq!(find(0, 10, None, 1, ALICE, BOB), Some(0));
    assert_eq!(find(0, 20, None, 2, ALICE, BOB), Some(1));
    assert_eq!(find(19, 20, None, 1, ALICE, BOB), Some(2));
    assert_eq!(find(20, 20, None, 1, ALICE, BOB), None);
    assert_eq!(find(0, 20, Some(vec![]), 1, ALICE, BOB), None);
    assert_eq!(find(0, 20, None, 1, BOB, ALICE), None);
    assert_eq!(find(0, 20, None, 3, ALICE, BOB), None);
    assert_eq!(find(0, 15, None, 1, ALICE, BOB), None);
}

#[test]
fn an_empty_batch_is_fatal() {
    let config = settings();
    let mut ledger = three_tokens(&config);
    let answer = icrc7_transfer(&config, &mut ledger, &who(ALICE), 5_000, batch(&[], BOB));
    assert_eq!(answer, Err(Fatal::NoTokenProvided));
    let answer = icrc7_transfer(&config, &mut ledger, &who(ALICE), 5_000, loose(&[], BOB));
    assert_eq!(answer, Err(Fatal::NoTokenProvided));
}

#[test]
fn unknown_ids_are_fatal_and_listed_as_given() {
    let config = settings();
    let mut ledger = three_tokens(&config);
    let answer = icrc7_transfer(&config, &mut ledger, &who(ALICE), 5_000, dated(&[9, 1, 7, 9], BOB, 0));
    assert_eq!(answer, Err(Fatal::InvalidTokenIds { token_ids: vec![9, 7, 9] }));
    assert_eq!(config.id_validity_check(&ledger, &vec![1, 2, 3]), Vec::<u128>::new());
    assert_eq!(config.id_validity_check(&ledger, &vec![4, 3, 0]), vec![4, 0]);
    assert_eq!(owner_of(&config, &ledger, 1), acct(ALICE));
}

#[test]
fn a_transfer_to_the_owner_is_fatal() {
    let config = settings();
    let mut ledger = three_tokens(&config);
    let answer = icrc7_transfer(&config, &mut ledger, &who(ALICE), 5_000, batch(&[3, 1], ALICE));
    assert_eq!(answer, Err(Fatal::SelfTransfer));
    // A spender who hands a token back to its owner meets the same end.
    approve(&config, &mut ledger, ALICE, 1, BOB, None);
    let answer = icrc7_transfer(&config, &mut ledger, &who(BOB), 5_000, batch(&[1], ALICE));
    assert_eq!(answer, Err(Fatal::SelfTransfer));
    assert_eq!(owner_of(&config, &ledger, 1), acct(ALICE));
    assert_eq!(ledger.tokens.get(&1).approvals.len(), 1);
    assert!(ledger.log.is_empty());
}

#[test]
fn a_token_named_twice_is_fatal_once_it_would_move() {
    let config = settings();
    let mut ledger = three_tokens(&config);
    let answer = icrc7_transfer(&config, &mut ledger, &who(ALICE), 5_000, batch(&[1, 3, 1], BOB));
    assert_eq!(answer, Err(Fatal::SelfTransfer));
    let answer = icrc7_transfer(&config, &mut ledger, &who(ALICE), 5_000, loose(&[1, 3, 1], BOB));
    assert_eq!(answer, Err(Fatal::SelfTransfer));
    assert_eq!(owner_of(&config, &ledger, 1), acct(ALICE));
    assert_eq!(owner_of(&config, &ledger, 3), acct(ALICE));
    assert!(ledger.log.is_empty());
    // Named twice by someone who may not move it, it is reported twice.
    let answer = icrc7_transfer(&config, &mut ledger, &who(CAROL), 5_000, loose(&[1, 1], BOB));
    assert_eq!(answer, Ok(Err(TransferError::Unauthorized { token_ids: vec![1, 1] })));
}

#[test]
fn an_atomic_batch_that_fails_is_not_fatal() {
    let config = settings();
    let mut ledger = three_tokens(&config);
    // Token 2 belongs to Bob already, but Alice may not move it: the batch fails as a whole.
    let answer = icrc7_transfer(&config, &mut ledger, &who(ALICE), 5_000, batch(&[1, 2], BOB));
    assert_eq!(answer, Ok(Err(TransferError::Unauthorized { token_ids: vec![2] })));
    // Not atomic, the batch would reach token 2 and hand it to its owner.
    let answer = icrc7_transfer(&config, &mut ledger, &who(ALICE), 5_000, loose(&[1, 2], BOB));
    assert_eq!(answer, Err(Fatal::SelfTransfer));
    assert_eq!(owner_of(&config, &ledger, 1), acct(ALICE));
}

#[test]
fn a_date_outside_the_window_is_reported_before_a_transfer_to_the_owner() {
    let config = settings();
    let mut ledger = three_tokens(&config);
    let answer = icrc7_transfer(&config, &mut ledger, &who(ALICE), 5_000, dated(&[1], ALICE, 1));
    assert_eq!(answer, Ok(Err(TransferError::TooOld)));
    let mut request = dated(&[1], ALICE, 9_000);
    request.is_atomic = Some(false);
    let answer = icrc7_transfer(&config, &mut ledger, &who(ALICE), 5_000, request);
    assert_eq!(answer, Ok(Err(TransferError::CreatedInFuture { ledger_time: 5_000 })));
}

#[test]
fn a_replay_ahead_of_a_token_of_the_destination_ends_the_loose_batch_first() {
    let config = settings();
    let mut ledger = with_a_logged_transfer(&config);
    let mut request = dated(&[1, 2], BOB, 5_000);
    request.is_atomic = Some(false);
    let answer = icrc7_transfer(&config, &mut ledger, &who(ALICE), 5_050, request);
    assert_eq!(answer, Ok(Err(TransferError::Duplicate { duplicate_of: 0 })));
    let mut request = dated(&[2, 1], BOB, 5_000);
    request.is_atomic = Some(false);
    let answer = icrc7_transfer(&config, &mut ledger, &who(ALICE), 5_050, request);
    assert_eq!(answer, Err(Fatal::SelfTransfer));
}

#[test]
fn validate_transfer_agrees_with_the_guarded_call() {
    let config = settings();
    let ledger = three_tokens(&config);
    assert_eq!(config.validate_transfer(&ledger, &who(ALICE), 5_000, &batch(&[1], BOB)), None);
    assert_eq!(
        config.validate_transfer(&ledger, &who(ALICE), 5_000, &batch(&[1], ALICE)),
        Some(Fatal::SelfTransfer)
    );
    assert_eq!(
        config.validate_transfer(&ledger, &who(ALICE), 5_000, &batch(&[], ALICE)),
        Some(Fatal::NoTokenProvided)
    );
    assert_eq!(
        config.validate_transfer(&ledger, &who(ALICE), 5_000, &batch(&[5], ALICE)),
        Some(Fatal::InvalidTokenIds { token_ids: vec![5] })
    );
    let mut ledger = ledger;
    assert_eq!(config.transfer(&mut ledger, &who(ALICE), 5_000, batch(&[1], BOB)), Ok(4));
}

fn bird(id: u128, owner: u8) -> Token {
    Token {
        id,
        owner: acct(owner),
        name: "bird".to_string(),
        image: None,
        description: None,
        approvals: vec![Approval::new(acct(BOB), Some(50)), Approval::new(acct(CAROL), None)],
    }
}

#[test]
fn a_token_checks_its_approvals_against_the_time() {
    let token = bird(1, ALICE);
    assert!(token.approval_check(49, &acct(BOB)));
    assert!(token.approval_check(50, &acct(BOB)));
    assert!(!token.approval_check(51, &acct(BOB)));
    assert!(token.approval_check(u64::MAX, &acct(CAROL)));
    assert!(!token.approval_check(0, &acct(ALICE)));
    assert!(!token.approval_check(0, &acct(DAVID)));
    assert!(token.approval_check_at(50, &acct(BOB)));
    assert!(!token.approval_check_at(u64::MAX as i128 + 1, &acct(BOB)));
    assert!(token.approval_check_at(u64::MAX as i128 + 1, &acct(CAROL)));
    assert!(token.may_transfer_at(1_000, &acct(ALICE)));
    assert!(!token.may_transfer_at(1_000, &acct(BOB)));
    assert_eq!(token.owner(), acct(ALICE));
}

#[test]
fn a_token_changes_hands_for_its_owner_or_an_approved_spender() {
    let mut token = bird(1, ALICE);
    assert_eq!(token.transfer(10, &acct(ALICE), acct(DAVID)), Ok(()));
    assert_eq!(token.owner, acct(DAVID));
    assert!(token.approvals.is_empty());

    let mut token = bird(2, ALICE);
    assert_eq!(token.transfer(50, &acct(BOB), acct(DAVID)), Ok(()));
    assert_eq!(token.owner, acct(DAVID));
    assert!(token.approvals.is_empty());

    let mut token = bird(3, ALICE);
    let refused = token.transfer(51, &acct(BOB), acct(DAVID));
    assert_eq!(refused, Err(TransferError::Unauthorized { token_ids: vec![3] }));
    assert_eq!(token, bird(3, ALICE));
    let refused = token.transfer(0, &acct(DAVID), acct(BOB));
    assert_eq!(refused, Err(TransferError::Unauthorized { token_ids: vec![3] }));
    assert_eq!(token, bird(3, ALICE));
}
