//! What holds of every call: laws about the functions that say what `mint`,
//! `approve` and `transfer` answer and leave behind.

use crate::approve::{approval_of, approver_of, grants};
use crate::config::Config;
use crate::dedup::{first_where, lemma_first_where, replayed, replays};
use crate::errors::TransferErrorView;
use crate::ledger::{LedgerView, TransferLogView};
use crate::token::TokenView;
use crate::transfer::{is_atomic, is_unknown, lemma_filter_empty, may_move, may_not_move, spender_of};
use crate::types::{ApprovalArgsView, Principal, TransferArgsView};
use vstd::prelude::*;

verus! {

/// One call of `mint`.
pub struct MintCall {
    pub caller: Principal,
    pub token: TokenView,
}

/// Whether a call of `mint` on the ledger `s` adds its token.
pub open spec fn mints(config: Config, s: LedgerView, call: MintCall) -> bool {
    config.mint_fatal(s, call.caller, call.token.id) is None && config.mint_result(s, call.caller) is Ok
}

/// The ledger after the calls `calls` of `mint`, made in turn on the ledger
/// `s`. A call that meets a fatal condition changes nothing.
pub open spec fn after_mints(config: Config, s: LedgerView, calls: Seq<MintCall>) -> LedgerView
    decreases calls.len(),
{
    if calls.len() == 0 {
        s
    } else {
        let before = after_mints(config, s, calls.drop_last());
        if mints(config, before, calls.last()) {
            config.mint_state(before, calls.last().caller, calls.last().token)
        } else {
            before
        }
    }
}

/// How many of the calls `calls`, made in turn on the ledger `s`, add their token.
pub open spec fn minted(config: Config, s: LedgerView, calls: Seq<MintCall>) -> nat
    decreases calls.len(),
{
    if calls.len() == 0 {
        0
    } else {
        minted(config, s, calls.drop_last()) + if mints(
            config,
            after_mints(config, s, calls.drop_last()),
            calls.last(),
        ) {
            1nat
        } else {
            0nat
        }
    }
}

/// A mint that succeeds adds one token under a new id and raises the supply
/// by one, not past the cap; one that fails changes nothing.
pub proof fn lemma_mint_step(config: Config, s: LedgerView, call: MintCall)
    requires
        s.wf(),
        s.total_supply < u128::MAX,
        config.mint_fatal(s, call.caller, call.token.id) is None,
    ensures
        config.mint_state(s, call.caller, call.token).wf(),
        config.mint_result(s, call.caller) is Ok ==> {
            &&& config.mint_state(s, call.caller, call.token).total_supply == s.total_supply + 1
            &&& config.supply_cap matches Some(cap) ==> config.mint_state(
                s,
                call.caller,
                call.token,
            ).total_supply <= cap
        },
        config.mint_result(s, call.caller) is Err ==> config.mint_state(s, call.caller, call.token) == s,
{
}

/// Supply bound. After any calls of `mint` the supply has grown by the
/// number of calls that succeeded and counts the tokens, and where the last
/// call succeeded and a cap is set, the supply is within the cap.
pub proof fn lemma_supply_bound(config: Config, s: LedgerView, calls: Seq<MintCall>)
    requires
        s.wf(),
        s.total_supply + calls.len() <= u128::MAX,
    ensures
        after_mints(config, s, calls).wf(),
        after_mints(config, s, calls).total_supply == s.total_supply + minted(config, s, calls),
        after_mints(config, s, calls).total_supply == after_mints(config, s, calls).tokens.len(),
        minted(config, s, calls) <= calls.len(),
        calls.len() > 0 && mints(config, after_mints(config, s, calls.drop_last()), calls.last()) ==> (
        config.supply_cap matches Some(cap) ==> after_mints(config, s, calls).total_supply <= cap),
    decreases calls.len(),
{
    if calls.len() > 0 {
        lemma_supply_bound(config, s, calls.drop_last());
        let before = after_mints(config, s, calls.drop_last());
        if mints(config, before, calls.last()) {
            lemma_mint_step(config, before, calls.last());
        }
    }
}

/// Transaction ids, for `mint`: a call that succeeds answers the id after
/// the last one and leaves it as the last; a call that fails leaves the last
/// id as it was.
pub proof fn lemma_mint_tx_id(config: Config, s: LedgerView, caller: Principal, token: TokenView)
    requires
        s.tx_id < u128::MAX,
    ensures
        config.mint_result(s, caller) matches Ok(tx_id) ==> tx_id == s.tx_id + 1 && config.mint_state(
            s,
            caller,
            token,
        ).tx_id == tx_id,
        config.mint_result(s, caller) is Err ==> config.mint_state(s, caller, token).tx_id == s.tx_id,
{
}

/// Transaction ids, for `approve`: as for `mint`, however many tokens the
/// call names.
pub proof fn lemma_approve_tx_id(config: Config, s: LedgerView, caller: Principal, arg: ApprovalArgsView)
    requires
        s.tx_id < u128::MAX,
    ensures
        config.approve_result(s, caller, arg) matches Ok(tx_id) ==> tx_id == s.tx_id + 1
            && config.approve_state(s, caller, arg).tx_id == tx_id,
        config.approve_result(s, caller, arg) is Err ==> config.approve_state(s, caller, arg).tx_id
            == s.tx_id,
{
}

/// Transaction ids, for `transfer`: as for `mint`, however many tokens the
/// batch holds and whether it is atomic or not.
pub proof fn lemma_transfer_tx_id(
    config: Config,
    s: LedgerView,
    caller: Principal,
    now: u64,
    arg: TransferArgsView,
)
    requires
        s.tx_id < u128::MAX,
    ensures
        config.transfer_result(s, caller, now, arg) matches Ok(tx_id) ==> tx_id == s.tx_id + 1
            && config.transfer_state(s, caller, now, arg).tx_id == tx_id,
        config.transfer_result(s, caller, now, arg) is Err ==> config.transfer_state(
            s,
            caller,
            now,
            arg,
        ).tx_id == s.tx_id,
{
}

/// Approval clearing. Whenever a transfer hands over a token, be it in a
/// batch that fails later, the token belongs to the destination afterwards
/// and has no approvals.
pub proof fn lemma_handed_over_is_cleared(
    config: Config,
    s: LedgerView,
    caller: Principal,
    now: u64,
    arg: TransferArgsView,
    id: u128,
)
    requires
        config.commits(s, caller, now, arg),
        s.tokens.contains_key(id),
        config.attempted(s, caller, now, arg).contains(id),
        s.tokens[id].may_transfer(spender_of(caller, arg), config.window_ceiling(now)),
    ensures
        config.transfer_state(s, caller, now, arg).tokens[id].owner == arg.to,
        config.transfer_state(s, caller, now, arg).tokens[id].approvals == Seq::<
            crate::token::Approval,
        >::empty(),
{
}

/// Approval clearing, for a transfer that succeeds: every token of the batch
/// belongs to the destination afterwards and has no approvals.
pub proof fn lemma_transfer_clears_approvals(
    config: Config,
    s: LedgerView,
    caller: Principal,
    now: u64,
    arg: TransferArgsView,
    i: int,
)
    requires
        config.transfer_result(s, caller, now, arg) is Ok,
        0 <= i < arg.token_ids.len(),
        s.tokens.contains_key(arg.token_ids[i]),
    ensures
        config.transfer_state(s, caller, now, arg).tokens[arg.token_ids[i]].owner == arg.to,
        config.transfer_state(s, caller, now, arg).tokens[arg.token_ids[i]].approvals == Seq::<
            crate::token::Approval,
        >::empty(),
{
    lemma_filter_empty(
        arg.token_ids,
        may_not_move(s.tokens, spender_of(caller, arg), config.window_ceiling(now)),
    );
    assert(arg.token_ids.contains(arg.token_ids[i]));
    lemma_handed_over_is_cleared(config, s, caller, now, arg, arg.token_ids[i]);
}

/// A transfer leaves every token as it was that it does not hand over: one
/// that is not in the part of the batch it attempts, and one that the spender
/// may not move.
pub proof fn lemma_other_tokens_are_untouched(
    config: Config,
    s: LedgerView,
    caller: Principal,
    now: u64,
    arg: TransferArgsView,
    id: u128,
)
    requires
        s.tokens.contains_key(id),
        !config.attempted(s, caller, now, arg).contains(id) || !s.tokens[id].may_transfer(
            spender_of(caller, arg),
            config.window_ceiling(now),
        ),
    ensures
        config.transfer_state(s, caller, now, arg).tokens[id] == s.tokens[id],
{
}

/// Dedup window, below: a request dated before the window is too old, and
/// nothing but its batch can make it fatal.
pub proof fn lemma_before_window_is_too_old(
    config: Config,
    s: LedgerView,
    caller: Principal,
    now: u64,
    arg: TransferArgsView,
)
    requires
        arg.created_at_time matches Some(t) && t < now - config.tx_window - config.permitted_drift,
    ensures
        config.transfer_result(s, caller, now, arg) == Err::<u128, TransferErrorView>(
            TransferErrorView::TooOld,
        ),
        config.transfer_state(s, caller, now, arg) == s,
        config.transfer_fatal(s, caller, now, arg) is None <==> arg.token_ids.len() > 0
            && arg.token_ids.filter(is_unknown(s.tokens)).len() == 0,
{
}

/// Dedup window, above: a request dated after the window is from the future,
/// and nothing but its batch can make it fatal.
pub proof fn lemma_after_window_is_in_future(
    config: Config,
    s: LedgerView,
    caller: Principal,
    now: u64,
    arg: TransferArgsView,
)
    requires
        arg.created_at_time matches Some(t) && t > now + config.permitted_drift,
    ensures
        config.transfer_result(s, caller, now, arg) == Err::<u128, TransferErrorView>(
            TransferErrorView::CreatedInFuture { ledger_time: now },
        ),
        config.transfer_state(s, caller, now, arg) == s,
        config.transfer_fatal(s, caller, now, arg) is None <==> arg.token_ids.len() > 0
            && arg.token_ids.filter(is_unknown(s.tokens)).len() == 0,
{
}

/// Dedup window, inside: a request dated after the window's lower bound and
/// not after its upper bound, whose token at position `i` the log records at
/// position `k` as moved at that date with that memo between those accounts,
/// is answered as a duplicate. The answer names a log entry that records a
/// token of the batch so; for a batch of one token it is the first such entry.
pub proof fn lemma_replay_is_duplicate(
    config: Config,
    s: LedgerView,
    caller: Principal,
    now: u64,
    arg: TransferArgsView,
    i: int,
    k: int,
)
    requires
        s.log.len() <= u128::MAX,
        arg.created_at_time matches Some(t) && now - config.tx_window - config.permitted_drift < t
            <= now + config.permitted_drift,
        0 <= i < arg.token_ids.len(),
        0 <= k < s.log.len(),
        s.log[k] == (TransferLogView {
            id: arg.token_ids[i],
            at: arg.created_at_time.unwrap(),
            memo: arg.memo,
            from: spender_of(caller, arg),
            to: arg.to,
        }),
    ensures
        config.transfer_result(s, caller, now, arg) matches Err(
            TransferErrorView::Duplicate { duplicate_of },
        ) && {
            &&& duplicate_of < s.log.len()
            &&& exists|j: int|
                0 <= j <= i && replays(
                    s.log[duplicate_of as int],
                    config.window_floor(now),
                    arg.created_at_time.unwrap(),
                    arg.memo,
                    #[trigger] arg.token_ids[j],
                    spender_of(caller, arg),
                    arg.to,
                )
            &&& arg.token_ids.len() == 1 ==> duplicate_of <= k && forall|m: int|
                0 <= m < duplicate_of ==> !replays(
                    #[trigger] s.log[m],
                    config.window_floor(now),
                    arg.created_at_time.unwrap(),
                    arg.memo,
                    arg.token_ids[0],
                    spender_of(caller, arg),
                    arg.to,
                )
        },
{
    let t = arg.created_at_time.unwrap();
    let floor = config.window_floor(now);
    let spender = spender_of(caller, arg);
    let p = config.is_duplicate(s, caller, now, arg);
    lemma_first_where(s.log, replayed(floor, t, arg.memo, arg.token_ids[i], spender, arg.to));
    assert(replayed(floor, t, arg.memo, arg.token_ids[i], spender, arg.to)(s.log[k]));
    assert(p(arg.token_ids[i]));
    lemma_first_where(arg.token_ids, p);
    let j = first_where(arg.token_ids, p).unwrap();
    lemma_first_where(s.log, replayed(floor, t, arg.memo, arg.token_ids[j], spender, arg.to));
}

/// Atomic all-or-nothing. An atomic transfer that fails leaves the ledger as
/// it was.
pub proof fn lemma_atomic_all_or_nothing(
    config: Config,
    s: LedgerView,
    caller: Principal,
    now: u64,
    arg: TransferArgsView,
)
    requires
        is_atomic(arg),
        config.transfer_result(s, caller, now, arg) is Err,
    ensures
        config.transfer_state(s, caller, now, arg) == s,
{
}

/// The log grows by committed transfers only. A transfer leaves the entries
/// that were there, and each entry it adds records, with the ledger's time,
/// the spender and the destination, a token of the batch that the spender
/// might move and that belongs to the destination afterwards.
pub proof fn lemma_log_records_what_moved(
    config: Config,
    s: LedgerView,
    caller: Principal,
    now: u64,
    arg: TransferArgsView,
    k: int,
)
    requires
        0 <= k < config.transfer_state(s, caller, now, arg).log.len(),
    ensures
        s.log.len() <= config.transfer_state(s, caller, now, arg).log.len(),
        k < s.log.len() ==> config.transfer_state(s, caller, now, arg).log[k] == s.log[k],
        k >= s.log.len() ==> {
            let entry = config.transfer_state(s, caller, now, arg).log[k];
            &&& entry.at == now
            &&& entry.memo == arg.memo
            &&& entry.from == spender_of(caller, arg)
            &&& entry.to == arg.to
            &&& arg.token_ids.contains(entry.id)
            &&& s.tokens[entry.id].may_transfer(spender_of(caller, arg), config.window_ceiling(now))
            &&& s.tokens.contains_key(entry.id) ==> config.transfer_state(
                s,
                caller,
                now,
                arg,
            ).tokens[entry.id].owner == arg.to
        },
{
    if config.commits(s, caller, now, arg) && k >= s.log.len() {
        let attempted = config.attempted(s, caller, now, arg);
        let may = may_move(s.tokens, spender_of(caller, arg), config.window_ceiling(now));
        let handed = attempted.filter(may);
        let id = handed[k - s.log.len()];
        attempted.lemma_filter_pred(may, k - s.log.len());
        attempted.lemma_filter_contains_rev(may, id);
        assert(arg.token_ids.contains(id)) by {
            let j = attempted.index_of(id);
            lemma_first_where(arg.token_ids, config.is_duplicate(s, caller, now, arg));
            assert(arg.token_ids[j] == id);
        }
    }
}

/// A mint and an approval leave the log as it was.
pub proof fn lemma_only_transfers_are_logged(
    config: Config,
    s: LedgerView,
    caller: Principal,
    token: TokenView,
    arg: ApprovalArgsView,
)
    ensures
        config.mint_state(s, caller, token).log == s.log,
        config.approve_state(s, caller, arg).log == s.log,
{
}

/// A transfer keeps every token under its id and the supply as it was: it
/// changes owners and approvals only.
pub proof fn lemma_transfer_keeps_tokens(
    config: Config,
    s: LedgerView,
    caller: Principal,
    now: u64,
    arg: TransferArgsView,
)
    requires
        s.wf(),
    ensures
        config.transfer_state(s, caller, now, arg).wf(),
        config.transfer_state(s, caller, now, arg).tokens.dom() == s.tokens.dom(),
        config.transfer_state(s, caller, now, arg).total_supply == s.total_supply,
{
    assert(config.transfer_state(s, caller, now, arg).tokens.dom() =~= s.tokens.dom());
}

/// An approval that succeeds lets its spender move every token it covers,
/// at every instant up to its expiry, and takes no approval away.
pub proof fn lemma_approved_spender_may_transfer(
    config: Config,
    s: LedgerView,
    caller: Principal,
    arg: ApprovalArgsView,
    id: u128,
    at: int,
)
    requires
        config.approve_result(s, caller, arg) is Ok,
        s.tokens.contains_key(id),
        grants(s, approver_of(caller), arg.token_ids, id) > 0,
        arg.expires_at matches Some(expiry) ==> at <= expiry,
    ensures
        config.approve_state(s, caller, arg).tokens[id].may_transfer(approval_of(arg).account, at),
        s.tokens[id].approvals.is_prefix_of(config.approve_state(s, caller, arg).tokens[id].approvals),
{
    let after = config.approve_state(s, caller, arg).tokens[id];
    let before = s.tokens[id].approvals.len() as int;
    assert(after.approvals[before] == approval_of(arg));
    assert(after.approvals[before].covers(approval_of(arg).account, at));
}

/// An approval keeps every token under its id, with its owner, and the
/// supply as it was.
pub proof fn lemma_approve_keeps_tokens(config: Config, s: LedgerView, caller: Principal, arg: ApprovalArgsView)
    requires
        s.wf(),
    ensures
        config.approve_state(s, caller, arg).wf(),
        config.approve_state(s, caller, arg).tokens.dom() == s.tokens.dom(),
        config.approve_state(s, caller, arg).total_supply == s.total_supply,
        forall|id: u128|
            s.tokens.contains_key(id) ==> (#[trigger] config.approve_state(s, caller, arg).tokens[id]).owner
                == s.tokens[id].owner,
{
    assert(config.approve_state(s, caller, arg).tokens.dom() =~= s.tokens.dom());
}

} // verus!
