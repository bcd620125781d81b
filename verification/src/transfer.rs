//! The transfer engine: who may move a batch of tokens, when a request is
//! too old, too new or a replay, and what a batch leaves behind.
//!
//! A request is judged against the ledger as the call finds it. An atomic
//! batch changes the ledger only when the whole batch is in order. A batch
//! that is not atomic hands over, in the order given, every token that the
//! caller may move, up to the first token that replays an earlier transfer.

use crate::config::Config;
use crate::dedup::{find_replay, first_where, lemma_first_where_is, lemma_first_where_none, replayed};
use crate::errors::{Fatal, FatalView, TransferError, TransferErrorView};
use crate::ledger::{get_tx_id, increment_tx_id, log_view, Ledger, LedgerView, TransferLog, TransferLogView};
use crate::token::TokenView;
use crate::types::{blob_view, Account, Blob, Principal, TransferArgs, TransferArgsView};
use vstd::prelude::*;

verus! {

/// The account that a request speaks for: the caller, under the sub-identity
/// that the request names.
pub open spec fn spender_of(caller: Principal, arg: TransferArgsView) -> Account {
    Account { owner: caller, subaccount: arg.spender_subaccount }
}

/// Whether the batch is to change the ledger as a whole or not at all. It is,
/// unless the request says otherwise.
pub open spec fn is_atomic(arg: TransferArgsView) -> bool {
    arg.is_atomic != Some(false)
}

/// The ids that stand for no token.
pub open spec fn is_unknown(tokens: Map<u128, TokenView>) -> spec_fn(u128) -> bool {
    |id: u128| !tokens.contains_key(id)
}

/// The ids of the tokens that `account` may move at the instant `at`.
pub open spec fn may_move(tokens: Map<u128, TokenView>, account: Account, at: int) -> spec_fn(
    u128,
) -> bool {
    |id: u128| tokens[id].may_transfer(account, at)
}

/// The ids of the tokens that `account` may not move at the instant `at`.
pub open spec fn may_not_move(tokens: Map<u128, TokenView>, account: Account, at: int) -> spec_fn(
    u128,
) -> bool {
    |id: u128| !tokens[id].may_transfer(account, at)
}

/// The log entry of a token handed over at `now`.
pub open spec fn entry_of(now: u64, memo: Option<Seq<u8>>, from: Account, to: Account) -> spec_fn(
    u128,
) -> TransferLogView {
    |id: u128| TransferLogView { id, at: now, memo, from, to }
}

/// Whether the token at position `j` of `ids` belongs to `to` when its turn
/// comes: it did from the start, or the batch has handed it over before.
pub open spec fn owned_at_turn(
    tokens: Map<u128, TokenView>,
    ids: Seq<u128>,
    j: int,
    account: Account,
    to: Account,
    at: int,
) -> bool {
    tokens[ids[j]].owner == to || (ids.take(j).contains(ids[j]) && tokens[ids[j]].may_transfer(
        account,
        at,
    ))
}

/// Whether handing over `ids` in turn would come to a token that belongs to
/// `to` already.
pub open spec fn meets_owner(
    tokens: Map<u128, TokenView>,
    ids: Seq<u128>,
    account: Account,
    to: Account,
    at: int,
) -> bool {
    exists|j: int| 0 <= j < ids.len() && #[trigger] owned_at_turn(tokens, ids, j, account, to, at)
}

/// The ledger once every token of `ids` that `account` may move at `at` is
/// handed to `to`: such a token belongs to `to` and has no approvals, and the
/// log has grown by one entry for each, in the order of `ids`.
pub open spec fn moved(
    s: LedgerView,
    ids: Seq<u128>,
    account: Account,
    to: Account,
    at: int,
    now: u64,
    memo: Option<Seq<u8>>,
) -> LedgerView {
    LedgerView {
        tokens: Map::new(
            |id: u128| s.tokens.contains_key(id),
            |id: u128|
                if ids.contains(id) && s.tokens[id].may_transfer(account, at) {
                    s.tokens[id].transferred(to)
                } else {
                    s.tokens[id]
                },
        ),
        log: s.log + ids.filter(may_move(s.tokens, account, at)).map_values(
            entry_of(now, memo, account, to),
        ),
        ..s
    }
}

/// What a transfer answers, as contracts speak of it.
pub open spec fn transfer_answer(r: Result<u128, TransferError>) -> Result<u128, TransferErrorView> {
    match r {
        Ok(tx_id) => Ok(tx_id),
        Err(e) => Err(e@),
    }
}

/// The fatal condition that a check found, as contracts speak of it.
pub open spec fn fatal_view(r: Option<Fatal>) -> Option<FatalView> {
    match r {
        Some(fatal) => Some(fatal@),
        None => None,
    }
}

impl Config {
    /// The instant before which a request is too old at `now`.
    pub open spec fn window_floor(&self, now: u64) -> int {
        now - self.tx_window - self.permitted_drift
    }

    /// The instant after which a request is from the future at `now`. It is
    /// also the instant at which approvals are judged.
    pub open spec fn window_ceiling(&self, now: u64) -> int {
        now + self.permitted_drift
    }

    /// Whether the request is dated before the window.
    pub open spec fn too_old(&self, now: u64, arg: TransferArgsView) -> bool {
        arg.created_at_time matches Some(t) && t < self.window_floor(now)
    }

    /// Whether the request is dated after the window.
    pub open spec fn in_future(&self, now: u64, arg: TransferArgsView) -> bool {
        arg.created_at_time matches Some(t) && t > self.window_ceiling(now)
    }

    /// The position in the log of the earlier transfer that the request
    /// repeats for the token `id`. An undated request repeats none.
    pub open spec fn duplicate_of(
        &self,
        s: LedgerView,
        caller: Principal,
        now: u64,
        arg: TransferArgsView,
        id: u128,
    ) -> Option<int> {
        match arg.created_at_time {
            Some(t) => first_where(
                s.log,
                replayed(self.window_floor(now), t, arg.memo, id, spender_of(caller, arg), arg.to),
            ),
            None => None,
        }
    }

    /// The ids for which the request repeats an earlier transfer.
    pub open spec fn is_duplicate(
        &self,
        s: LedgerView,
        caller: Principal,
        now: u64,
        arg: TransferArgsView,
    ) -> spec_fn(u128) -> bool {
        |id: u128| self.duplicate_of(s, caller, now, arg, id) is Some
    }

    /// The first position of the batch at which the request repeats an
    /// earlier transfer.
    pub open spec fn first_duplicate(
        &self,
        s: LedgerView,
        caller: Principal,
        now: u64,
        arg: TransferArgsView,
    ) -> Option<int> {
        first_where(arg.token_ids, self.is_duplicate(s, caller, now, arg))
    }

    /// The part of the batch that comes before the first repeated transfer.
    pub open spec fn attempted(
        &self,
        s: LedgerView,
        caller: Principal,
        now: u64,
        arg: TransferArgsView,
    ) -> Seq<u128> {
        match self.first_duplicate(s, caller, now, arg) {
            Some(i) => arg.token_ids.take(i),
            None => arg.token_ids,
        }
    }

    /// The ids of the batch, in its order, that the caller may not move.
    pub open spec fn unauthorized(
        &self,
        s: LedgerView,
        caller: Principal,
        now: u64,
        arg: TransferArgsView,
    ) -> Seq<u128> {
        arg.token_ids.filter(
            may_not_move(s.tokens, spender_of(caller, arg), self.window_ceiling(now)),
        )
    }

    /// What `transfer` answers: the first of these that applies. The request
    /// is too old; it is from the future; it repeats an earlier transfer, and
    /// the first token of the batch for which it does names that transfer;
    /// the caller may not move some of the tokens. Else the id of this
    /// transaction.
    pub open spec fn transfer_result(
        &self,
        s: LedgerView,
        caller: Principal,
        now: u64,
        arg: TransferArgsView,
    ) -> Result<u128, TransferErrorView> {
        if self.too_old(now, arg) {
            Err(TransferErrorView::TooOld)
        } else if self.in_future(now, arg) {
            Err(TransferErrorView::CreatedInFuture { ledger_time: now })
        } else if let Some(i) = self.first_duplicate(s, caller, now, arg) {
            Err(
                TransferErrorView::Duplicate {
                    duplicate_of: self.duplicate_of(
                        s,
                        caller,
                        now,
                        arg,
                        arg.token_ids[i],
                    ).unwrap() as u128,
                },
            )
        } else if self.unauthorized(s, caller, now, arg).len() > 0 {
            Err(
                TransferErrorView::Unauthorized {
                    token_ids: self.unauthorized(s, caller, now, arg),
                },
            )
        } else {
            Ok((s.tx_id + 1) as u128)
        }
    }

    /// Whether the call changes anything: the request is dated within the
    /// window, and the batch is either not atomic or in order as a whole.
    pub open spec fn commits(
        &self,
        s: LedgerView,
        caller: Principal,
        now: u64,
        arg: TransferArgsView,
    ) -> bool {
        &&& !self.too_old(now, arg)
        &&& !self.in_future(now, arg)
        &&& is_atomic(arg) ==> self.transfer_result(s, caller, now, arg) is Ok
    }

    /// The ledger after `transfer`: where the call commits, the part of the
    /// batch that it attempts is `moved`, and a call that succeeds is counted
    /// as a transaction; else the ledger is as before.
    pub open spec fn transfer_state(
        &self,
        s: LedgerView,
        caller: Principal,
        now: u64,
        arg: TransferArgsView,
    ) -> LedgerView {
        if self.commits(s, caller, now, arg) {
            let after = moved(
                s,
                self.attempted(s, caller, now, arg),
                spender_of(caller, arg),
                arg.to,
                self.window_ceiling(now),
                now,
                arg.memo,
            );
            if self.transfer_result(s, caller, now, arg) is Ok {
                LedgerView { tx_id: (s.tx_id + 1) as u128, ..after }
            } else {
                after
            }
        } else {
            s
        }
    }

    /// The condition that ends a transfer without an answer: the batch is
    /// empty; it names ids that no token has; or the call would change the
    /// ledger and come to a token that belongs to the destination already.
    pub open spec fn transfer_fatal(
        &self,
        s: LedgerView,
        caller: Principal,
        now: u64,
        arg: TransferArgsView,
    ) -> Option<FatalView> {
        if arg.token_ids.len() == 0 {
            Some(FatalView::NoTokenProvided)
        } else if arg.token_ids.filter(is_unknown(s.tokens)).len() > 0 {
            Some(FatalView::InvalidTokenIds { token_ids: arg.token_ids.filter(is_unknown(s.tokens)) })
        } else if self.commits(s, caller, now, arg) && meets_owner(
            s.tokens,
            self.attempted(s, caller, now, arg),
            spender_of(caller, arg),
            arg.to,
            self.window_ceiling(now),
        ) {
            Some(FatalView::SelfTransfer)
        } else {
            None
        }
    }
}

/// Where none of `ids` satisfies `p`, the filter leaves nothing, and the
/// other way round.
pub proof fn lemma_filter_empty<T>(ids: Seq<T>, p: spec_fn(T) -> bool)
    ensures
        ids.filter(p).len() == 0 <==> forall|i: int| 0 <= i < ids.len() ==> !p(#[trigger] ids[i]),
    decreases ids.len(),
{
    reveal(Seq::filter);
    if ids.len() > 0 {
        let init = ids.drop_last();
        lemma_filter_empty(init, p);
        if p(ids.last()) {
            assert(p(ids[ids.len() - 1]));
        } else if init.filter(p).len() == 0 {
            assert forall|i: int| 0 <= i < ids.len() implies !p(#[trigger] ids[i]) by {
                if i < ids.len() - 1 {
                    assert(init[i] == ids[i]);
                }
            }
        } else {
            let i = choose|i: int| 0 <= i < init.len() && p(#[trigger] init[i]);
            assert(p(ids[i]));
        }
    }
}

/// Filtering one element more.
pub proof fn lemma_filter_take<T>(ids: Seq<T>, p: spec_fn(T) -> bool, i: int)
    requires
        0 <= i < ids.len(),
    ensures
        ids.take(i + 1).filter(p) == if p(ids[i]) {
            ids.take(i).filter(p).push(ids[i])
        } else {
            ids.take(i).filter(p)
        },
{
    reveal(Seq::filter);
    assert(ids.take(i + 1).drop_last() =~= ids.take(i));
}

impl Config {
    /// The ids of `ids`, in its order, that no token has.
    pub fn id_validity_check(&self, ledger: &Ledger, ids: &Vec<u128>) -> (r: Vec<u128>)
        requires
            ledger.wf(),
        ensures
            r@ == ids@.filter(is_unknown(ledger@.tokens)),
    {
        let mut invalid_ids: Vec<u128> = Vec::new();
        let mut i: usize = 0;
        proof {
            reveal(Seq::filter);
            assert(ids@.take(0) =~= Seq::<u128>::empty());
        }
        while i < ids.len()
            invariant
                i <= ids@.len(),
                ledger.wf(),
                invalid_ids@ == ids@.take(i as int).filter(is_unknown(ledger@.tokens)),
            decreases ids@.len() - i,
        {
            proof {
                lemma_filter_take(ids@, is_unknown(ledger@.tokens), i as int);
            }
            if !ledger.tokens.contains_key(&ids[i]) {
                invalid_ids.push(ids[i]);
            }
            i += 1;
        }
        assert(ids@.take(i as int) =~= ids@);
        invalid_ids
    }

    /// The ids of the batch, in its order, that the caller may not move.
    fn unauthorized_ids(&self, ledger: &Ledger, caller: &Principal, now: u64, arg: &TransferArgs) -> (r:
        Vec<u128>)
        requires
            ledger.wf(),
            forall|i: int| 0 <= i < arg.token_ids@.len() ==> ledger@.tokens.contains_key(#[trigger] arg.token_ids@[i]),
        ensures
            r@ == self.unauthorized(ledger@, *caller, now, arg@),
    {
        let spender = Account::new(*caller, arg.spender_subaccount);
        let ceiling: i128 = now as i128 + self.permitted_drift as i128;
        let ghost p = may_not_move(ledger@.tokens, spender, ceiling as int);
        let mut unauthorized: Vec<u128> = Vec::new();
        let mut i: usize = 0;
        proof {
            reveal(Seq::filter);
            assert(arg.token_ids@.take(0) =~= Seq::<u128>::empty());
        }
        while i < arg.token_ids.len()
            invariant
                i <= arg.token_ids@.len(),
                ledger.wf(),
                forall|i: int| 0 <= i < arg.token_ids@.len() ==> ledger@.tokens.contains_key(#[trigger] arg.token_ids@[i]),
                p == may_not_move(ledger@.tokens, spender, ceiling as int),
                unauthorized@ == arg.token_ids@.take(i as int).filter(p),
            decreases arg.token_ids@.len() - i,
        {
            proof {
                lemma_filter_take(arg.token_ids@, p, i as int);
            }
            let id = arg.token_ids[i];
            if !ledger.tokens.get(&id).may_transfer_at(ceiling, &spender) {
                unauthorized.push(id);
            }
            i += 1;
        }
        assert(arg.token_ids@.take(i as int) =~= arg.token_ids@);
        unauthorized
    }

    /// The first position of the batch at which the request repeats an
    /// earlier transfer, with the position of that transfer in the log.
    fn find_duplicate(&self, ledger: &Ledger, caller: &Principal, now: u64, arg: &TransferArgs) -> (r:
        Option<(usize, usize)>)
        ensures
            match r {
                Some((i, k)) => {
                    &&& self.first_duplicate(ledger@, *caller, now, arg@) == Some(i as int)
                    &&& i < arg.token_ids@.len()
                    &&& self.duplicate_of(ledger@, *caller, now, arg@, arg.token_ids@[i as int])
                        == Some(k as int)
                },
                None => self.first_duplicate(ledger@, *caller, now, arg@) is None,
            },
    {
        let ghost p = self.is_duplicate(ledger@, *caller, now, arg@);
        match arg.created_at_time {
            None => {
                proof {
                    lemma_first_where_none(arg.token_ids@, p);
                }
                None
            },
            Some(created_at) => {
                let spender = Account::new(*caller, arg.spender_subaccount);
                let floor: i128 = now as i128 - self.tx_window as i128 - self.permitted_drift as i128;
                let mut i: usize = 0;
                while i < arg.token_ids.len()
                    invariant
                        i <= arg.token_ids@.len(),
                        arg.created_at_time == Some(created_at),
                        spender == spender_of(*caller, arg@),
                        floor == self.window_floor(now),
                        p == self.is_duplicate(ledger@, *caller, now, arg@),
                        forall|j: int| 0 <= j < i ==> !p(#[trigger] arg.token_ids@[j]),
                    decreases arg.token_ids@.len() - i,
                {
                    let found = find_replay(
                        &ledger.log,
                        floor,
                        created_at,
                        &arg.memo,
                        arg.token_ids[i],
                        &spender,
                        &arg.to,
                    );
                    if let Some(k) = found {
                        proof {
                            lemma_first_where_is(arg.token_ids@, p, i as int);
                        }
                        return Some((i, k));
                    }
                    i += 1;
                }
                proof {
                    lemma_first_where_none(arg.token_ids@, p);
                }
                None
            },
        }
    }
}

/// What one more id adds to a prefix of `ids`.
pub proof fn lemma_take_contains(ids: Seq<u128>, i: int, id: u128)
    requires
        0 <= i < ids.len(),
    ensures
        ids.take(i + 1).contains(id) <==> ids.take(i).contains(id) || ids[i] == id,
{
    if ids.take(i + 1).contains(id) {
        let k = ids.take(i + 1).index_of(id);
        if k < i {
            assert(ids.take(i)[k] == id);
        }
    }
    if ids.take(i).contains(id) {
        let k = ids.take(i).index_of(id);
        assert(ids.take(i + 1)[k] == id);
    }
    if ids[i] == id {
        assert(ids.take(i + 1)[i] == id);
    }
}

/// Whether `id` stands among the first `upto` of `ids`.
fn occurs_before(ids: &Vec<u128>, upto: usize, id: u128) -> (r: bool)
    requires
        upto <= ids@.len(),
    ensures
        r == ids@.take(upto as int).contains(id),
{
    let mut k: usize = 0;
    while k < upto
        invariant
            k <= upto <= ids@.len(),
            forall|j: int| 0 <= j < k ==> ids@[j] != id,
        decreases upto - k,
    {
        if ids[k] == id {
            assert(ids@.take(upto as int)[k as int] == id);
            return true;
        }
        k += 1;
    }
    assert(!ids@.take(upto as int).contains(id)) by {
        if ids@.take(upto as int).contains(id) {
            let j = ids@.take(upto as int).index_of(id);
            assert(ids@[j] == id);
        }
    }
    false
}

/// Whether handing over the first `stop` of `ids` in turn would come to a
/// token that belongs to `to` already.
fn would_meet_owner(
    ledger: &Ledger,
    ids: &Vec<u128>,
    stop: usize,
    spender: &Account,
    to: &Account,
    ceiling: i128,
) -> (r: bool)
    requires
        ledger.wf(),
        stop <= ids@.len(),
        forall|i: int| 0 <= i < stop ==> ledger@.tokens.contains_key(#[trigger] ids@[i]),
    ensures
        r == meets_owner(ledger@.tokens, ids@.take(stop as int), *spender, *to, ceiling as int),
{
    let ghost batch = ids@.take(stop as int);
    let mut j: usize = 0;
    while j < stop
        invariant
            j <= stop <= ids@.len(),
            ledger.wf(),
            batch == ids@.take(stop as int),
            forall|i: int| 0 <= i < stop ==> ledger@.tokens.contains_key(#[trigger] ids@[i]),
            forall|k: int|
                0 <= k < j ==> !#[trigger] owned_at_turn(
                    ledger@.tokens,
                    batch,
                    k,
                    *spender,
                    *to,
                    ceiling as int,
                ),
        decreases stop - j,
    {
        let id = ids[j];
        let token = ledger.tokens.get(&id);
        proof {
            assert(batch[j as int] == id);
            assert(batch.take(j as int) =~= ids@.take(j as int));
        }
        if token.owner == *to || (token.may_transfer_at(ceiling, spender) && occurs_before(
            ids,
            j,
            id,
        )) {
            assert(owned_at_turn(ledger@.tokens, batch, j as int, *spender, *to, ceiling as int));
            return true;
        }
        j += 1;
    }
    false
}

/// Hands to `to` each of the first `stop` tokens of `ids` that `spender` may
/// move, and logs it.
fn hand_over(
    ledger: &mut Ledger,
    ids: &Vec<u128>,
    stop: usize,
    spender: &Account,
    to: &Account,
    ceiling: i128,
    now: u64,
    memo: &Option<Blob>,
)
    requires
        old(ledger).wf(),
        stop <= ids@.len(),
        forall|i: int| 0 <= i < stop ==> old(ledger)@.tokens.contains_key(#[trigger] ids@[i]),
        !meets_owner(old(ledger)@.tokens, ids@.take(stop as int), *spender, *to, ceiling as int),
    ensures
        final(ledger).wf(),
        final(ledger)@ == moved(
            old(ledger)@,
            ids@.take(stop as int),
            *spender,
            *to,
            ceiling as int,
            now,
            blob_view(*memo),
        ),
{
    let ghost s = ledger@;
    let ghost batch = ids@.take(stop as int);
    let ghost may = may_move(s.tokens, *spender, ceiling as int);
    let ghost entry = entry_of(now, blob_view(*memo), *spender, *to);
    proof {
        ledger.tokens.lemma_wf();
        reveal(Seq::filter);
        assert(ids@.take(0) =~= Seq::<u128>::empty());
        assert(ledger@ =~= moved(s, ids@.take(0), *spender, *to, ceiling as int, now, blob_view(*memo)));
    }
    let mut i: usize = 0;
    while i < stop
        invariant
            i <= stop <= ids@.len(),
            ledger.wf(),
            s.tokens.dom().finite(),
            s.total_supply == s.tokens.len(),
            batch == ids@.take(stop as int),
            may == may_move(s.tokens, *spender, ceiling as int),
            entry == entry_of(now, blob_view(*memo), *spender, *to),
            forall|i: int| 0 <= i < stop ==> s.tokens.contains_key(#[trigger] ids@[i]),
            !meets_owner(s.tokens, batch, *spender, *to, ceiling as int),
            ledger@ == moved(s, ids@.take(i as int), *spender, *to, ceiling as int, now, blob_view(*memo)),
        decreases stop - i,
    {
        let id = ids[i];
        let ghost before = ledger@;
        let ghost log_before = ledger.log@;
        proof {
            assert(batch[i as int] == id);
            assert(batch.take(i as int) =~= ids@.take(i as int));
            assert(!owned_at_turn(s.tokens, batch, i as int, *spender, *to, ceiling as int));
            assert(before.tokens[id] == s.tokens[id]);
            lemma_filter_take(ids@, may, i as int);
        }
        let handed = ledger.tokens.transfer_token(&id, ceiling, spender, *to);
        if handed.is_ok() {
            ledger.log.push(TransferLog { id, at: now, memo: memo.clone(), from: *spender, to: *to });
            proof {
                assert(log_view(ledger.log@) =~= log_view(log_before).push(entry(id)));
                assert(ids@.take(i + 1).filter(may).map_values(entry) =~= ids@.take(i as int).filter(
                    may,
                ).map_values(entry).push(entry(id)));
            }
        }
        proof {
            let after = moved(s, ids@.take(i + 1), *spender, *to, ceiling as int, now, blob_view(*memo));
            assert forall|x: u128| after.tokens.contains_key(x) implies ledger@.tokens[x]
                == after.tokens[x] by {
                lemma_take_contains(ids@, i as int, x);
            }
            assert(ledger@.tokens =~= after.tokens);
            assert(ledger@.log =~= after.log);
            assert(ledger@.total_supply == after.total_supply) by {
                assert(ledger@.tokens.dom() =~= s.tokens.dom());
            }
        }
        i += 1;
    }
}

impl Config {
    /// Names the fatal condition on which `transfer` must not be called, if
    /// there is one.
    pub fn validate_transfer(&self, ledger: &Ledger, caller: &Principal, now: u64, arg: &TransferArgs) -> (r:
        Option<Fatal>)
        requires
            ledger.wf(),
        ensures
            fatal_view(r) == self.transfer_fatal(ledger@, *caller, now, arg@),
    {
        if arg.token_ids.len() == 0 {
            return Some(Fatal::NoTokenProvided);
        }
        let token_ids = self.id_validity_check(ledger, &arg.token_ids);
        if token_ids.len() > 0 {
            return Some(Fatal::InvalidTokenIds { token_ids });
        }
        proof {
            lemma_filter_empty(arg.token_ids@, is_unknown(ledger@.tokens));
        }
        let floor: i128 = now as i128 - self.tx_window as i128 - self.permitted_drift as i128;
        let ceiling: i128 = now as i128 + self.permitted_drift as i128;
        if let Some(created_at) = arg.created_at_time {
            if (created_at as i128) < floor || created_at as i128 > ceiling {
                return None;
            }
        }
        let duplicate = self.find_duplicate(ledger, caller, now, arg);
        let unauthorized = self.unauthorized_ids(ledger, caller, now, arg);
        let atomic = match arg.is_atomic {
            Some(false) => false,
            _ => true,
        };
        if atomic && (duplicate.is_some() || unauthorized.len() > 0) {
            return None;
        }
        let stop = match duplicate {
            Some((i, _)) => i,
            None => arg.token_ids.len(),
        };
        let spender = Account::new(*caller, arg.spender_subaccount);
        proof {
            assert(arg.token_ids@.take(arg.token_ids@.len() as int) =~= arg.token_ids@);
        }
        if would_meet_owner(ledger, &arg.token_ids, stop, &spender, &arg.to, ceiling) {
            Some(Fatal::SelfTransfer)
        } else {
            None
        }
    }

    /// Moves the tokens of the batch to `arg.to` for `caller` at the ledger
    /// time `now`, and answers the id of this transaction.
    pub fn transfer(&self, ledger: &mut Ledger, caller: &Principal, now: u64, arg: TransferArgs) -> (r:
        Result<u128, TransferError>)
        requires
            old(ledger).wf(),
            old(ledger).tx_id < u128::MAX,
            self.transfer_fatal(old(ledger)@, *caller, now, arg@) is None,
        ensures
            final(ledger).wf(),
            transfer_answer(r) == self.transfer_result(old(ledger)@, *caller, now, arg@),
            final(ledger)@ == self.transfer_state(old(ledger)@, *caller, now, arg@),
            r matches Ok(tx_id) ==> tx_id == old(ledger).tx_id + 1 && final(ledger).tx_id == tx_id,
            r is Err ==> final(ledger).tx_id == old(ledger).tx_id,
            r is Err && is_atomic(arg@) ==> final(ledger)@ == old(ledger)@,
            r is Ok ==> forall|i: int|
                0 <= i < arg.token_ids@.len() ==> {
                    &&& (#[trigger] final(ledger)@.tokens[arg.token_ids@[i]]).owner == arg.to
                    &&& final(ledger)@.tokens[arg.token_ids@[i]].approvals.len() == 0
                },
    {
        proof {
            lemma_filter_empty(arg.token_ids@, is_unknown(ledger@.tokens));
            lemma_filter_empty(
                arg.token_ids@,
                may_not_move(ledger@.tokens, spender_of(*caller, arg@), self.window_ceiling(now)),
            );
            assert forall|i: int| 0 <= i < arg.token_ids@.len() implies arg.token_ids@.contains(
                #[trigger] arg.token_ids@[i],
            ) by {}
        }
        let floor: i128 = now as i128 - self.tx_window as i128 - self.permitted_drift as i128;
        let ceiling: i128 = now as i128 + self.permitted_drift as i128;
        if let Some(created_at) = arg.created_at_time {
            if (created_at as i128) < floor {
                return Err(TransferError::TooOld);
            }
            if created_at as i128 > ceiling {
                return Err(TransferError::CreatedInFuture { ledger_time: now });
            }
        }
        let duplicate = self.find_duplicate(ledger, caller, now, &arg);
        let unauthorized = self.unauthorized_ids(ledger, caller, now, &arg);
        let atomic = match arg.is_atomic {
            Some(false) => false,
            _ => true,
        };
        if atomic {
            if let Some((_, k)) = duplicate {
                return Err(TransferError::Duplicate { duplicate_of: k as u128 });
            }
            if unauthorized.len() > 0 {
                return Err(TransferError::Unauthorized { token_ids: unauthorized });
            }
        }
        let stop = match duplicate {
            Some((i, _)) => i,
            None => arg.token_ids.len(),
        };
        let spender = Account::new(*caller, arg.spender_subaccount);
        proof {
            assert(arg.token_ids@.take(arg.token_ids@.len() as int) =~= arg.token_ids@);
        }
        hand_over(ledger, &arg.token_ids, stop, &spender, &arg.to, ceiling, now, &arg.memo);
        if let Some((_, k)) = duplicate {
            return Err(TransferError::Duplicate { duplicate_of: k as u128 });
        }
        if unauthorized.len() > 0 {
            return Err(TransferError::Unauthorized { token_ids: unauthorized });
        }
        increment_tx_id(ledger);
        Ok(get_tx_id(ledger))
    }
}

} // verus!
