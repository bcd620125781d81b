//! Approvals: an owner lets another account move some of its tokens.
//!
//! A call is judged as a whole before it changes anything: either every
//! token it names gets the approval, or none does.

use crate::config::Config;
use crate::dedup::{first_where, lemma_first_where, lemma_first_where_is, lemma_first_where_none};
use crate::errors::{ApprovalError, ApprovalErrorView, Fatal, FatalView};
use crate::ledger::{get_tx_id, increment_tx_id, Ledger, LedgerView};
use crate::store::{owned_by, strictly_ascending};
use crate::token::{Approval, TokenView};
use crate::transfer::{fatal_view, is_unknown, lemma_filter_empty};
use crate::types::{Account, ApprovalArgs, ApprovalArgsView, Principal};
use vstd::prelude::*;

verus! {

/// How often `id` stands in `ids`.
pub open spec fn occurrences(ids: Seq<u128>, id: u128) -> nat
    decreases ids.len(),
{
    if ids.len() == 0 {
        0
    } else {
        occurrences(ids.drop_last(), id) + if ids.last() == id {
            1nat
        } else {
            0nat
        }
    }
}

/// The account that approves: the caller, without a sub-identity.
pub open spec fn approver_of(caller: Principal) -> Account {
    Account { owner: caller, subaccount: None }
}

/// The approval that a request asks for.
pub open spec fn approval_of(arg: ApprovalArgsView) -> Approval {
    Approval { expires_at: arg.expires_at, account: Account { owner: arg.spender, subaccount: None } }
}

/// The ids of the tokens that stand in the way of an approval: the spender
/// owns the token, or the approver does not.
pub open spec fn offends(tokens: Map<u128, TokenView>, approver: Account, spender: Account) -> spec_fn(
    u128,
) -> bool {
    |id: u128| tokens[id].owner == spender || tokens[id].owner != approver
}

/// How often a request approves the token `id`: as often as it names the id,
/// or once for each token of the approver where it names none.
pub open spec fn grants(s: LedgerView, approver: Account, token_ids: Option<Seq<u128>>, id: u128) -> nat {
    match token_ids {
        Some(ids) => occurrences(ids, id),
        None => if owned_by(s.tokens, approver).contains(id) {
            1
        } else {
            0
        },
    }
}

/// The tokens once each has `count` more approvals, all of them `approval`.
pub open spec fn approved_tokens(
    tokens: Map<u128, TokenView>,
    approval: Approval,
    count: spec_fn(u128) -> nat,
) -> Map<u128, TokenView> {
    Map::new(
        |id: u128| tokens.contains_key(id),
        |id: u128|
            TokenView {
                approvals: tokens[id].approvals + Seq::new(count(id), |i: int| approval),
                ..tokens[id]
            },
    )
}

/// What an approval answers, as contracts speak of it.
pub open spec fn approval_answer(r: Result<u128, ApprovalError>) -> Result<u128, ApprovalErrorView> {
    match r {
        Ok(tx_id) => Ok(tx_id),
        Err(e) => Err(e@),
    }
}

impl Config {
    /// The condition that ends an approval without an answer: the request
    /// names ids that no token has; it names no token, or none and the caller
    /// owns none; or the first token in its way belongs to the spender.
    pub open spec fn approve_fatal(&self, s: LedgerView, caller: Principal, arg: ApprovalArgsView) -> Option<
        FatalView,
    > {
        let approver = approver_of(caller);
        let spender = approval_of(arg).account;
        match arg.token_ids {
            Some(ids) => {
                if ids.filter(is_unknown(s.tokens)).len() > 0 {
                    Some(FatalView::InvalidTokenIds { token_ids: ids.filter(is_unknown(s.tokens)) })
                } else if ids.len() == 0 {
                    Some(FatalView::NoTokensAvailable)
                } else {
                    match first_where(ids, offends(s.tokens, approver, spender)) {
                        Some(i) => if s.tokens[ids[i]].owner == spender {
                            Some(FatalView::SelfApprove)
                        } else {
                            None
                        },
                        None => None,
                    }
                }
            },
            None => {
                if owned_by(s.tokens, approver) == Set::<u128>::empty() {
                    Some(FatalView::NoTokensAvailable)
                } else if approver == spender {
                    Some(FatalView::SelfApprove)
                } else {
                    None
                }
            },
        }
    }

    /// What `approve` answers: the first token named that the caller does not
    /// own, or the id of this transaction.
    pub open spec fn approve_result(&self, s: LedgerView, caller: Principal, arg: ApprovalArgsView) -> Result<
        u128,
        ApprovalErrorView,
    > {
        let approver = approver_of(caller);
        let spender = approval_of(arg).account;
        match arg.token_ids {
            Some(ids) => match first_where(ids, offends(s.tokens, approver, spender)) {
                Some(i) => Err(ApprovalErrorView::Unauthorized { token_ids: seq![ids[i]] }),
                None => Ok((s.tx_id + 1) as u128),
            },
            None => Ok((s.tx_id + 1) as u128),
        }
    }

    /// The ledger after `approve`: on success every token that the request
    /// covers has the approval once more for each time it is covered, after
    /// the approvals it had; else the ledger is as before.
    pub open spec fn approve_state(&self, s: LedgerView, caller: Principal, arg: ApprovalArgsView) -> LedgerView {
        if self.approve_result(s, caller, arg) is Ok {
            LedgerView {
                tokens: approved_tokens(
                    s.tokens,
                    approval_of(arg),
                    |id: u128| grants(s, approver_of(caller), arg.token_ids, id),
                ),
                tx_id: (s.tx_id + 1) as u128,
                ..s
            }
        } else {
            s
        }
    }
}

/// An id stands at most once in a list that ascends strictly.
pub proof fn lemma_occurrences_ascending(ids: Seq<u128>, id: u128)
    requires
        strictly_ascending(ids),
    ensures
        occurrences(ids, id) == if ids.contains(id) {
            1nat
        } else {
            0nat
        },
    decreases ids.len(),
{
    if ids.len() > 0 {
        let init = ids.drop_last();
        lemma_occurrences_ascending(init, id);
        if init.contains(id) {
            let k = init.index_of(id);
            assert(ids[k] == id);
            assert(ids[k] < ids[ids.len() - 1]);
        } else if ids.last() == id {
            assert(ids[ids.len() - 1] == id);
        } else if ids.contains(id) {
            let k = ids.index_of(id);
            assert(init[k] == id);
        }
    }
}

/// Counting one id more.
pub proof fn lemma_occurrences_take(ids: Seq<u128>, i: int, id: u128)
    requires
        0 <= i < ids.len(),
    ensures
        occurrences(ids.take(i + 1), id) == occurrences(ids.take(i), id) + if ids[i] == id {
            1nat
        } else {
            0nat
        },
{
    assert(ids.take(i + 1).drop_last() =~= ids.take(i));
}

/// The first of `ids` that stands in the way of an approval, if there is one.
fn first_offence(ledger: &Ledger, ids: &Vec<u128>, approver: &Account, spender: &Account) -> (r: Option<
    usize,
>)
    requires
        ledger.wf(),
        forall|i: int| 0 <= i < ids@.len() ==> ledger@.tokens.contains_key(#[trigger] ids@[i]),
    ensures
        match r {
            Some(i) => i < ids@.len() && first_where(
                ids@,
                offends(ledger@.tokens, *approver, *spender),
            ) == Some(i as int),
            None => first_where(ids@, offends(ledger@.tokens, *approver, *spender)) is None,
        },
{
    let ghost p = offends(ledger@.tokens, *approver, *spender);
    let mut i: usize = 0;
    while i < ids.len()
        invariant
            i <= ids@.len(),
            ledger.wf(),
            forall|i: int| 0 <= i < ids@.len() ==> ledger@.tokens.contains_key(#[trigger] ids@[i]),
            p == offends(ledger@.tokens, *approver, *spender),
            forall|j: int| 0 <= j < i ==> !p(#[trigger] ids@[j]),
        decreases ids@.len() - i,
    {
        let owner = ledger.tokens.owner_of(&ids[i]);
        if owner == *spender || owner != *approver {
            proof {
                lemma_first_where_is(ids@, p, i as int);
            }
            return Some(i);
        }
        i += 1;
    }
    proof {
        lemma_first_where_none(ids@, p);
    }
    None
}

/// Adds `approval` to each token of `ids`, once for each time it is named.
fn grant(ledger: &mut Ledger, ids: &Vec<u128>, approver: &Account, approval: Approval)
    requires
        old(ledger).wf(),
        forall|i: int|
            0 <= i < ids@.len() ==> old(ledger)@.tokens.contains_key(#[trigger] ids@[i])
                && !offends(old(ledger)@.tokens, *approver, approval.account)(ids@[i]),
    ensures
        final(ledger).wf(),
        final(ledger)@ == (LedgerView {
            tokens: approved_tokens(
                old(ledger)@.tokens,
                approval,
                |id: u128| occurrences(ids@, id),
            ),
            ..old(ledger)@
        }),
{
    let ghost s = ledger@;
    proof {
        ledger.tokens.lemma_wf();
        assert(ids@.take(0) =~= Seq::<u128>::empty());
        assert(ledger@.tokens =~= approved_tokens(
            s.tokens,
            approval,
            |id: u128| occurrences(ids@.take(0), id),
        )) by {
            assert forall|id: u128| s.tokens.contains_key(id) implies s.tokens[id].approvals
                =~= s.tokens[id].approvals + Seq::new(
                occurrences(ids@.take(0), id),
                |i: int| approval,
            ) by {}
        }
    }
    let mut i: usize = 0;
    while i < ids.len()
        invariant
            i <= ids@.len(),
            ledger.wf(),
            s.tokens.dom().finite(),
            forall|i: int|
                0 <= i < ids@.len() ==> s.tokens.contains_key(#[trigger] ids@[i]) && !offends(
                    s.tokens,
                    *approver,
                    approval.account,
                )(ids@[i]),
            ledger@.tokens == approved_tokens(
                s.tokens,
                approval,
                |id: u128| occurrences(ids@.take(i as int), id),
            ),
            ledger@.log == s.log,
            ledger@.tx_id == s.tx_id,
            ledger@.total_supply == s.total_supply,
        decreases ids@.len() - i,
    {
        let id = ids[i];
        let ghost before = ledger@.tokens;
        proof {
            assert(!offends(s.tokens, *approver, approval.account)(ids@[i as int]));
            assert(before[id].owner == s.tokens[id].owner);
        }
        let granted = ledger.tokens.approve_token(&id, approver, approval);
        proof {
            assert(granted is Ok);
            let after = approved_tokens(
                s.tokens,
                approval,
                |x: u128| occurrences(ids@.take(i + 1), x),
            );
            assert forall|x: u128| after.contains_key(x) implies ledger@.tokens[x] == after[x] by {
                lemma_occurrences_take(ids@, i as int, x);
                if x == id {
                    let n = occurrences(ids@.take(i as int), x);
                    assert(before[x].approvals.push(approval) =~= s.tokens[x].approvals + Seq::new(
                        n + 1,
                        |k: int| approval,
                    ));
                }
            }
            assert(ledger@.tokens =~= after);
            assert(ledger@.tokens.dom() =~= s.tokens.dom());
        }
        i += 1;
    }
    proof {
        assert(ids@.take(i as int) =~= ids@);
    }
}

impl Config {
    /// Names the fatal condition on which `approve` must not be called, if
    /// there is one.
    pub fn validate_approve(&self, ledger: &Ledger, caller: &Principal, arg: &ApprovalArgs) -> (r: Option<
        Fatal,
    >)
        requires
            ledger.wf(),
        ensures
            fatal_view(r) == self.approve_fatal(ledger@, *caller, arg@),
    {
        let approver = Account::from_principal(caller);
        let spender = Account::from_principal(&arg.spender);
        match &arg.token_ids {
            Some(ids) => {
                let token_ids = self.id_validity_check(ledger, ids);
                if token_ids.len() > 0 {
                    return Some(Fatal::InvalidTokenIds { token_ids });
                }
                if ids.len() == 0 {
                    return Some(Fatal::NoTokensAvailable);
                }
                proof {
                    lemma_filter_empty(ids@, is_unknown(ledger@.tokens));
                }
                match first_offence(ledger, ids, &approver, &spender) {
                    Some(i) => {
                        if ledger.tokens.owner_of(&ids[i]) == spender {
                            Some(Fatal::SelfApprove)
                        } else {
                            None
                        }
                    },
                    None => None,
                }
            },
            None => {
                let owned = self.tokens_of(ledger, &approver);
                if owned.len() == 0 {
                    assert(owned@.to_set() =~= Set::<u128>::empty());
                    return Some(Fatal::NoTokensAvailable);
                }
                assert(owned@.to_set().contains(owned@[0]));
                if approver == spender {
                    Some(Fatal::SelfApprove)
                } else {
                    None
                }
            },
        }
    }

    /// Lets `arg.spender` move the tokens that the request names, or every
    /// token of `caller` where it names none, and answers the id of this
    /// transaction.
    pub fn approve(&self, ledger: &mut Ledger, caller: &Principal, arg: ApprovalArgs) -> (r: Result<
        u128,
        ApprovalError,
    >)
        requires
            old(ledger).wf(),
            old(ledger).tx_id < u128::MAX,
            self.approve_fatal(old(ledger)@, *caller, arg@) is None,
        ensures
            final(ledger).wf(),
            approval_answer(r) == self.approve_result(old(ledger)@, *caller, arg@),
            final(ledger)@ == self.approve_state(old(ledger)@, *caller, arg@),
            r matches Ok(tx_id) ==> tx_id == old(ledger).tx_id + 1 && final(ledger).tx_id == tx_id,
            r is Err ==> *final(ledger) == *old(ledger),
    {
        let approver = Account::from_principal(caller);
        let spender = Account::from_principal(&arg.spender);
        let approval = Approval::new(spender, arg.expires_at);
        let ghost s = ledger@;
        let ghost requested = arg@.token_ids;
        let token_ids = match arg.token_ids {
            None => {
                let owned = self.tokens_of(ledger, &approver);
                proof {
                    assert forall|i: int| 0 <= i < owned@.len() implies s.tokens.contains_key(
                        #[trigger] owned@[i],
                    ) && !offends(s.tokens, approver, spender)(owned@[i]) by {
                        assert(owned@.to_set().contains(owned@[i]));
                    }
                }
                owned
            },
            Some(ids) => {
                proof {
                    lemma_filter_empty(ids@, is_unknown(s.tokens));
                }
                match first_offence(ledger, &ids, &approver, &spender) {
                    Some(i) => {
                        let mut token_ids: Vec<u128> = Vec::new();
                        token_ids.push(ids[i]);
                        assert(token_ids@ =~= seq![ids@[i as int]]);
                        return Err(ApprovalError::Unauthorized { token_ids });
                    },
                    None => {
                        proof {
                            lemma_first_where(ids@, offends(s.tokens, approver, spender));
                        }
                    },
                }
                ids
            },
        };
        grant(ledger, &token_ids, &approver, approval);
        increment_tx_id(ledger);
        proof {
            let expected = self.approve_state(s, *caller, arg@);
            assert forall|id: u128| s.tokens.contains_key(id) implies occurrences(token_ids@, id)
                == grants(s, approver, requested, id) by {
                if requested is None {
                    lemma_occurrences_ascending(token_ids@, id);
                }
            }
            assert(ledger@.tokens =~= expected.tokens);
        }
        Ok(get_tx_id(ledger))
    }
}

} // verus!
