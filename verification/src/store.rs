//! The token store: every token that was ever minted, found by its id.
//!
//! The tokens are kept in one vector in ascending order of their ids, so an
//! id is found by bisection and a walk over the store meets the ids in order.
//! To its users the store is a finite map from ids to tokens.

use crate::errors::{ApprovalError, ApprovalErrorView, TransferError, TransferErrorView};
use crate::token::{Approval, Token, TokenView};
use crate::types::Account;
use vstd::prelude::*;

verus! {

/// The tokens of a collection.
#[derive(Debug)]
pub struct TokenStore {
    tokens: Vec<Token>,
}

/// Whether the ids of `tokens` ascend strictly.
pub open spec fn ascending(tokens: Seq<Token>) -> bool {
    forall|i: int, j: int| 0 <= i < j < tokens.len() ==> tokens[i].id < tokens[j].id
}

/// Whether one of `tokens` has the id `id`.
pub open spec fn has_id(tokens: Seq<Token>, id: u128) -> bool {
    exists|i: int| 0 <= i < tokens.len() && (#[trigger] tokens[i]).id == id
}

/// Where in `tokens` the id `id` stands.
pub open spec fn index_of(tokens: Seq<Token>, id: u128) -> int {
    choose|i: int| 0 <= i < tokens.len() && (#[trigger] tokens[i]).id == id
}

/// The map that a list of tokens stands for.
pub open spec fn map_of(tokens: Seq<Token>) -> Map<u128, TokenView> {
    Map::new(|id: u128| has_id(tokens, id), |id: u128| tokens[index_of(tokens, id)]@)
}

/// The ids of the tokens that `account` owns.
pub open spec fn owned_by(tokens: Map<u128, TokenView>, account: Account) -> Set<u128> {
    Set::new(|id: u128| tokens.contains_key(id) && tokens[id].owner == account)
}

/// Whether one of the first `upto` tokens has the id `id` and belongs to `account`.
pub open spec fn owned_among(tokens: Seq<Token>, upto: int, account: Account, id: u128) -> bool {
    exists|j: int| 0 <= j < upto && (#[trigger] tokens[j]).id == id && tokens[j].owner == account
}

/// Whether `ids` ascends strictly.
pub open spec fn strictly_ascending(ids: Seq<u128>) -> bool {
    forall|i: int, j: int| 0 <= i < j < ids.len() ==> ids[i] < ids[j]
}

/// In a list with ascending ids every token is the one that the map holds
/// under its id.
pub proof fn lemma_map_of_index(tokens: Seq<Token>, i: int)
    requires
        ascending(tokens),
        0 <= i < tokens.len(),
    ensures
        map_of(tokens).contains_key(tokens[i].id),
        map_of(tokens)[tokens[i].id] == tokens[i]@,
        index_of(tokens, tokens[i].id) == i,
{
    let j = index_of(tokens, tokens[i].id);
    assert(0 <= j < tokens.len() && tokens[j].id == tokens[i].id);
    if j < i {
        assert(tokens[j].id < tokens[i].id);
    } else if i < j {
        assert(tokens[i].id < tokens[j].id);
    }
}

proof fn lemma_map_of_push(tokens: Seq<Token>, token: Token)
    requires
        ascending(tokens.push(token)),
    ensures
        ascending(tokens),
        !has_id(tokens, token.id),
        map_of(tokens.push(token)) == map_of(tokens).insert(token.id, token@),
{
    let all = tokens.push(token);
    assert(ascending(tokens)) by {
        assert forall|i: int, j: int| 0 <= i < j < tokens.len() implies tokens[i].id < tokens[j].id by {
            assert(all[i].id < all[j].id);
        }
    }
    assert(!has_id(tokens, token.id)) by {
        if has_id(tokens, token.id) {
            let i = index_of(tokens, token.id);
            assert(all[i].id < all[tokens.len() as int].id);
        }
    }
    assert(map_of(all) =~= map_of(tokens).insert(token.id, token@)) by {
        assert forall|id: u128| map_of(all).contains_key(id) <==> map_of(tokens).insert(
            token.id,
            token@,
        ).contains_key(id) by {
            if has_id(all, id) {
                let i = index_of(all, id);
                if i < tokens.len() {
                    assert(tokens[i].id == id);
                }
            }
            if has_id(tokens, id) {
                let i = index_of(tokens, id);
                assert(all[i].id == id);
            }
            if id == token.id {
                assert(all[tokens.len() as int].id == id);
            }
        }
        assert forall|id: u128| map_of(all).contains_key(id) implies map_of(all)[id] == map_of(
            tokens,
        ).insert(token.id, token@)[id] by {
            let i = index_of(all, id);
            lemma_map_of_index(all, i);
            if i < tokens.len() {
                assert(tokens[i].id == id);
                lemma_map_of_index(tokens, i);
            }
        }
    }
}

/// A list of tokens with ascending ids stands for a finite map with one entry
/// for each token.
pub proof fn lemma_map_of_len(tokens: Seq<Token>)
    requires
        ascending(tokens),
    ensures
        map_of(tokens).dom().finite(),
        map_of(tokens).len() == tokens.len(),
    decreases tokens.len(),
{
    if tokens.len() == 0 {
        assert(map_of(tokens) =~= Map::<u128, TokenView>::empty());
    } else {
        let init = tokens.drop_last();
        let last = tokens.last();
        assert(tokens =~= init.push(last));
        lemma_map_of_push(init, last);
        lemma_map_of_len(init);
        assert(!map_of(init).contains_key(last.id));
    }
}

/// Putting a token where its id belongs in an ascending list adds its entry
/// to the map.
proof fn lemma_map_of_insert(tokens: Seq<Token>, at: int, token: Token)
    requires
        ascending(tokens),
        0 <= at <= tokens.len(),
        forall|i: int| 0 <= i < at ==> tokens[i].id < token.id,
        forall|i: int| at <= i < tokens.len() ==> token.id < tokens[i].id,
    ensures
        ascending(tokens.insert(at, token)),
        map_of(tokens.insert(at, token)) == map_of(tokens).insert(token.id, token@),
{
    let all = tokens.insert(at, token);
    assert(ascending(all)) by {
        assert forall|i: int, j: int| 0 <= i < j < all.len() implies all[i].id < all[j].id by {
            let a = if i < at { i } else { i - 1 };
            let b = if j < at { j } else { j - 1 };
            if i != at && j != at {
                assert(all[i] == tokens[a] && all[j] == tokens[b]);
                assert(tokens[a].id < tokens[b].id);
            } else if i == at {
                assert(all[j] == tokens[b]);
            } else {
                assert(all[i] == tokens[a]);
            }
        }
    }
    assert(map_of(all) =~= map_of(tokens).insert(token.id, token@)) by {
        assert forall|id: u128| map_of(all).contains_key(id) <==> map_of(tokens).insert(
            token.id,
            token@,
        ).contains_key(id) by {
            if has_id(all, id) {
                let i = index_of(all, id);
                if i < at {
                    assert(tokens[i].id == id);
                } else if i > at {
                    assert(tokens[i - 1].id == id);
                }
            }
            if has_id(tokens, id) {
                let i = index_of(tokens, id);
                if i < at {
                    assert(all[i].id == id);
                } else {
                    assert(all[i + 1].id == id);
                }
            }
            if id == token.id {
                assert(all[at].id == id);
            }
        }
        assert forall|id: u128| map_of(all).contains_key(id) implies map_of(all)[id] == map_of(
            tokens,
        ).insert(token.id, token@)[id] by {
            let i = index_of(all, id);
            lemma_map_of_index(all, i);
            if i < at {
                assert(tokens[i].id == id);
                lemma_map_of_index(tokens, i);
            } else if i > at {
                assert(tokens[i - 1].id == id);
                lemma_map_of_index(tokens, i - 1);
            }
        }
    }
}

/// Replacing a token by one with the same id replaces its entry in the map.
proof fn lemma_map_of_update(tokens: Seq<Token>, at: int, token: Token)
    requires
        ascending(tokens),
        0 <= at < tokens.len(),
        tokens[at].id == token.id,
    ensures
        ascending(tokens.update(at, token)),
        map_of(tokens.update(at, token)) == map_of(tokens).insert(token.id, token@),
{
    let all = tokens.update(at, token);
    assert(ascending(all)) by {
        assert forall|i: int, j: int| 0 <= i < j < all.len() implies all[i].id < all[j].id by {
            assert(all[i].id == tokens[i].id && all[j].id == tokens[j].id);
        }
    }
    assert(map_of(all) =~= map_of(tokens).insert(token.id, token@)) by {
        assert forall|id: u128| map_of(all).contains_key(id) <==> map_of(tokens).insert(
            token.id,
            token@,
        ).contains_key(id) by {
            if has_id(all, id) {
                let i = index_of(all, id);
                assert(tokens[i].id == id);
            }
            if has_id(tokens, id) {
                let i = index_of(tokens, id);
                assert(all[i].id == id);
            }
            if id == token.id {
                assert(all[at].id == id);
            }
        }
        assert forall|id: u128| map_of(all).contains_key(id) implies map_of(all)[id] == map_of(
            tokens,
        ).insert(token.id, token@)[id] by {
            let i = index_of(all, id);
            lemma_map_of_index(all, i);
            if i != at {
                assert(tokens[i].id == id);
                lemma_map_of_index(tokens, i);
            }
        }
    }
}

impl View for TokenStore {
    type V = Map<u128, TokenView>;

    closed spec fn view(&self) -> Map<u128, TokenView> {
        map_of(self.tokens@)
    }
}

impl TokenStore {
    /// The store's invariant. It makes the view a finite map in which every
    /// token stands under its own id.
    pub closed spec fn wf(&self) -> bool {
        ascending(self.tokens@)
    }

    /// What the invariant gives to those who see the map only.
    pub proof fn lemma_wf(&self)
        requires
            self.wf(),
        ensures
            self@.dom().finite(),
            self@.len() <= usize::MAX,
            forall|id: u128| self@.contains_key(id) ==> (#[trigger] self@[id]).id == id,
    {
        lemma_map_of_len(self.tokens@);
        assert(self.tokens@.len() == self.tokens.len());
        assert forall|id: u128| self@.contains_key(id) implies (#[trigger] self@[id]).id == id by {
            let i = index_of(self.tokens@, id);
            lemma_map_of_index(self.tokens@, i);
        }
    }

    /// A store without tokens.
    pub fn new() -> (r: TokenStore)
        ensures
            r.wf(),
            r@ == Map::<u128, TokenView>::empty(),
    {
        let r = TokenStore { tokens: Vec::new() };
        assert(r@ =~= Map::<u128, TokenView>::empty());
        r
    }

    /// How many tokens the store holds.
    pub fn len(&self) -> (r: usize)
        requires
            self.wf(),
        ensures
            r == self@.len(),
    {
        proof {
            lemma_map_of_len(self.tokens@);
        }
        self.tokens.len()
    }

    /// The tokens in ascending order of their ids.
    pub fn tokens(&self) -> (r: &Vec<Token>)
        requires
            self.wf(),
        ensures
            ascending(r@),
            map_of(r@) == self@,
    {
        &self.tokens
    }

    /// The place of the first token whose id is not below `id`.
    fn position(&self, id: u128) -> (r: usize)
        requires
            self.wf(),
        ensures
            r <= self.tokens@.len(),
            forall|i: int| 0 <= i < r ==> self.tokens@[i].id < id,
            forall|i: int| r <= i < self.tokens@.len() ==> id <= self.tokens@[i].id,
            self@.contains_key(id) <==> (r < self.tokens@.len() && self.tokens@[r as int].id == id),
    {
        let mut low: usize = 0;
        let mut high: usize = self.tokens.len();
        while low < high
            invariant
                low <= high <= self.tokens@.len(),
                ascending(self.tokens@),
                forall|i: int| 0 <= i < low ==> self.tokens@[i].id < id,
                forall|i: int| high <= i < self.tokens@.len() ==> id <= self.tokens@[i].id,
            decreases high - low,
        {
            let mid = low + (high - low) / 2;
            if self.tokens[mid].id < id {
                low = mid + 1;
            } else {
                high = mid;
            }
        }
        proof {
            if has_id(self.tokens@, id) {
                let i = index_of(self.tokens@, id);
                if low < i {
                    assert(self.tokens@[low as int].id < self.tokens@[i].id);
                }
            }
        }
        low
    }

    /// Whether a token has the id `id`.
    pub fn contains_key(&self, id: &u128) -> (r: bool)
        requires
            self.wf(),
        ensures
            r == self@.contains_key(*id),
    {
        let at = self.position(*id);
        at < self.tokens.len() && self.tokens[at].id == *id
    }

    /// The token with the id `id`.
    pub fn get(&self, id: &u128) -> (r: &Token)
        requires
            self.wf(),
            self@.contains_key(*id),
        ensures
            r@ == self@[*id],
            r.id == *id,
    {
        let at = self.position(*id);
        proof {
            lemma_map_of_index(self.tokens@, at as int);
        }
        &self.tokens[at]
    }

    /// Adds a token under an id that no token has yet.
    pub fn insert(&mut self, token: Token)
        requires
            old(self).wf(),
            !old(self)@.contains_key(token.id),
        ensures
            final(self).wf(),
            final(self)@ == old(self)@.insert(token.id, token@),
    {
        let at = self.position(token.id);
        proof {
            lemma_map_of_insert(self.tokens@, at as int, token);
        }
        self.tokens.insert(at, token);
    }

    /// Replaces the token that has the id of `token`.
    pub fn update(&mut self, token: Token)
        requires
            old(self).wf(),
            old(self)@.contains_key(token.id),
        ensures
            final(self).wf(),
            final(self)@ == old(self)@.insert(token.id, token@),
    {
        let at = self.position(token.id);
        proof {
            lemma_map_of_update(self.tokens@, at as int, token);
        }
        self.tokens[at] = token;
    }

    /// The account that owns the token `id`.
    pub fn owner_of(&self, id: &u128) -> (r: Account)
        requires
            self.wf(),
            self@.contains_key(*id),
        ensures
            r == self@[*id].owner,
    {
        self.get(id).owner
    }

    /// The ids of the tokens that `account` owns, in ascending order.
    pub fn tokens_of(&self, account: &Account) -> (r: Vec<u128>)
        requires
            self.wf(),
        ensures
            strictly_ascending(r@),
            r@.to_set() == owned_by(self@, *account),
    {
        let mut ids: Vec<u128> = Vec::new();
        let mut i: usize = 0;
        while i < self.tokens.len()
            invariant
                i <= self.tokens@.len(),
                ascending(self.tokens@),
                strictly_ascending(ids@),
                forall|k: int|
                    0 <= k < ids@.len() ==> owned_among(self.tokens@, i as int, *account, #[trigger] ids@[k]),
                forall|j: int|
                    0 <= j < i && (#[trigger] self.tokens@[j]).owner == *account ==> ids@.contains(
                        self.tokens@[j].id,
                    ),
            decreases self.tokens@.len() - i,
        {
            let ghost before = ids@;
            if self.tokens[i].owner == *account {
                ids.push(self.tokens[i].id);
                proof {
                    assert forall|a: int, b: int| 0 <= a < b < ids@.len() implies ids@[a] < ids@[b] by {
                        if b == before.len() {
                            assert(owned_among(self.tokens@, i as int, *account, before[a]));
                        } else {
                            assert(before[a] < before[b]);
                        }
                    }
                    assert(self.tokens@[i as int].id == ids@[before.len() as int]);
                }
            }
            proof {
                assert forall|k: int| 0 <= k < ids@.len() implies owned_among(
                    self.tokens@,
                    i + 1,
                    *account,
                    #[trigger] ids@[k],
                ) by {
                    if k < before.len() {
                        assert(owned_among(self.tokens@, i as int, *account, before[k]));
                    }
                }
                assert forall|j: int|
                    0 <= j < i + 1 && (#[trigger] self.tokens@[j]).owner
                        == *account implies ids@.contains(self.tokens@[j].id) by {
                    if j < i {
                        let k = before.index_of(self.tokens@[j].id);
                        assert(ids@[k] == self.tokens@[j].id);
                    } else {
                        assert(ids@[before.len() as int] == self.tokens@[j].id);
                    }
                }
            }
            i += 1;
        }
        proof {
            assert(ids@.to_set() =~= owned_by(self@, *account)) by {
                assert forall|id: u128| ids@.to_set().contains(id) <==> owned_by(
                    self@,
                    *account,
                ).contains(id) by {
                    if ids@.contains(id) {
                        let k = ids@.index_of(id);
                        assert(owned_among(self.tokens@, i as int, *account, ids@[k]));
                        let j = choose|j: int|
                            0 <= j < i && (#[trigger] self.tokens@[j]).id == id && self.tokens@[j].owner
                                == *account;
                        lemma_map_of_index(self.tokens@, j);
                    }
                    if self@.contains_key(id) && self@[id].owner == *account {
                        let j = index_of(self.tokens@, id);
                        lemma_map_of_index(self.tokens@, j);
                    }
                }
            }
        }
        ids
    }

    /// How many tokens `account` owns.
    pub fn balance_of(&self, account: &Account) -> (r: u128)
        requires
            self.wf(),
        ensures
            r == owned_by(self@, *account).len(),
            owned_by(self@, *account).finite(),
    {
        let ids = self.tokens_of(account);
        proof {
            assert(ids@.no_duplicates()) by {
                assert forall|a: int, b: int|
                    0 <= a < ids@.len() && 0 <= b < ids@.len() && a != b implies ids@[a] != ids@[b] by {
                    if a < b {
                        assert(ids@[a] < ids@[b]);
                    } else {
                        assert(ids@[b] < ids@[a]);
                    }
                }
            }
            ids@.unique_seq_to_set();
        }
        ids.len() as u128
    }

    /// Hands the token `id` to `to` on behalf of `caller`, if `caller` may
    /// move it at the instant `at`.
    pub fn transfer_token(&mut self, id: &u128, at: i128, caller: &Account, to: Account) -> (r:
        Result<(), TransferError>)
        requires
            old(self).wf(),
            old(self)@.contains_key(*id),
            old(self)@[*id].owner != to,
        ensures
            final(self).wf(),
            r is Ok <==> old(self)@[*id].may_transfer(*caller, at as int),
            r is Ok ==> final(self)@ == old(self)@.insert(*id, old(self)@[*id].transferred(to)),
            r matches Err(e) ==> {
                &&& final(self)@ == old(self)@
                &&& e@ == (TransferErrorView::Unauthorized { token_ids: seq![*id] })
            },
    {
        let at_index = self.position(*id);
        proof {
            lemma_map_of_index(self.tokens@, at_index as int);
        }
        let r = self.tokens[at_index].transfer_at(at, caller, to);
        proof {
            lemma_map_of_update(old(self).tokens@, at_index as int, self.tokens@[at_index as int]);
            assert(self.tokens@ =~= old(self).tokens@.update(
                at_index as int,
                self.tokens@[at_index as int],
            ));
            if r is Err {
                assert(self.tokens@ =~= old(self).tokens@);
            }
        }
        r
    }

    /// Adds `approval` to the token `id` on behalf of `caller`, if `caller`
    /// owns the token.
    pub fn approve_token(&mut self, id: &u128, caller: &Account, approval: Approval) -> (r: Result<
        (),
        ApprovalError,
    >)
        requires
            old(self).wf(),
            old(self)@.contains_key(*id),
            old(self)@[*id].owner != approval.account,
        ensures
            final(self).wf(),
            r is Ok <==> *caller == old(self)@[*id].owner,
            r is Ok ==> final(self)@ == old(self)@.insert(*id, old(self)@[*id].approving(approval)),
            r matches Err(e) ==> {
                &&& final(self)@ == old(self)@
                &&& e@ == (ApprovalErrorView::Unauthorized { token_ids: seq![*id] })
            },
    {
        let at_index = self.position(*id);
        proof {
            lemma_map_of_index(self.tokens@, at_index as int);
        }
        let r = self.tokens[at_index].approve(caller, approval);
        proof {
            lemma_map_of_update(old(self).tokens@, at_index as int, self.tokens@[at_index as int]);
            assert(self.tokens@ =~= old(self).tokens@.update(
                at_index as int,
                self.tokens@[at_index as int],
            ));
            if r is Err {
                assert(self.tokens@ =~= old(self).tokens@);
            }
        }
        r
    }
}

} // verus!
