//! A token, and the approvals that let others than its owner move it.

use crate::errors::{ApprovalError, ApprovalErrorView, TransferError, TransferErrorView};
use crate::types::{blob_view, text_view, Account, Blob, Metadata, MetadataView};
use vstd::prelude::*;

verus! {

/// A grant that lets `account` move one token, for ever or until `expires_at`.
#[derive(Clone, Copy, Debug, PartialEq, Eq)]
pub struct Approval {
    pub expires_at: Option<u64>,
    pub account: Account,
}

impl Approval {
    pub fn new(account: Account, expires_at: Option<u64>) -> (r: Approval)
        ensures
            r == (Approval { expires_at, account }),
    {
        Approval { expires_at, account }
    }

    /// Whether the grant holds for `account` at the instant `at`: it names the
    /// account and has no expiry, or one that is not before `at`.
    pub open spec fn covers(self, account: Account, at: int) -> bool {
        &&& self.account == account
        &&& self.expires_at matches Some(expiry) ==> expiry >= at
    }
}

/// A token: what it is, who owns it and who else may move it.
#[derive(Debug, PartialEq, Eq)]
pub struct Token {
    pub id: u128,
    pub owner: Account,
    pub name: String,
    pub image: Option<Blob>,
    pub description: Option<String>,
    pub approvals: Vec<Approval>,
}

/// A `Token` as contracts speak of it.
#[verifier::ext_equal]
pub struct TokenView {
    pub id: u128,
    pub owner: Account,
    pub name: Seq<char>,
    pub image: Option<Seq<u8>>,
    pub description: Option<Seq<char>>,
    pub approvals: Seq<Approval>,
}

impl View for Token {
    type V = TokenView;

    open spec fn view(&self) -> TokenView {
        TokenView {
            id: self.id,
            owner: self.owner,
            name: self.name@,
            image: blob_view(self.image),
            description: text_view(self.description),
            approvals: self.approvals@,
        }
    }
}

impl TokenView {
    /// Whether some approval of the token covers `account` at the instant `at`.
    pub open spec fn approved(self, account: Account, at: int) -> bool {
        exists|i: int| 0 <= i < self.approvals.len() && (#[trigger] self.approvals[i]).covers(account, at)
    }

    /// Whether `account` may move the token at the instant `at`: it owns the
    /// token or is approved for it.
    pub open spec fn may_transfer(self, account: Account, at: int) -> bool {
        self.owner == account || self.approved(account, at)
    }

    /// The token once it belongs to `to`: nothing of its approvals is left.
    pub open spec fn transferred(self, to: Account) -> TokenView {
        TokenView { owner: to, approvals: Seq::empty(), ..self }
    }

    /// The token with one more approval, after those it had.
    pub open spec fn approving(self, approval: Approval) -> TokenView {
        TokenView { approvals: self.approvals.push(approval), ..self }
    }

    /// The token's display metadata: its id and name, then its image and its
    /// description where it has them.
    pub open spec fn metadata(self) -> Seq<(Seq<char>, MetadataView)> {
        let base = seq![("Id"@, MetadataView::Nat(self.id)), ("Name"@, MetadataView::Text(self.name))];
        let with_image = match self.image {
            Some(bytes) => base.push(("Image"@, MetadataView::Blob(bytes))),
            None => base,
        };
        match self.description {
            Some(text) => with_image.push(("Description"@, MetadataView::Text(text))),
            None => with_image,
        }
    }
}

/// What a list of metadata entries holds.
pub open spec fn metadata_view(entries: Seq<(String, Metadata)>) -> Seq<(Seq<char>, MetadataView)> {
    entries.map_values(|e: (String, Metadata)| (e.0@, e.1@))
}

impl Clone for Token {
    fn clone(&self) -> (r: Token)
        ensures
            r@ == self@,
    {
        let mut approvals: Vec<Approval> = Vec::new();
        let mut i: usize = 0;
        while i < self.approvals.len()
            invariant
                i <= self.approvals.len(),
                approvals@ == self.approvals@.take(i as int),
            decreases self.approvals.len() - i,
        {
            approvals.push(self.approvals[i]);
            assert(self.approvals@.take(i + 1) =~= self.approvals@.take(i as int).push(
                self.approvals@[i as int],
            ));
            i += 1;
        }
        assert(self.approvals@.take(i as int) =~= self.approvals@);
        Token {
            id: self.id,
            owner: self.owner,
            name: self.name.clone(),
            image: self.image.clone(),
            description: self.description.clone(),
            approvals,
        }
    }
}

impl Token {
    pub fn token_metadata(&self) -> (r: Vec<(String, Metadata)>)
        ensures
            metadata_view(r@) == self@.metadata(),
    {
        let mut metadata: Vec<(String, Metadata)> = Vec::new();
        metadata.push(("Id".to_string(), Metadata::Nat(self.id)));
        metadata.push(("Name".to_string(), Metadata::Text(self.name.clone())));
        match &self.image {
            Some(bytes) => {
                metadata.push(("Image".to_string(), Metadata::Blob(bytes.clone())));
            },
            None => {},
        }
        match &self.description {
            Some(text) => {
                metadata.push(("Description".to_string(), Metadata::Text(text.clone())));
            },
            None => {},
        }
        assert(metadata_view(metadata@) =~= self@.metadata());
        metadata
    }

    pub fn owner(&self) -> (r: Account)
        ensures
            r == self.owner,
    {
        self.owner
    }

    /// Whether `account` holds an approval for the token that has not expired
    /// at `current_time`.
    pub fn approval_check(&self, current_time: u64, account: &Account) -> (r: bool)
        ensures
            r == self@.approved(*account, current_time as int),
    {
        self.approval_check_at(current_time as i128, account)
    }

    /// As `approval_check`, at an instant that may lie past the last one a
    /// timestamp can name.
    pub fn approval_check_at(&self, at: i128, account: &Account) -> (r: bool)
        ensures
            r == self@.approved(*account, at as int),
    {
        let mut i: usize = 0;
        while i < self.approvals.len()
            invariant
                i <= self.approvals.len(),
                forall|j: int| 0 <= j < i ==> !(#[trigger] self.approvals@[j]).covers(*account, at as int),
            decreases self.approvals.len() - i,
        {
            let approval = &self.approvals[i];
            if approval.account == *account {
                match approval.expires_at {
                    None => {
                        assert(self@.approvals[i as int].covers(*account, at as int));
                        return true;
                    },
                    Some(expiry) => {
                        if expiry as i128 >= at {
                            assert(self@.approvals[i as int].covers(*account, at as int));
                            return true;
                        }
                    },
                }
            }
            i += 1;
        }
        false
    }

    /// Whether `account` may move the token at the instant `at`.
    pub fn may_transfer_at(&self, at: i128, account: &Account) -> (r: bool)
        ensures
            r == self@.may_transfer(*account, at as int),
    {
        self.owner == *account || self.approval_check_at(at, account)
    }

    /// Adds `approval` to the token on behalf of `caller`, who must own it.
    pub fn approve(&mut self, caller: &Account, approval: Approval) -> (r: Result<(), ApprovalError>)
        requires
            old(self).owner != approval.account,
        ensures
            r is Ok <==> *caller == old(self).owner,
            r is Ok ==> final(self)@ == old(self)@.approving(approval),
            r matches Err(e) ==> {
                &&& *final(self) == *old(self)
                &&& e@ == (ApprovalErrorView::Unauthorized { token_ids: seq![old(self).id] })
            },
    {
        if *caller != self.owner {
            let mut token_ids: Vec<u128> = Vec::new();
            token_ids.push(self.id);
            assert(token_ids@ =~= seq![self.id]);
            Err(ApprovalError::Unauthorized { token_ids })
        } else {
            self.approvals.push(approval);
            Ok(())
        }
    }

    /// Hands the token to `to` on behalf of `caller`, who must own it or hold
    /// an approval that is good at `permitted_time`; its approvals end here.
    pub fn transfer(&mut self, permitted_time: u64, caller: &Account, to: Account) -> (r: Result<
        (),
        TransferError,
    >)
        requires
            old(self).owner != to,
        ensures
            r is Ok <==> old(self)@.may_transfer(*caller, permitted_time as int),
            r is Ok ==> final(self)@ == old(self)@.transferred(to),
            r matches Err(e) ==> {
                &&& *final(self) == *old(self)
                &&& e@ == (TransferErrorView::Unauthorized { token_ids: seq![old(self).id] })
            },
    {
        self.transfer_at(permitted_time as i128, caller, to)
    }

    /// As `transfer`, at an instant that may lie past the last one a timestamp
    /// can name.
    pub fn transfer_at(&mut self, at: i128, caller: &Account, to: Account) -> (r: Result<
        (),
        TransferError,
    >)
        requires
            old(self).owner != to,
        ensures
            r is Ok <==> old(self)@.may_transfer(*caller, at as int),
            r is Ok ==> final(self)@ == old(self)@.transferred(to),
            r matches Err(e) ==> {
                &&& *final(self) == *old(self)
                &&& e@ == (TransferErrorView::Unauthorized { token_ids: seq![old(self).id] })
            },
    {
        if !self.may_transfer_at(at, caller) {
            let mut token_ids: Vec<u128> = Vec::new();
            token_ids.push(self.id);
            assert(token_ids@ =~= seq![self.id]);
            Err(TransferError::Unauthorized { token_ids })
        } else {
            self.owner = to;
            self.approvals.clear();
            Ok(())
        }
    }
}

} // verus!
