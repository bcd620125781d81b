//! Identities and the plain records that travel in and out of the ledger.

use vstd::prelude::*;

verus! {

/// A string of bytes.
pub type Blob = Vec<u8>;

/// What tells the accounts of one identity apart.
pub type Subaccount = [u8; 32];

/// The largest number of bytes an identity may have.
pub const MAX_PRINCIPAL_LEN: usize = 29;

/// An opaque identity: between 0 and 29 bytes.
///
/// The bytes are kept in a fixed buffer that is zero past `len`, so two
/// principals are equal exactly when their byte strings are: each is
/// `Principal::of` its bytes.
#[derive(Clone, Copy, Debug)]
pub struct Principal {
    len: u8,
    bytes: [u8; 29],
}

impl View for Principal {
    type V = Seq<u8>;

    /// The identity's significant bytes.
    closed spec fn view(&self) -> Seq<u8> {
        self.bytes@.subrange(0, self.len as int)
    }
}

impl Principal {
    #[verifier::type_invariant]
    spec fn padded(self) -> bool {
        &&& self.len <= 29
        &&& forall|i: int| self.len <= i < 29 ==> self.bytes[i] == 0
    }

    /// The identity that has the bytes `bytes`, where they are at most 29.
    pub closed spec fn of(bytes: Seq<u8>) -> Principal {
        Principal {
            len: bytes.len() as u8,
            bytes: choose|buffer: [u8; 29]|
                buffer@ == bytes + Seq::new((29 - bytes.len()) as nat, |i: int| 0u8),
        }
    }

    /// The identity with the given bytes, or `None` when there are more than 29.
    pub fn from_slice(slice: &[u8]) -> (r: Option<Principal>)
        ensures
            slice@.len() <= MAX_PRINCIPAL_LEN <==> r is Some,
            r matches Some(p) ==> p == Principal::of(slice@) && p@ == slice@,
    {
        let n = slice.len();
        if n > MAX_PRINCIPAL_LEN {
            return None;
        }
        let mut bytes = [0u8; 29];
        let mut i: usize = 0;
        while i < n
            invariant
                i <= n <= 29,
                n == slice@.len(),
                forall|j: int| 0 <= j < i ==> bytes[j] == slice@[j],
                forall|j: int| i <= j < 29 ==> bytes[j] == 0,
            decreases n - i,
        {
            bytes[i] = slice[i];
            i += 1;
        }
        let p = Principal { len: n as u8, bytes };
        proof {
            assert(p@ =~= slice@);
            assert(bytes@ =~= slice@ + Seq::new((29 - slice@.len()) as nat, |i: int| 0u8));
            assert(Principal::of(slice@).bytes =~= bytes);
        }
        Some(p)
    }

    /// The identity's bytes, in order.
    pub fn to_vec(&self) -> (r: Vec<u8>)
        ensures
            r@ == self@,
            r@.len() <= MAX_PRINCIPAL_LEN,
            *self == Principal::of(self@),
    {
        proof {
            use_type_invariant(self);
        }
        let n = self.len as usize;
        let mut out: Vec<u8> = Vec::new();
        let mut i: usize = 0;
        while i < n
            invariant
                i <= n <= 29,
                n == self.len,
                out@.len() == i,
                forall|j: int| 0 <= j < i ==> out@[j] == self.bytes[j],
            decreases n - i,
        {
            out.push(self.bytes[i]);
            i += 1;
        }
        proof {
            assert(out@ =~= self@);
            assert(self.bytes@ =~= self@ + Seq::new((29 - self@.len()) as nat, |i: int| 0u8));
            assert(Principal::of(self@).bytes =~= self.bytes);
        }
        out
    }

    /// The identity of a caller that did not sign: the single byte 4.
    pub fn anonymous() -> (r: Principal)
        ensures
            r == Principal::of(seq![4u8]),
            r@ == seq![4u8],
    {
        let mut bytes = [0u8; 29];
        bytes[0] = 4;
        let p = Principal { len: 1, bytes };
        proof {
            assert(p@ =~= seq![4u8]);
            assert(bytes@ =~= seq![4u8] + Seq::new(28, |i: int| 0u8));
            assert(Principal::of(seq![4u8]).bytes =~= bytes);
        }
        p
    }
}

impl PartialEq for Principal {
    fn eq(&self, other: &Self) -> (r: bool)
        ensures
            r == (self@ == other@),
    {
        proof {
            use_type_invariant(self);
            use_type_invariant(other);
        }
        if self.len != other.len {
            assert(self@.len() != other@.len());
            return false;
        }
        let mut i: usize = 0;
        while i < 29
            invariant
                i <= 29,
                self.len == other.len,
                self.len <= 29,
                forall|j: int| self.len <= j < 29 ==> self.bytes[j] == 0 && other.bytes[j] == 0,
                forall|j: int| 0 <= j < i ==> self.bytes[j] == other.bytes[j],
            decreases 29 - i,
        {
            if self.bytes[i] != other.bytes[i] {
                assert(self@[i as int] != other@[i as int]);
                return false;
            }
            i += 1;
        }
        assert(self.bytes =~= other.bytes);
        true
    }
}

impl vstd::std_specs::cmp::PartialEqSpecImpl for Principal {
    open spec fn obeys_eq_spec() -> bool {
        true
    }

    open spec fn eq_spec(&self, other: &Self) -> bool {
        *self == *other
    }
}

impl Eq for Principal {

}

/// Whether two sub-identities hold the same 32 bytes.
fn subaccount_eq(a: &Subaccount, b: &Subaccount) -> (r: bool)
    ensures
        r == (*a == *b),
{
    let mut i: usize = 0;
    while i < 32
        invariant
            i <= 32,
            forall|j: int| 0 <= j < i ==> a[j] == b[j],
        decreases 32 - i,
    {
        if a[i] != b[i] {
            return false;
        }
        i += 1;
    }
    assert(*a =~= *b);
    true
}

/// The party that owns or may spend a token: an identity and an optional
/// sub-identity. Two accounts are the same when both parts are.
#[derive(Clone, Copy, Debug)]
pub struct Account {
    pub owner: Principal,
    pub subaccount: Option<Subaccount>,
}

impl Account {
    pub fn new(owner: Principal, subaccount: Option<Subaccount>) -> (r: Account)
        ensures
            r == (Account { owner, subaccount }),
    {
        Account { owner, subaccount }
    }

    /// The account of `principal` without a sub-identity.
    pub fn from_principal(principal: &Principal) -> (r: Account)
        ensures
            r == (Account { owner: *principal, subaccount: None }),
    {
        Account { owner: *principal, subaccount: None }
    }
}

impl PartialEq for Account {
    fn eq(&self, other: &Self) -> (r: bool) {
        let same_subaccount = match (&self.subaccount, &other.subaccount) {
            (None, None) => true,
            (Some(a), Some(b)) => subaccount_eq(a, b),
            _ => false,
        };
        self.owner == other.owner && same_subaccount
    }
}

impl vstd::std_specs::cmp::PartialEqSpecImpl for Account {
    open spec fn obeys_eq_spec() -> bool {
        true
    }

    open spec fn eq_spec(&self, other: &Self) -> bool {
        *self == *other
    }
}

impl Eq for Account {

}

/// What an optional byte string holds.
pub open spec fn blob_view(blob: Option<Blob>) -> Option<Seq<u8>> {
    match blob {
        Some(bytes) => Some(bytes@),
        None => None,
    }
}

/// What an optional text holds.
pub open spec fn text_view(text: Option<String>) -> Option<Seq<char>> {
    match text {
        Some(s) => Some(s@),
        None => None,
    }
}

/// Everything a collection says about itself.
#[derive(Debug, PartialEq, Eq)]
pub struct CollectionMetadata {
    pub icrc7_name: String,
    pub icrc7_symbol: String,
    pub icrc7_royalties: Option<u16>,
    pub icrc7_royalty_recipient: Option<Account>,
    pub icrc7_description: Option<String>,
    pub icrc7_image: Option<Blob>,
    pub icrc7_total_supply: u128,
    pub icrc7_supply_cap: Option<u128>,
}

/// One value of a token's display metadata.
#[derive(Debug, PartialEq, Eq)]
pub enum Metadata {
    Nat(u128),
    Int(i128),
    Text(String),
    Blob(Blob),
}

/// A `Metadata` as contracts speak of it.
pub enum MetadataView {
    Nat(u128),
    Int(i128),
    Text(Seq<char>),
    Blob(Seq<u8>),
}

impl View for Metadata {
    type V = MetadataView;

    open spec fn view(&self) -> MetadataView {
        match *self {
            Metadata::Nat(n) => MetadataView::Nat(n),
            Metadata::Int(i) => MetadataView::Int(i),
            Metadata::Text(s) => MetadataView::Text(s@),
            Metadata::Blob(b) => MetadataView::Blob(b@),
        }
    }
}

/// A standard that the ledger implements, with where it is written down.
#[derive(Debug, PartialEq, Eq)]
pub struct Standard {
    pub name: String,
    pub url: String,
}

/// A request to move a batch of tokens to one account.
#[derive(Debug, PartialEq, Eq)]
pub struct TransferArgs {
    pub spender_subaccount: Option<Subaccount>,
    pub to: Account,
    pub token_ids: Vec<u128>,
    pub memo: Option<Blob>,
    pub created_at_time: Option<u64>,
    pub is_atomic: Option<bool>,
}

/// A `TransferArgs` as contracts speak of it.
pub struct TransferArgsView {
    pub spender_subaccount: Option<Subaccount>,
    pub to: Account,
    pub token_ids: Seq<u128>,
    pub memo: Option<Seq<u8>>,
    pub created_at_time: Option<u64>,
    pub is_atomic: Option<bool>,
}

impl View for TransferArgs {
    type V = TransferArgsView;

    open spec fn view(&self) -> TransferArgsView {
        TransferArgsView {
            spender_subaccount: self.spender_subaccount,
            to: self.to,
            token_ids: self.token_ids@,
            memo: blob_view(self.memo),
            created_at_time: self.created_at_time,
            is_atomic: self.is_atomic,
        }
    }
}

/// A request to let `spender` move some of the caller's tokens.
#[derive(Debug, PartialEq, Eq)]
pub struct ApprovalArgs {
    pub from_subaccount: Option<Subaccount>,
    pub spender: Principal,
    pub token_ids: Option<Vec<u128>>,
    pub expires_at: Option<u64>,
    pub memo: Option<Blob>,
    pub created_at: Option<u64>,
}

/// An `ApprovalArgs` as contracts speak of it.
pub struct ApprovalArgsView {
    pub from_subaccount: Option<Subaccount>,
    pub spender: Principal,
    pub token_ids: Option<Seq<u128>>,
    pub expires_at: Option<u64>,
    pub memo: Option<Seq<u8>>,
    pub created_at: Option<u64>,
}

impl View for ApprovalArgs {
    type V = ApprovalArgsView;

    open spec fn view(&self) -> ApprovalArgsView {
        ApprovalArgsView {
            from_subaccount: self.from_subaccount,
            spender: self.spender,
            token_ids: match self.token_ids {
                Some(ids) => Some(ids@),
                None => None,
            },
            expires_at: self.expires_at,
            memo: blob_view(self.memo),
            created_at: self.created_at,
        }
    }
}

/// What a new token is made from.
#[derive(Debug, PartialEq, Eq)]
pub struct MintArgs {
    pub id: u128,
    pub name: String,
    pub description: String,
    pub image: Option<Blob>,
    pub to: Account,
}

/// What a new collection is made from.
#[derive(Debug, PartialEq, Eq)]
pub struct InitArg {
    pub name: String,
    pub symbol: String,
    pub minting_authority: Option<Principal>,
    pub royalties: Option<u16>,
    pub royalties_recipient: Option<Account>,
    pub description: Option<String>,
    pub image: Option<Blob>,
    pub supply_cap: Option<u128>,
}

} // verus!
