//! Identities: principals and the accounts they own.

use vstd::prelude::*;

verus! {

/// What `candid::Principal::from_text` makes of a text: the bytes of the
/// principal it denotes, or `None` where the text denotes none.
pub uninterp spec fn principal_text_bytes(text: Seq<char>) -> Option<Seq<u8>>;

#[verifier::external_type_specification]
#[verifier::external_body]
pub struct ExPrincipalError(candid::types::principal::PrincipalError);

/// Calls `candid::Principal::from_text` and hands out the bytes of the
/// principal it returns. The contract names the outcome after the text
/// alone, and states the one bound that the principal type guarantees: a
/// principal holds at most 29 bytes.
#[verifier::external_body]
fn decode_principal_text(text: &str) -> (r: Result<Vec<u8>, candid::types::principal::PrincipalError>)
    ensures
        r is Ok <==> principal_text_bytes(text@) is Some,
        r matches Ok(bytes) ==> principal_text_bytes(text@) == Some(bytes@) && bytes@.len() <= 29,
{
    match candid::Principal::from_text(text) {
        Ok(principal) => Ok(principal.as_slice().to_vec()),
        Err(error) => Err(error),
    }
}

/// A text that is not the textual form of any principal.
#[derive(Debug, Clone, Copy, PartialEq, Eq, Structural)]
pub struct InvalidAddress;

/// An opaque identity of at most 29 bytes.
#[derive(Debug)]
pub struct Principal {
    bytes: Vec<u8>,
}

impl View for Principal {
    type V = Seq<u8>;

    closed spec fn view(&self) -> Seq<u8> {
        self.bytes@
    }
}

impl Clone for Principal {
    fn clone(&self) -> (r: Principal)
        ensures
            r@ == self@,
    {
        let bytes = self.bytes.clone();
        proof {
            assert(bytes@ =~= self.bytes@);
        }
        Principal { bytes }
    }
}

impl PartialEq for Principal {
    fn eq(&self, other: &Principal) -> (r: bool) {
        let r = self.bytes == other.bytes;
        proof {
            if r {
                assert(self.bytes@ =~= other.bytes@);
            }
        }
        r
    }
}

impl vstd::std_specs::cmp::PartialEqSpecImpl for Principal {
    open spec fn obeys_eq_spec() -> bool {
        true
    }

    open spec fn eq_spec(&self, other: &Principal) -> bool {
        self@ == other@
    }
}

impl Eq for Principal {}

impl Principal {
    /// Whether the identity respects the length bound.
    pub open spec fn wf(&self) -> bool {
        self@.len() <= 29
    }

    /// The anonymous identity: the single byte 4.
    pub fn anonymous() -> (p: Principal)
        ensures
            p.wf(),
            p@ == seq![4u8],
    {
        let mut bytes: Vec<u8> = Vec::new();
        bytes.push(4u8);
        proof {
            assert(bytes@ =~= seq![4u8]);
        }
        Principal { bytes }
    }

    /// The identity with no bytes, which names the management canister.
    pub fn management_canister() -> (p: Principal)
        ensures
            p.wf(),
            p@ == Seq::<u8>::empty(),
    {
        Principal { bytes: Vec::new() }
    }

    /// The identity with the given bytes, unless there are more than 29.
    pub fn from_bytes(bytes: Vec<u8>) -> (r: Option<Principal>)
        ensures
            r is Some <==> bytes@.len() <= 29,
            r matches Some(p) ==> p@ == bytes@ && p.wf(),
    {
        if bytes.len() <= 29 {
            Some(Principal { bytes })
        } else {
            None
        }
    }

    /// The bytes of the identity.
    pub fn as_bytes(&self) -> (b: &Vec<u8>)
        ensures
            b@ == self@,
    {
        &self.bytes
    }

    /// Parses the textual form of a principal. Which texts are accepted, and
    /// which bytes they denote, is decided by `principal_text_bytes`.
    pub fn from_text(text: &str) -> (r: Result<Principal, InvalidAddress>)
        ensures
            r is Ok <==> principal_text_bytes(text@) is Some,
            r matches Ok(p) ==> principal_text_bytes(text@) == Some(p@) && p.wf(),
    {
        match decode_principal_text(text) {
            Ok(bytes) => Ok(Principal { bytes }),
            Err(_) => Err(InvalidAddress),
        }
    }
}

/// The optional discriminator that tells apart the accounts of one owner.
pub type Subaccount = [u8; 32];

/// What an account is in contracts: the owner's bytes and, where there is
/// one, the bytes of the sub-identity.
pub struct AccountView {
    pub owner: Seq<u8>,
    pub subaccount: Option<Seq<u8>>,
}

/// The view of an optional sub-identity.
pub open spec fn subaccount_view(subaccount: Option<Subaccount>) -> Option<Seq<u8>> {
    match subaccount {
        Some(bytes) => Some(bytes@),
        None => None,
    }
}

/// A holder of tokens: an owner and an optional sub-identity. Accounts of
/// one owner with different sub-identities are different holders.
#[derive(Debug)]
pub struct Account {
    pub owner: Principal,
    pub subaccount: Option<Subaccount>,
}

impl View for Account {
    type V = AccountView;

    open spec fn view(&self) -> AccountView {
        AccountView { owner: self.owner@, subaccount: subaccount_view(self.subaccount) }
    }
}

/// Whether two optional sub-identities hold the same bytes.
fn same_subaccount(a: Option<Subaccount>, b: Option<Subaccount>) -> (r: bool)
    ensures
        r == (subaccount_view(a) == subaccount_view(b)),
{
    match a {
        None => b.is_none(),
        Some(x) => match b {
            None => false,
            Some(y) => {
                let mut i: usize = 0;
                while i < 32
                    invariant
                        a == Some(x),
                        b == Some(y),
                        i <= 32,
                        forall|j: int| 0 <= j < i ==> x@[j] == y@[j],
                    decreases 32 - i,
                {
                    if x[i] != y[i] {
                        proof {
                            assert(x@[i as int] != y@[i as int]);
                        }
                        return false;
                    }
                    i += 1;
                }
                proof {
                    assert(x@ =~= y@);
                }
                true
            },
        },
    }
}

impl Clone for Account {
    fn clone(&self) -> (r: Account)
        ensures
            r@ == self@,
    {
        Account { owner: self.owner.clone(), subaccount: self.subaccount }
    }
}

impl PartialEq for Account {
    fn eq(&self, other: &Account) -> (r: bool) {
        self.owner == other.owner && same_subaccount(self.subaccount, other.subaccount)
    }
}

impl vstd::std_specs::cmp::PartialEqSpecImpl for Account {
    open spec fn obeys_eq_spec() -> bool {
        true
    }

    open spec fn eq_spec(&self, other: &Account) -> bool {
        self@ == other@
    }
}

impl Eq for Account {}

impl Account {
    /// The account of an owner with no sub-identity.
    pub fn of(owner: Principal) -> (a: Account)
        ensures
            a@ == (AccountView { owner: owner@, subaccount: None }),
    {
        Account { owner, subaccount: None }
    }
}

} // verus!
