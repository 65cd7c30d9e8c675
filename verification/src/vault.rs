//! The escrow vault: custody of tokens while their reflection lives on
//! another chain.
//!
//! A token of a collection has at most one record, and the record is active
//! while the vault holds the token. Custody itself moves on the ledger of
//! the collection. Where that ledger is remote, the host carries out the
//! transfer between the two steps of a deposit or a withdrawal; where it is
//! at hand, `deposit` and `withdraw` do both.

use crate::account::{Account, AccountView, Principal};
use crate::ledger::{outcomes_view, requests_view, NFTContract, TransferArgs, TransferResult};
use crate::ledger_model::{holder, lemma_single_token_request, with_moved};
use crate::token_id::{ids_view, TokenId};
use vstd::prelude::*;

verus! {

/// One record of the vault, as contracts see it.
pub struct Deposit {
    pub collection: Seq<u8>,
    pub token: Seq<u32>,
    pub owner: AccountView,
    pub active: bool,
}

/// Whether position `i` is the record of a token of a collection.
pub open spec fn kept_at(v: Seq<Deposit>, i: int, collection: Seq<u8>, token: Seq<u32>) -> bool {
    0 <= i < v.len() && v[i].collection == collection && v[i].token == token
}

/// No token of a collection has two records.
pub open spec fn distinct_keys(v: Seq<Deposit>) -> bool {
    forall|i: int, j: int|
        0 <= i < j < v.len() ==> !(v[i].collection == v[j].collection && v[i].token == v[j].token)
}

/// The record of a token of a collection, if there is one.
pub open spec fn record_of(v: Seq<Deposit>, collection: Seq<u8>, token: Seq<u32>) -> Option<
    Deposit,
> {
    if exists|i: int| kept_at(v, i, collection, token) {
        Some(v[choose|i: int| kept_at(v, i, collection, token)])
    } else {
        None
    }
}

/// Whether the vault holds a token of a collection.
pub open spec fn deposited(v: Seq<Deposit>, collection: Seq<u8>, token: Seq<u32>) -> bool {
    record_of(v, collection, token) matches Some(d) && d.active
}

/// Whether the vault holds a token of a collection for `owner`.
pub open spec fn deposited_by(
    v: Seq<Deposit>,
    collection: Seq<u8>,
    token: Seq<u32>,
    owner: AccountView,
) -> bool {
    record_of(v, collection, token) matches Some(d) && d.active && d.owner == owner
}

/// The tokens that the vault holds for `owner`, in the order of their
/// records.
pub open spec fn stored(v: Seq<Deposit>, owner: AccountView) -> Seq<Seq<u32>>
    decreases v.len(),
{
    if v.len() == 0 {
        Seq::empty()
    } else if v.last().active && v.last().owner == owner {
        stored(v.drop_last(), owner).push(v.last().token)
    } else {
        stored(v.drop_last(), owner)
    }
}

/// The vault after it took a token into custody for `owner`: the record of
/// the token is active and names `owner`. A token without a record gets one
/// at the end.
pub open spec fn with_deposit(
    v: Seq<Deposit>,
    collection: Seq<u8>,
    token: Seq<u32>,
    owner: AccountView,
) -> Seq<Deposit> {
    let d = Deposit { collection, token, owner, active: true };
    if exists|i: int| kept_at(v, i, collection, token) {
        v.update(choose|i: int| kept_at(v, i, collection, token), d)
    } else {
        v.push(d)
    }
}

/// The vault after the record of a token was marked active or inactive.
pub open spec fn with_activity(
    v: Seq<Deposit>,
    collection: Seq<u8>,
    token: Seq<u32>,
    active: bool,
) -> Seq<Deposit> {
    let i = choose|i: int| kept_at(v, i, collection, token);
    v.update(i, Deposit { collection, token, owner: v[i].owner, active })
}

/// With distinct keys a token of a collection has one position.
pub proof fn lemma_record_at(v: Seq<Deposit>, i: int, collection: Seq<u8>, token: Seq<u32>)
    requires
        distinct_keys(v),
        kept_at(v, i, collection, token),
    ensures
        (choose|j: int| kept_at(v, j, collection, token)) == i,
        record_of(v, collection, token) == Some(v[i]),
{
    let j = choose|j: int| kept_at(v, j, collection, token);
    assert(kept_at(v, j, collection, token));
    if i < j {
        assert(!(v[i].collection == v[j].collection && v[i].token == v[j].token));
    } else if j < i {
        assert(!(v[j].collection == v[i].collection && v[j].token == v[i].token));
    }
}

/// What rewriting the record at position `i`, under its own key, changes
/// for one token of one collection.
pub proof fn lemma_record_update(
    v: Seq<Deposit>,
    i: int,
    d: Deposit,
    collection: Seq<u8>,
    token: Seq<u32>,
)
    requires
        distinct_keys(v),
        0 <= i < v.len(),
        d.collection == v[i].collection,
        d.token == v[i].token,
    ensures
        distinct_keys(v.update(i, d)),
        record_of(v.update(i, d), collection, token) == if collection == d.collection && token
            == d.token {
            Some(d)
        } else {
            record_of(v, collection, token)
        },
{
    let g = v.update(i, d);
    assert forall|p: int, q: int| 0 <= p < q < g.len() implies !(g[p].collection == g[q].collection
        && g[p].token == g[q].token) by {
        assert(!(v[p].collection == v[q].collection && v[p].token == v[q].token));
    }
    if collection == d.collection && token == d.token {
        assert(kept_at(g, i, collection, token));
        lemma_record_at(g, i, collection, token);
    } else if exists|k: int| kept_at(v, k, collection, token) {
        let k = choose|k: int| kept_at(v, k, collection, token);
        assert(kept_at(g, k, collection, token));
        lemma_record_at(g, k, collection, token);
        lemma_record_at(v, k, collection, token);
    } else if exists|k: int| kept_at(g, k, collection, token) {
        let k = choose|k: int| kept_at(g, k, collection, token);
        assert(kept_at(v, k, collection, token));
    }
}

/// What a new record at the end changes for one token of one collection.
pub proof fn lemma_record_push(v: Seq<Deposit>, d: Deposit, collection: Seq<u8>, token: Seq<u32>)
    requires
        distinct_keys(v),
        record_of(v, d.collection, d.token).is_none(),
    ensures
        distinct_keys(v.push(d)),
        record_of(v.push(d), collection, token) == if collection == d.collection && token
            == d.token {
            Some(d)
        } else {
            record_of(v, collection, token)
        },
{
    let g = v.push(d);
    assert forall|p: int, q: int| 0 <= p < q < g.len() implies !(g[p].collection == g[q].collection
        && g[p].token == g[q].token) by {
        if q == v.len() {
            assert(!kept_at(v, p, d.collection, d.token));
        } else {
            assert(!(v[p].collection == v[q].collection && v[p].token == v[q].token));
        }
    }
    if collection == d.collection && token == d.token {
        assert(kept_at(g, v.len() as int, collection, token));
        lemma_record_at(g, v.len() as int, collection, token);
    } else if exists|k: int| kept_at(v, k, collection, token) {
        let k = choose|k: int| kept_at(v, k, collection, token);
        assert(kept_at(g, k, collection, token));
        lemma_record_at(g, k, collection, token);
        lemma_record_at(v, k, collection, token);
    } else if exists|k: int| kept_at(g, k, collection, token) {
        let k = choose|k: int| kept_at(g, k, collection, token);
        assert(kept_at(v, k, collection, token));
    }
}

/// A token that was withdrawn is not deposited: whoever asks for it next is
/// told so, until it is deposited again.
pub proof fn lemma_withdrawn_is_not_deposited(
    v: Seq<Deposit>,
    collection: Seq<u8>,
    token: Seq<u32>,
    owner: AccountView,
)
    requires
        distinct_keys(v),
        deposited(v, collection, token),
    ensures
        distinct_keys(with_activity(v, collection, token, false)),
        !deposited(with_activity(v, collection, token, false), collection, token),
        !deposited_by(with_activity(v, collection, token, false), collection, token, owner),
{
    let i = choose|i: int| kept_at(v, i, collection, token);
    assert(kept_at(v, i, collection, token));
    let d = Deposit { collection, token, owner: v[i].owner, active: false };
    lemma_record_update(v, i, d, collection, token);
}

/// A token that was deposited is deposited: a second deposit of it is
/// refused until it is withdrawn.
pub proof fn lemma_deposited_is_deposited(
    v: Seq<Deposit>,
    collection: Seq<u8>,
    token: Seq<u32>,
    owner: AccountView,
)
    requires
        distinct_keys(v),
    ensures
        distinct_keys(with_deposit(v, collection, token, owner)),
        deposited_by(with_deposit(v, collection, token, owner), collection, token, owner),
{
    let d = Deposit { collection, token, owner, active: true };
    if exists|i: int| kept_at(v, i, collection, token) {
        let i = choose|i: int| kept_at(v, i, collection, token);
        lemma_record_update(v, i, d, collection, token);
    } else {
        lemma_record_push(v, d, collection, token);
    }
}

/// Why the vault refused.
#[derive(Debug, Clone, Copy, PartialEq, Eq, Structural)]
pub enum VaultError {
    /// The vault already holds the token.
    AlreadyDeposited,
    /// The vault does not hold the token for this owner.
    NotDeposited,
    /// The ledger did not move the token.
    TransferFailed,
}

/// What the vault knows of a token it has taken in: for whom, and whether it
/// still holds it.
#[derive(Debug, PartialEq, Eq)]
pub struct VaultRecord {
    pub owner: Account,
    pub is_active: bool,
}

struct Slot {
    collection: Principal,
    token_id: TokenId,
    record: VaultRecord,
}

impl Slot {
    spec fn deposit(&self) -> Deposit {
        Deposit {
            collection: self.collection@,
            token: self.token_id@,
            owner: self.record.owner@,
            active: self.record.is_active,
        }
    }
}

/// The vault, with the account under which it holds tokens on a ledger.
pub struct NFTVault {
    custodian: Account,
    slots: Vec<Slot>,
}

impl View for NFTVault {
    type V = Seq<Deposit>;

    /// The records, in the order they were first made.
    closed spec fn view(&self) -> Seq<Deposit> {
        self.slots@.map_values(|s: Slot| s.deposit())
    }
}

/// Whether a request asks for exactly one token to go from one account to
/// another, all or nothing.
pub open spec fn is_custody_request(
    request: TransferArgs,
    from: AccountView,
    to: AccountView,
    token: Seq<u32>,
) -> bool {
    &&& request.from@ == from
    &&& request.to@ == to
    &&& ids_view(request.token_ids@) == seq![token]
    &&& request.is_atomic == Some(true)
    &&& request.spender_subaccount.is_none()
    &&& request.memo.is_none()
    &&& request.created_at_time.is_none()
}

impl NFTVault {
    /// The account under which the vault holds tokens.
    pub closed spec fn custodian(&self) -> AccountView {
        self.custodian@
    }

    /// The invariant of a vault: no token of a collection has two records.
    pub open spec fn wf(&self) -> bool {
        distinct_keys(self@)
    }

    /// An empty vault that holds tokens under the given account.
    pub fn new(custodian: Account) -> (vault: NFTVault)
        ensures
            vault.wf(),
            vault@ == Seq::<Deposit>::empty(),
            vault.custodian() == custodian@,
    {
        let vault = NFTVault { custodian, slots: Vec::new() };
        proof {
            assert(vault@ =~= Seq::<Deposit>::empty());
        }
        vault
    }

    /// The position of the record of a token of a collection.
    fn find(&self, collection: &Principal, token_id: &TokenId) -> (r: Option<usize>)
        ensures
            match r {
                Some(i) => kept_at(self@, i as int, collection@, token_id@),
                None => forall|i: int| !kept_at(self@, i, collection@, token_id@),
            },
    {
        let n: usize = self.slots.len();
        let mut i: usize = 0;
        while i < n
            invariant
                n == self.slots@.len(),
                i <= n,
                forall|j: int| 0 <= j < i ==> !kept_at(self@, j, collection@, token_id@),
            decreases n - i,
        {
            if self.slots[i].collection == *collection && self.slots[i].token_id == *token_id {
                return Some(i);
            }
            i += 1;
        }
        None
    }

    /// The request that moves one token from one account to another.
    fn custody_request(from: &Account, to: &Account, token_id: &TokenId) -> (request: TransferArgs)
        ensures
            is_custody_request(request, from@, to@, token_id@),
    {
        let mut token_ids: Vec<TokenId> = Vec::new();
        token_ids.push(token_id.clone());
        proof {
            assert(ids_view(token_ids@) =~= seq![token_id@]);
        }
        TransferArgs {
            spender_subaccount: None,
            from: from.clone(),
            to: to.clone(),
            token_ids,
            memo: None,
            created_at_time: None,
            is_atomic: Some(true),
        }
    }

    /// The record of a token of a collection, if there is one.
    pub fn record(&self, collection: &Principal, token_id: &TokenId) -> (r: Option<VaultRecord>)
        requires
            self.wf(),
        ensures
            match r {
                Some(record) => record_of(self@, collection@, token_id@) == Some(
                    Deposit {
                        collection: collection@,
                        token: token_id@,
                        owner: record.owner@,
                        active: record.is_active,
                    },
                ),
                None => record_of(self@, collection@, token_id@).is_none(),
            },
    {
        match self.find(collection, token_id) {
            Some(i) => {
                proof {
                    lemma_record_at(self@, i as int, collection@, token_id@);
                }
                Some(
                    VaultRecord {
                        owner: self.slots[i].record.owner.clone(),
                        is_active: self.slots[i].record.is_active,
                    },
                )
            },
            None => None,
        }
    }

    /// First step of a deposit: decides whether the token may be taken in.
    ///
    /// A token that the vault already holds is refused as
    /// `AlreadyDeposited`. Otherwise the answer is the transfer that moves
    /// the token from its owner to the vault. The vault does not change: a
    /// record is made only once the token has moved.
    pub fn begin_deposit(&self, collection: &Principal, token_id: &TokenId, owner: &Account) -> (r:
        Result<TransferArgs, VaultError>)
        requires
            self.wf(),
        ensures
            match r {
                Ok(request) => !deposited(self@, collection@, token_id@) && is_custody_request(
                    request,
                    owner@,
                    self.custodian(),
                    token_id@,
                ),
                Err(error) => error == VaultError::AlreadyDeposited && deposited(
                    self@,
                    collection@,
                    token_id@,
                ),
            },
    {
        if let Some(i) = self.find(collection, token_id) {
            proof {
                lemma_record_at(self@, i as int, collection@, token_id@);
            }
            if self.slots[i].record.is_active {
                return Err(VaultError::AlreadyDeposited);
            }
        }
        Ok(Self::custody_request(owner, &self.custodian, token_id))
    }

    /// Second step of a deposit: records what became of the transfer.
    ///
    /// A token that the vault holds by now is refused as `AlreadyDeposited`.
    /// A transfer that did not move the token is reported as
    /// `TransferFailed`. In both cases the vault does not change. Otherwise
    /// the token is recorded as held for its owner.
    pub fn complete_deposit(
        &mut self,
        collection: Principal,
        token_id: TokenId,
        owner: Account,
        moved: bool,
    ) -> (r: Result<(), VaultError>)
        requires
            old(self).wf(),
        ensures
            final(self).wf(),
            final(self).custodian() == old(self).custodian(),
            r == if deposited(old(self)@, collection@, token_id@) {
                Err::<(), VaultError>(VaultError::AlreadyDeposited)
            } else if !moved {
                Err::<(), VaultError>(VaultError::TransferFailed)
            } else {
                Ok::<(), VaultError>(())
            },
            r is Err ==> final(self)@ == old(self)@,
            r is Ok ==> final(self)@ == with_deposit(old(self)@, collection@, token_id@, owner@)
                && deposited_by(final(self)@, collection@, token_id@, owner@),
    {
        let ghost before = self@;
        let ghost d = Deposit {
            collection: collection@,
            token: token_id@,
            owner: owner@,
            active: true,
        };
        match self.find(&collection, &token_id) {
            Some(i) => {
                proof {
                    lemma_record_at(before, i as int, collection@, token_id@);
                }
                if self.slots[i].record.is_active {
                    return Err(VaultError::AlreadyDeposited);
                }
                if !moved {
                    return Err(VaultError::TransferFailed);
                }
                self.slots[i].record = VaultRecord { owner, is_active: true };
                proof {
                    assert(self@ =~= before.update(i as int, d));
                    lemma_record_update(before, i as int, d, collection@, token_id@);
                }
                Ok(())
            },
            None => {
                if !moved {
                    return Err(VaultError::TransferFailed);
                }
                self.slots.push(
                    Slot { collection, token_id, record: VaultRecord { owner, is_active: true } },
                );
                proof {
                    assert(self@ =~= before.push(d));
                    lemma_record_push(before, d, d.collection, d.token);
                }
                Ok(())
            },
        }
    }

    /// First step of a withdrawal: releases the record before the token
    /// moves.
    ///
    /// A token that the vault does not hold for this owner is refused as
    /// `NotDeposited`, and the vault does not change. Otherwise the record
    /// is marked inactive and the answer is the transfer that moves the
    /// token from the vault back to its owner.
    pub fn begin_withdraw(&mut self, collection: &Principal, token_id: &TokenId, owner: &Account)
        -> (r: Result<TransferArgs, VaultError>)
        requires
            old(self).wf(),
        ensures
            final(self).wf(),
            final(self).custodian() == old(self).custodian(),
            match r {
                Ok(request) => {
                    &&& deposited_by(old(self)@, collection@, token_id@, owner@)
                    &&& is_custody_request(request, old(self).custodian(), owner@, token_id@)
                    &&& final(self)@ == with_activity(old(self)@, collection@, token_id@, false)
                    &&& !deposited(final(self)@, collection@, token_id@)
                },
                Err(error) => {
                    &&& error == VaultError::NotDeposited
                    &&& !deposited_by(old(self)@, collection@, token_id@, owner@)
                    &&& final(self)@ == old(self)@
                },
            },
    {
        let ghost before = self@;
        match self.find(collection, token_id) {
            Some(i) => {
                proof {
                    lemma_record_at(before, i as int, collection@, token_id@);
                }
                if !self.slots[i].record.is_active || self.slots[i].record.owner != *owner {
                    return Err(VaultError::NotDeposited);
                }
                self.slots[i].record.is_active = false;
                proof {
                    let d = Deposit {
                        collection: collection@,
                        token: token_id@,
                        owner: before[i as int].owner,
                        active: false,
                    };
                    assert(self@ =~= before.update(i as int, d));
                    lemma_record_update(before, i as int, d, collection@, token_id@);
                }
                Ok(Self::custody_request(&self.custodian, owner, token_id))
            },
            None => Err(VaultError::NotDeposited),
        }
    }

    /// Second step of a withdrawal: records what became of the transfer.
    ///
    /// Where the token moved, the withdrawal is done and the vault stays as
    /// the first step left it. Where it did not, the record that the first
    /// step released for this owner is made active again, so that the vault
    /// does not forget a token it still holds, and the failure is reported
    /// as `TransferFailed`.
    pub fn complete_withdraw(
        &mut self,
        collection: &Principal,
        token_id: &TokenId,
        owner: &Account,
        moved: bool,
    ) -> (r: Result<(), VaultError>)
        requires
            old(self).wf(),
        ensures
            final(self).wf(),
            final(self).custodian() == old(self).custodian(),
            r == if moved {
                Ok::<(), VaultError>(())
            } else {
                Err::<(), VaultError>(VaultError::TransferFailed)
            },
            final(self)@ == if !moved && (record_of(old(self)@, collection@, token_id@) matches Some(
                d,
            ) && !d.active && d.owner == owner@) {
                with_activity(old(self)@, collection@, token_id@, true)
            } else {
                old(self)@
            },
            !moved && (record_of(old(self)@, collection@, token_id@) matches Some(d) && !d.active
                && d.owner == owner@) ==> deposited_by(
                final(self)@,
                collection@,
                token_id@,
                owner@,
            ),
    {
        if moved {
            return Ok(());
        }
        let ghost before = self@;
        if let Some(i) = self.find(collection, token_id) {
            proof {
                lemma_record_at(before, i as int, collection@, token_id@);
            }
            if !self.slots[i].record.is_active && self.slots[i].record.owner == *owner {
                self.slots[i].record.is_active = true;
                proof {
                    let d = Deposit {
                        collection: collection@,
                        token: token_id@,
                        owner: before[i as int].owner,
                        active: true,
                    };
                    assert(self@ =~= before.update(i as int, d));
                    lemma_record_update(before, i as int, d, collection@, token_id@);
                }
            }
        }
        Err(VaultError::TransferFailed)
    }

    /// Takes a token of a collection into custody, on the ledger of that
    /// collection.
    ///
    /// A token that the vault already holds is refused as
    /// `AlreadyDeposited`. Otherwise the ledger is asked to move the token
    /// from its owner to the vault. Where the owner does not hold the token
    /// the deposit fails as `TransferFailed`. A refusal or a failure changes
    /// neither the vault nor the ledger. Only once the token has moved is it
    /// recorded as held for its owner.
    pub fn deposit(
        &mut self,
        ledger: &mut NFTContract,
        collection: &Principal,
        token_id: &TokenId,
        owner: &Account,
    ) -> (r: Result<(), VaultError>)
        requires
            old(self).wf(),
            old(ledger).wf(),
        ensures
            final(self).wf(),
            final(ledger).wf(),
            final(self).custodian() == old(self).custodian(),
            final(ledger).info() == old(ledger).info(),
            final(ledger).spec_total_supply() == old(ledger).spec_total_supply(),
            r == if deposited(old(self)@, collection@, token_id@) {
                Err::<(), VaultError>(VaultError::AlreadyDeposited)
            } else if holder(old(ledger)@, token_id@) != Some(owner@) {
                Err::<(), VaultError>(VaultError::TransferFailed)
            } else {
                Ok::<(), VaultError>(())
            },
            r is Err ==> final(self)@ == old(self)@ && final(ledger)@ == old(ledger)@,
            r is Ok ==> {
                &&& final(ledger)@ == with_moved(old(ledger)@, token_id@, old(self).custodian())
                &&& final(self)@ == with_deposit(old(self)@, collection@, token_id@, owner@)
                &&& deposited_by(final(self)@, collection@, token_id@, owner@)
            },
    {
        let request = match self.begin_deposit(collection, token_id, owner) {
            Ok(request) => request,
            Err(error) => {
                return Err(error);
            },
        };
        let moved: bool = Self::move_on_ledger(ledger, request);
        self.complete_deposit(collection.clone(), token_id.clone(), owner.clone(), moved)
    }

    /// Hands a token of a collection back to its owner, on the ledger of
    /// that collection.
    ///
    /// A token that the vault does not hold for this owner is refused as
    /// `NotDeposited`. Otherwise the record is released first, and the
    /// ledger is then asked to move the token from the vault to the owner.
    /// Where the vault does not hold the token on the ledger, the record is
    /// made active again and the withdrawal fails as `TransferFailed`. A
    /// refusal or a failure leaves the vault and the ledger as they were.
    pub fn withdraw(
        &mut self,
        ledger: &mut NFTContract,
        collection: &Principal,
        token_id: &TokenId,
        owner: &Account,
    ) -> (r: Result<(), VaultError>)
        requires
            old(self).wf(),
            old(ledger).wf(),
        ensures
            final(self).wf(),
            final(ledger).wf(),
            final(self).custodian() == old(self).custodian(),
            final(ledger).info() == old(ledger).info(),
            final(ledger).spec_total_supply() == old(ledger).spec_total_supply(),
            r == if !deposited_by(old(self)@, collection@, token_id@, owner@) {
                Err::<(), VaultError>(VaultError::NotDeposited)
            } else if holder(old(ledger)@, token_id@) != Some(old(self).custodian()) {
                Err::<(), VaultError>(VaultError::TransferFailed)
            } else {
                Ok::<(), VaultError>(())
            },
            r is Err ==> final(self)@ == old(self)@ && final(ledger)@ == old(ledger)@,
            r is Ok ==> {
                &&& final(ledger)@ == with_moved(old(ledger)@, token_id@, owner@)
                &&& final(self)@ == with_activity(old(self)@, collection@, token_id@, false)
                &&& !deposited(final(self)@, collection@, token_id@)
            },
    {
        let ghost before = self@;
        let request = match self.begin_withdraw(collection, token_id, owner) {
            Ok(request) => request,
            Err(error) => {
                return Err(error);
            },
        };
        let ghost released = self@;
        let moved: bool = Self::move_on_ledger(ledger, request);
        proof {
            let i = choose|i: int| kept_at(before, i, collection@, token_id@);
            assert(kept_at(before, i, collection@, token_id@));
            lemma_record_at(before, i, collection@, token_id@);
            let d = Deposit {
                collection: collection@,
                token: token_id@,
                owner: before[i].owner,
                active: false,
            };
            lemma_record_update(before, i, d, collection@, token_id@);
            assert(kept_at(released, i, collection@, token_id@));
            lemma_record_at(released, i, collection@, token_id@);
            assert(with_activity(released, collection@, token_id@, true) =~= before);
        }
        self.complete_withdraw(collection, token_id, owner, moved)
    }

    /// Carries out a custody request on a ledger, and says whether the token
    /// moved.
    fn move_on_ledger(ledger: &mut NFTContract, request: TransferArgs) -> (moved: bool)
        requires
            old(ledger).wf(),
            ids_view(request.token_ids@).len() == 1,
            request.is_atomic == Some(true),
        ensures
            final(ledger).wf(),
            final(ledger).info() == old(ledger).info(),
            final(ledger).spec_total_supply() == old(ledger).spec_total_supply(),
            moved == (holder(old(ledger)@, ids_view(request.token_ids@)[0]) == Some(request.from@)),
            final(ledger)@ == if moved {
                with_moved(old(ledger)@, ids_view(request.token_ids@)[0], request.to@)
            } else {
                old(ledger)@
            },
    {
        let ghost asked = request.request();
        let ghost h = ledger@;
        let mut batch: Vec<TransferArgs> = Vec::new();
        batch.push(request);
        proof {
            assert(requests_view(batch@) =~= seq![asked]);
            lemma_single_token_request(h, asked);
        }
        let results: Vec<TransferResult> = ledger.transfer(batch);
        proof {
            assert(outcomes_view(results@).len() == 1);
            assert(outcomes_view(results@)[0] == crate::ledger::outcome_of(results@[0]));
        }
        results.len() == 1 && results[0].is_ok()
    }

    /// The tokens that the vault holds for an account, in the order of their
    /// records.
    pub fn get_stored_nfts(&self, account: &Account) -> (tokens: Vec<TokenId>)
        ensures
            ids_view(tokens@) == stored(self@, account@),
    {
        let ghost v = self@;
        let n: usize = self.slots.len();
        let mut tokens: Vec<TokenId> = Vec::new();
        let mut i: usize = 0;
        proof {
            assert(v.take(0) =~= Seq::<Deposit>::empty());
            assert(ids_view(tokens@) =~= Seq::<Seq<u32>>::empty());
        }
        while i < n
            invariant
                v == self@,
                n == self.slots@.len(),
                i <= n,
                ids_view(tokens@) == stored(v.take(i as int), account@),
            decreases n - i,
        {
            proof {
                assert(v.take(i + 1).drop_last() =~= v.take(i as int));
                assert(v.take(i + 1).last() == v[i as int]);
            }
            if self.slots[i].record.is_active && self.slots[i].record.owner == *account {
                let ghost listed = ids_view(tokens@);
                tokens.push(self.slots[i].token_id.clone());
                proof {
                    assert(ids_view(tokens@) =~= listed.push(v[i as int].token));
                }
            }
            i += 1;
        }
        proof {
            assert(v.take(n as int) =~= v);
        }
        tokens
    }
}

} // verus!
