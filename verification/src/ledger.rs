//! The token ledger of one collection: who holds which token, with what
//! metadata, under an optional cap on the number of tokens.

use crate::account::{Account, AccountView, Subaccount};
use crate::ledger_model::{
    after_moves, all_move, batch_outcomes, batch_state, distinct_ids, held_at, holder,
    is_first_refused, lemma_after_moves_step, lemma_first_refused,
    lemma_holder_after_all_moved, lemma_minted_slot, lemma_move_holder, lemma_moves_at_prefix,
    lemma_push_holder, lemma_push_tokens, lemma_remove_holder, lemma_remove_tokens, lemma_slot,
    lemma_minted_count, metadata_of, minted, minted_ids, moves_at, request_outcomes,
    request_state, step_outcomes, tokens_of, with_burned, with_minted, with_moved, without,
    Holding, Outcome, Request,
};
use crate::metadata::MetadataEntry;
use crate::token_id::{ids_view, TokenId};
use vstd::prelude::*;

verus! {

/// A request to mint one token.
#[derive(Debug, PartialEq, Eq)]
pub struct MintArgs {
    pub to: Account,
    pub token_id: TokenId,
    pub metadata: Vec<MetadataEntry>,
}

/// A request to move tokens from one account to another.
///
/// The request is atomic unless `is_atomic` says otherwise: either all of
/// its tokens change hands or none does.
#[derive(Debug, PartialEq, Eq)]
pub struct TransferArgs {
    pub spender_subaccount: Option<Subaccount>,
    pub from: Account,
    pub to: Account,
    pub token_ids: Vec<TokenId>,
    pub memo: Option<Vec<u8>>,
    pub created_at_time: Option<u64>,
    pub is_atomic: Option<bool>,
}

impl TransferArgs {
    /// What the request asks for.
    pub open spec fn request(&self) -> Request {
        Request {
            from: self.from@,
            to: self.to@,
            ids: ids_view(self.token_ids@),
            atomic: match self.is_atomic {
                Some(atomic) => atomic,
                None => true,
            },
        }
    }
}

/// What a batch of requests asks for.
pub open spec fn requests_view(transfers: Seq<TransferArgs>) -> Seq<Request> {
    transfers.map_values(|t: TransferArgs| t.request())
}

/// Why a transfer was refused.
#[derive(Debug, PartialEq, Eq)]
pub enum TransferError {
    /// The sender does not hold these tokens.
    Unauthorized { token_ids: Vec<TokenId> },
}

/// What a transfer reports for one token: the token that changed hands, or
/// why none did.
pub type TransferResult = Result<TokenId, TransferError>;

/// The outcome that a report stands for.
pub open spec fn outcome_of(result: TransferResult) -> Outcome {
    match result {
        Ok(id) => Outcome::Moved(id@),
        Err(TransferError::Unauthorized { token_ids }) => Outcome::Refused(ids_view(token_ids@)),
    }
}

/// The outcomes that a list of reports stands for.
pub open spec fn outcomes_view(results: Seq<TransferResult>) -> Seq<Outcome> {
    results.map_values(|r: TransferResult| outcome_of(r))
}

/// Why a mint was refused.
#[derive(Debug, Clone, Copy, PartialEq, Eq, Structural)]
pub enum MintError {
    /// The token is already minted.
    AlreadyExists,
    /// The collection holds as many tokens as its cap allows.
    SupplyCapReached,
}

/// Why a burn was refused.
#[derive(Debug, Clone, Copy, PartialEq, Eq, Structural)]
pub enum BurnError {
    /// No account holds the token.
    NotFound,
}

/// Why a query about a token failed.
#[derive(Debug, Clone, Copy, PartialEq, Eq, Structural)]
pub enum QueryError {
    /// No account holds the token.
    NotFound,
}

/// What stays fixed over the life of a collection.
pub struct CollectionInfo {
    pub name: Seq<char>,
    pub symbol: Seq<char>,
    pub description: Option<Seq<char>>,
    pub image: Option<Seq<char>>,
    pub supply_cap: Option<nat>,
    pub royalties: Option<u16>,
    pub royalty_recipient: Option<AccountView>,
    pub collection_metadata: Vec<MetadataEntry>,
}

/// The view of an optional text.
pub open spec fn text_view(text: Option<String>) -> Option<Seq<char>> {
    match text {
        Some(t) => Some(t@),
        None => None,
    }
}

/// The view of an optional account.
pub open spec fn account_view(account: Option<Account>) -> Option<AccountView> {
    match account {
        Some(a) => Some(a@),
        None => None,
    }
}

/// The view of an optional count.
pub open spec fn count_view(count: Option<u64>) -> Option<nat> {
    match count {
        Some(c) => Some(c as nat),
        None => None,
    }
}

/// The standards that a ledger canister supports, each with the page that
/// defines it.
pub fn icrc10_supported_standards() -> (standards: Vec<(String, String)>)
    ensures
        standards@.len() == 2,
        standards@[0].0@ == "ICRC-7"@,
        standards@[0].1@ == "https://github.com/dfinity/ICRC/issues/7"@,
        standards@[1].0@ == "ICRC-10"@,
        standards@[1].1@ == "https://github.com/dfinity/ICRC/issues/10"@,
{
    let mut standards: Vec<(String, String)> = Vec::new();
    standards.push(("ICRC-7".to_owned(), "https://github.com/dfinity/ICRC/issues/7".to_owned()));
    standards.push(("ICRC-10".to_owned(), "https://github.com/dfinity/ICRC/issues/10".to_owned()));
    standards
}

struct TokenRecord {
    id: TokenId,
    owner: Account,
    metadata: Vec<MetadataEntry>,
}

impl TokenRecord {
    spec fn holding(&self) -> Holding {
        Holding { id: self.id@, owner: self.owner@, metadata: self.metadata }
    }
}

/// The ledger of one collection.
pub struct NFTContract {
    name: String,
    symbol: String,
    description: Option<String>,
    image: Option<String>,
    total_supply: u64,
    max_supply: Option<u64>,
    royalties: Option<u16>,
    royalty_recipient: Option<Account>,
    collection_metadata: Vec<MetadataEntry>,
    tokens: Vec<TokenRecord>,
}

impl View for NFTContract {
    type V = Seq<Holding>;

    /// The minted tokens, in the order of their last acquisition.
    closed spec fn view(&self) -> Seq<Holding> {
        self.tokens@.map_values(|r: TokenRecord| r.holding())
    }
}

impl NFTContract {
    /// The number of tokens the ledger accounts for.
    pub closed spec fn spec_total_supply(&self) -> nat {
        self.total_supply as nat
    }

    /// The fixed attributes of the collection.
    pub closed spec fn info(&self) -> CollectionInfo {
        CollectionInfo {
            name: self.name@,
            symbol: self.symbol@,
            description: text_view(self.description),
            image: text_view(self.image),
            supply_cap: count_view(self.max_supply),
            royalties: self.royalties,
            royalty_recipient: account_view(self.royalty_recipient),
            collection_metadata: self.collection_metadata,
        }
    }

    /// The invariant of a ledger: no token is recorded twice, the supply
    /// counts the recorded tokens, and the supply respects the cap.
    pub open spec fn wf(&self) -> bool {
        &&& distinct_ids(self@)
        &&& self.spec_total_supply() == self@.len()
        &&& self.info().supply_cap matches Some(cap) ==> self.spec_total_supply() <= cap
    }

    /// An empty ledger without a cap.
    pub fn new(name: String, symbol: String) -> (ledger: NFTContract)
        ensures
            ledger.wf(),
            ledger@ == Seq::<Holding>::empty(),
            ledger.spec_total_supply() == 0,
            ledger.info() == (CollectionInfo {
                name: name@,
                symbol: symbol@,
                description: None,
                image: None,
                supply_cap: None,
                royalties: None,
                royalty_recipient: None,
                collection_metadata: ledger.info().collection_metadata,
            }),
            ledger.info().collection_metadata@.len() == 0,
    {
        let ledger = NFTContract {
            name,
            symbol,
            description: None,
            image: None,
            total_supply: 0,
            max_supply: None,
            royalties: None,
            royalty_recipient: None,
            collection_metadata: Vec::new(),
            tokens: Vec::new(),
        };
        proof {
            assert(ledger@ =~= Seq::<Holding>::empty());
        }
        ledger
    }

    /// An empty ledger with the given attributes.
    pub fn configured(
        name: String,
        symbol: String,
        description: Option<String>,
        image: Option<String>,
        max_supply: Option<u64>,
        royalties: Option<u16>,
        royalty_recipient: Option<Account>,
        collection_metadata: Vec<MetadataEntry>,
    ) -> (ledger: NFTContract)
        ensures
            ledger.wf(),
            ledger@ == Seq::<Holding>::empty(),
            ledger.spec_total_supply() == 0,
            ledger.info() == (CollectionInfo {
                name: name@,
                symbol: symbol@,
                description: text_view(description),
                image: text_view(image),
                supply_cap: count_view(max_supply),
                royalties,
                royalty_recipient: account_view(royalty_recipient),
                collection_metadata,
            }),
    {
        let ledger = NFTContract {
            name,
            symbol,
            description,
            image,
            total_supply: 0,
            max_supply,
            royalties,
            royalty_recipient,
            collection_metadata,
            tokens: Vec::new(),
        };
        proof {
            assert(ledger@ =~= Seq::<Holding>::empty());
        }
        ledger
    }

    /// The supply counts the minted tokens and stays within the cap: in any
    /// ledger that mints, transfers and burns have produced, the supply is
    /// the number of identifiers currently minted, and it does not exceed
    /// the cap where one is set.
    pub proof fn lemma_supply_counts_minted(&self)
        requires
            self.wf(),
        ensures
            minted_ids(self@).finite(),
            self.spec_total_supply() == minted_ids(self@).len(),
            self.info().supply_cap matches Some(cap) ==> minted_ids(self@).len() <= cap,
    {
        lemma_minted_count(self@);
    }

    /// The name of the collection.
    pub fn icrc7_name(&self) -> (name: String)
        ensures
            name@ == self.info().name,
    {
        self.name.clone()
    }

    /// The symbol of the collection.
    pub fn icrc7_symbol(&self) -> (symbol: String)
        ensures
            symbol@ == self.info().symbol,
    {
        self.symbol.clone()
    }

    /// The description of the collection, if it has one.
    pub fn icrc7_description(&self) -> (description: Option<String>)
        ensures
            text_view(description) == self.info().description,
    {
        match &self.description {
            Some(text) => Some(text.clone()),
            None => None,
        }
    }

    /// The image of the collection, if it has one.
    pub fn icrc7_image(&self) -> (image: Option<String>)
        ensures
            text_view(image) == self.info().image,
    {
        match &self.image {
            Some(text) => Some(text.clone()),
            None => None,
        }
    }

    /// The number of tokens currently minted.
    pub fn icrc7_total_supply(&self) -> (supply: u64)
        ensures
            supply == self.spec_total_supply(),
    {
        self.total_supply
    }

    /// The cap on the supply, if one is set.
    pub fn icrc7_supply_cap(&self) -> (cap: Option<u64>)
        ensures
            count_view(cap) == self.info().supply_cap,
    {
        self.max_supply
    }

    /// The royalty in basis points, if one is set.
    pub fn icrc7_royalties(&self) -> (royalties: Option<u16>)
        ensures
            royalties == self.info().royalties,
    {
        self.royalties
    }

    /// The account that receives royalties, if one is set.
    pub fn icrc7_royalty_recipient(&self) -> (recipient: Option<Account>)
        ensures
            account_view(recipient) == self.info().royalty_recipient,
    {
        match &self.royalty_recipient {
            Some(account) => Some(account.clone()),
            None => None,
        }
    }

    /// The metadata of the collection.
    pub fn icrc7_collection_metadata(&self) -> (metadata: &Vec<MetadataEntry>)
        ensures
            *metadata == self.info().collection_metadata,
    {
        &self.collection_metadata
    }

    /// The standards this ledger implements, each with its version.
    pub fn icrc7_supported_standards(&self) -> (standards: Vec<(String, String)>)
        ensures
            standards@.len() == 1,
            standards@[0].0@ == "ICRC7"@,
            standards@[0].1@ == "1.0.0"@,
    {
        let mut standards: Vec<(String, String)> = Vec::new();
        standards.push(("ICRC7".to_owned(), "1.0.0".to_owned()));
        standards
    }

    /// The metadata of a token, if it is minted.
    pub fn icrc7_metadata(&self, token_id: &TokenId) -> (metadata: Option<&Vec<MetadataEntry>>)
        requires
            self.wf(),
        ensures
            match metadata {
                Some(entries) => metadata_of(self@, token_id@) == Some(*entries),
                None => metadata_of(self@, token_id@).is_none(),
            },
    {
        match self.find(token_id) {
            Some(i) => {
                proof {
                    lemma_slot(self@, i as int, token_id@);
                }
                Some(&self.tokens[i].metadata)
            },
            None => None,
        }
    }

    /// The account that holds a token. A token that no account holds is
    /// reported as `NotFound`.
    pub fn icrc7_owner_of(&self, token_id: &TokenId) -> (owner: Result<Account, QueryError>)
        requires
            self.wf(),
        ensures
            match owner {
                Ok(account) => holder(self@, token_id@) == Some(account@),
                Err(error) => error == QueryError::NotFound && holder(self@, token_id@).is_none(),
            },
    {
        match self.find(token_id) {
            Some(i) => {
                proof {
                    lemma_slot(self@, i as int, token_id@);
                }
                Ok(self.tokens[i].owner.clone())
            },
            None => Err(QueryError::NotFound),
        }
    }

    /// The number of tokens an account holds.
    pub fn icrc7_balance_of(&self, account: &Account) -> (balance: u64)
        ensures
            balance == tokens_of(self@, account@).len(),
    {
        let ghost h = self@;
        let n: usize = self.tokens.len();
        let mut balance: u64 = 0;
        let mut i: usize = 0;
        proof {
            assert(h.take(0) =~= Seq::<Holding>::empty());
        }
        while i < n
            invariant
                h == self@,
                n == self.tokens@.len(),
                i <= n,
                balance <= i,
                balance == tokens_of(h.take(i as int), account@).len(),
            decreases n - i,
        {
            proof {
                assert(h.take(i + 1).drop_last() =~= h.take(i as int));
                assert(h.take(i + 1).last() == h[i as int]);
            }
            if self.tokens[i].owner == *account {
                balance += 1;
            }
            i += 1;
        }
        proof {
            assert(h.take(n as int) =~= h);
        }
        balance
    }

    /// The tokens an account holds, in the order it acquired them.
    pub fn icrc7_tokens_of(&self, account: &Account) -> (tokens: Vec<TokenId>)
        ensures
            ids_view(tokens@) == tokens_of(self@, account@),
    {
        let ghost h = self@;
        let n: usize = self.tokens.len();
        let mut tokens: Vec<TokenId> = Vec::new();
        let mut i: usize = 0;
        proof {
            assert(h.take(0) =~= Seq::<Holding>::empty());
            assert(ids_view(tokens@) =~= Seq::<Seq<u32>>::empty());
        }
        while i < n
            invariant
                h == self@,
                n == self.tokens@.len(),
                i <= n,
                ids_view(tokens@) == tokens_of(h.take(i as int), account@),
            decreases n - i,
        {
            proof {
                assert(h.take(i + 1).drop_last() =~= h.take(i as int));
                assert(h.take(i + 1).last() == h[i as int]);
            }
            if self.tokens[i].owner == *account {
                let ghost listed = ids_view(tokens@);
                tokens.push(self.tokens[i].id.clone());
                proof {
                    assert(ids_view(tokens@) =~= listed.push(h[i as int].id));
                }
            }
            i += 1;
        }
        proof {
            assert(h.take(n as int) =~= h);
        }
        tokens
    }

    /// The position of a token among the records.
    fn find(&self, token_id: &TokenId) -> (r: Option<usize>)
        ensures
            match r {
                Some(i) => held_at(self@, i as int, token_id@),
                None => !minted(self@, token_id@),
            },
    {
        let n: usize = self.tokens.len();
        let mut i: usize = 0;
        while i < n
            invariant
                n == self.tokens@.len(),
                i <= n,
                forall|j: int| 0 <= j < i ==> !held_at(self@, j, token_id@),
            decreases n - i,
        {
            if self.tokens[i].id == *token_id {
                return Some(i);
            }
            i += 1;
        }
        proof {
            if minted(self@, token_id@) {
                lemma_minted_slot(self@, token_id@);
            }
        }
        None
    }

    /// Mints a token to an account.
    ///
    /// A token that is already minted is refused with `AlreadyExists`; a new
    /// token is refused with `SupplyCapReached` when the supply has reached
    /// the cap. A refusal changes nothing. Otherwise the token joins the end
    /// of the recipient's list with its metadata, and the supply grows by
    /// one.
    pub fn mint(&mut self, mint_args: MintArgs) -> (r: Result<TokenId, MintError>)
        requires
            old(self).wf(),
        ensures
            final(self).wf(),
            final(self).info() == old(self).info(),
            minted(old(self)@, mint_args.token_id@) ==> r == Err::<TokenId, MintError>(
                MintError::AlreadyExists,
            ),
            !minted(old(self)@, mint_args.token_id@) && old(self).info().supply_cap == Some(
                old(self).spec_total_supply(),
            ) ==> r == Err::<TokenId, MintError>(MintError::SupplyCapReached),
            !minted(old(self)@, mint_args.token_id@) && old(self).info().supply_cap != Some(
                old(self).spec_total_supply(),
            ) ==> r is Ok,
            r is Err ==> *final(self) == *old(self),
            r matches Ok(id) ==> {
                &&& id@ == mint_args.token_id@
                &&& final(self)@ == with_minted(
                    old(self)@,
                    mint_args.token_id@,
                    mint_args.to@,
                    mint_args.metadata,
                )
                &&& final(self).spec_total_supply() == old(self).spec_total_supply() + 1
                &&& tokens_of(final(self)@, mint_args.to@) == tokens_of(
                    old(self)@,
                    mint_args.to@,
                ).push(id@)
                &&& holder(final(self)@, id@) == Some(mint_args.to@)
                &&& metadata_of(final(self)@, id@) == Some(mint_args.metadata)
                &&& forall|a: AccountView|
                    a != mint_args.to@ ==> #[trigger] tokens_of(final(self)@, a) == tokens_of(
                        old(self)@,
                        a,
                    )
                &&& forall|t: Seq<u32>|
                    t != id@ ==> #[trigger] holder(final(self)@, t) == holder(old(self)@, t)
                        && metadata_of(final(self)@, t) == metadata_of(old(self)@, t)
            },
    {
        if self.find(&mint_args.token_id).is_some() {
            return Err(MintError::AlreadyExists);
        }
        if let Some(cap) = self.max_supply {
            if self.total_supply >= cap {
                return Err(MintError::SupplyCapReached);
            }
        }
        let ghost before = self@;
        let ghost entry = Holding {
            id: mint_args.token_id@,
            owner: mint_args.to@,
            metadata: mint_args.metadata,
        };
        let MintArgs { to, token_id, metadata } = mint_args;
        let minted_id = token_id.clone();
        self.tokens.push(TokenRecord { id: token_id, owner: to, metadata });
        let n: usize = self.tokens.len();
        self.total_supply = n as u64;
        proof {
            assert(self@ =~= before.push(entry));
            lemma_push_holder(before, entry, entry.id);
            lemma_push_tokens(before, entry, entry.owner);
            assert forall|a: AccountView| a != entry.owner implies #[trigger] tokens_of(self@, a)
                == tokens_of(before, a) by {
                lemma_push_tokens(before, entry, a);
            }
            assert forall|t: Seq<u32>| t != entry.id implies #[trigger] holder(self@, t) == holder(
                before,
                t,
            ) && metadata_of(self@, t) == metadata_of(before, t) by {
                lemma_push_holder(before, entry, t);
            }
        }
        Ok(minted_id)
    }

    /// Burns a token.
    ///
    /// A token that no account holds is refused with `NotFound`, and nothing
    /// changes. Otherwise the token leaves its holder's list, its metadata is
    /// dropped, and the supply shrinks by one.
    pub fn burn(&mut self, token_id: TokenId) -> (r: Result<TokenId, BurnError>)
        requires
            old(self).wf(),
        ensures
            final(self).wf(),
            final(self).info() == old(self).info(),
            !minted(old(self)@, token_id@) ==> r == Err::<TokenId, BurnError>(BurnError::NotFound),
            minted(old(self)@, token_id@) ==> r is Ok,
            r is Err ==> *final(self) == *old(self),
            r matches Ok(id) ==> {
                &&& id@ == token_id@
                &&& final(self)@ == with_burned(old(self)@, token_id@)
                &&& final(self).spec_total_supply() + 1 == old(self).spec_total_supply()
                &&& !minted(final(self)@, id@)
                &&& holder(final(self)@, id@).is_none()
                &&& metadata_of(final(self)@, id@).is_none()
                &&& forall|a: AccountView|
                    #[trigger] tokens_of(final(self)@, a) == if holder(old(self)@, id@) == Some(
                        a,
                    ) {
                        without(tokens_of(old(self)@, a), id@)
                    } else {
                        tokens_of(old(self)@, a)
                    }
                &&& forall|t: Seq<u32>|
                    t != id@ ==> #[trigger] holder(final(self)@, t) == holder(old(self)@, t)
                        && metadata_of(final(self)@, t) == metadata_of(old(self)@, t)
            },
    {
        let ghost before = self@;
        match self.find(&token_id) {
            None => Err(BurnError::NotFound),
            Some(i) => {
                proof {
                    lemma_slot(before, i as int, token_id@);
                }
                let record = self.tokens.remove(i);
                let n: usize = self.tokens.len();
                self.total_supply = n as u64;
                proof {
                    assert(self@ =~= before.remove(i as int));
                    lemma_remove_holder(before, i as int, token_id@);
                    assert forall|a: AccountView| #[trigger]
                        tokens_of(self@, a) == if holder(before, token_id@) == Some(a) {
                            without(tokens_of(before, a), token_id@)
                        } else {
                            tokens_of(before, a)
                        } by {
                        lemma_remove_tokens(before, i as int, a);
                    }
                    assert forall|t: Seq<u32>| t != token_id@ implies #[trigger] holder(self@, t)
                        == holder(before, t) && metadata_of(self@, t) == metadata_of(before, t) by {
                        lemma_remove_holder(before, i as int, t);
                    }
                }
                Ok(record.id)
            },
        }
    }

    /// Hands the token at a position to another account: the record moves
    /// to the end of the ledger under its new holder.
    fn move_record(&mut self, index: usize, to: &Account)
        requires
            old(self).wf(),
            index < old(self)@.len(),
        ensures
            final(self).wf(),
            final(self).info() == old(self).info(),
            final(self).spec_total_supply() == old(self).spec_total_supply(),
            final(self)@ == with_moved(old(self)@, old(self)@[index as int].id, to@),
    {
        let ghost before = self@;
        let ghost id = before[index as int].id;
        let mut record = self.tokens.remove(index);
        record.owner = to.clone();
        self.tokens.push(record);
        proof {
            assert(held_at(before, index as int, id));
            lemma_slot(before, index as int, id);
            assert(self@ =~= with_moved(before, id, to@));
            lemma_move_holder(before, id, to@, id);
        }
    }

    /// Whether the token at position `k` of a list occurs before `k`.
    fn offered_before(ids: &Vec<TokenId>, k: usize) -> (r: bool)
        requires
            k < ids@.len(),
        ensures
            r == ids_view(ids@).take(k as int).contains(ids_view(ids@)[k as int]),
    {
        let ghost earlier = ids_view(ids@).take(k as int);
        let ghost wanted = ids_view(ids@)[k as int];
        let mut j: usize = 0;
        while j < k
            invariant
                j <= k,
                k < ids@.len(),
                earlier == ids_view(ids@).take(k as int),
                wanted == ids_view(ids@)[k as int],
                forall|p: int| 0 <= p < j ==> earlier[p] != wanted,
            decreases k - j,
        {
            if ids[j] == ids[k] {
                proof {
                    assert(earlier[j as int] == wanted);
                }
                return true;
            }
            j += 1;
        }
        false
    }

    /// The first token of a request that its sender does not hold at its
    /// turn, if there is one. The ledger is only read.
    fn first_refusal(&self, request: &TransferArgs) -> (r: Option<usize>)
        requires
            self.wf(),
        ensures
            match r {
                Some(k) => is_first_refused(
                    self@,
                    request.from@,
                    request.to@,
                    ids_view(request.token_ids@),
                    k as int,
                ),
                None => all_move(self@, request.from@, request.to@, ids_view(request.token_ids@)),
            },
    {
        let ghost h = self@;
        let ghost from = request.from@;
        let ghost to = request.to@;
        let ghost ids = ids_view(request.token_ids@);
        let n: usize = request.token_ids.len();
        let same_party: bool = request.from == request.to;
        let mut k: usize = 0;
        while k < n
            invariant
                self.wf(),
                h == self@,
                from == request.from@,
                to == request.to@,
                ids == ids_view(request.token_ids@),
                n == request.token_ids@.len(),
                same_party == (from == to),
                k <= n,
                forall|j: int| 0 <= j < k ==> #[trigger] moves_at(h, from, to, ids, j),
            decreases n - k,
        {
            let seen: bool = Self::offered_before(&request.token_ids, k);
            let held: bool = match self.find(&request.token_ids[k]) {
                Some(i) => {
                    proof {
                        lemma_slot(h, i as int, ids[k as int]);
                    }
                    self.tokens[i].owner == request.from
                },
                None => false,
            };
            let moves: bool = if seen {
                same_party
            } else {
                held
            };
            proof {
                let prefix = ids.take(k as int);
                assert forall|j: int| 0 <= j < prefix.len() implies #[trigger] moves_at(
                    h,
                    from,
                    to,
                    prefix,
                    j,
                ) by {
                    assert(moves_at(h, from, to, ids, j));
                    lemma_moves_at_prefix(h, from, to, ids, k as int, j);
                }
                lemma_holder_after_all_moved(h, from, to, prefix, ids[k as int]);
                assert(moves == moves_at(h, from, to, ids, k as int));
            }
            if !moves {
                return Some(k);
            }
            k += 1;
        }
        None
    }

    /// Offers the tokens of a request one after the other, and reports on
    /// each: it changes hands where the sender holds it at its turn.
    fn carry_out(&mut self, request: &TransferArgs, results: &mut Vec<TransferResult>)
        requires
            old(self).wf(),
        ensures
            final(self).wf(),
            final(self).info() == old(self).info(),
            final(self).spec_total_supply() == old(self).spec_total_supply(),
            final(self)@ == after_moves(
                old(self)@,
                request.from@,
                request.to@,
                ids_view(request.token_ids@),
            ),
            outcomes_view(final(results)@) == outcomes_view(old(results)@) + step_outcomes(
                old(self)@,
                request.from@,
                request.to@,
                ids_view(request.token_ids@),
            ),
    {
        let ghost h = self@;
        let ghost from = request.from@;
        let ghost to = request.to@;
        let ghost ids = ids_view(request.token_ids@);
        let ghost prior = outcomes_view(results@);
        let ghost info = self.info();
        let ghost supply = self.spec_total_supply();
        let n: usize = request.token_ids.len();
        let mut k: usize = 0;
        proof {
            assert(ids.take(0) =~= Seq::<Seq<u32>>::empty());
        }
        while k < n
            invariant
                self.wf(),
                self.info() == info,
                self.spec_total_supply() == supply,
                distinct_ids(h),
                from == request.from@,
                to == request.to@,
                ids == ids_view(request.token_ids@),
                n == request.token_ids@.len(),
                k <= n,
                self@ == after_moves(h, from, to, ids.take(k as int)),
                outcomes_view(results@).len() == prior.len() + k,
                forall|j: int| 0 <= j < prior.len() ==> outcomes_view(results@)[j] == prior[j],
                forall|j: int|
                    0 <= j < k ==> outcomes_view(results@)[prior.len() + j] == step_outcomes(
                        h,
                        from,
                        to,
                        ids,
                    )[j],
            decreases n - k,
        {
            let ghost now = self@;
            let ghost reported = outcomes_view(results@);
            let token = request.token_ids[k].clone();
            let held: Option<usize> = match self.find(&request.token_ids[k]) {
                Some(i) => {
                    proof {
                        lemma_slot(now, i as int, ids[k as int]);
                    }
                    if self.tokens[i].owner == request.from {
                        Some(i)
                    } else {
                        None
                    }
                },
                None => None,
            };
            proof {
                lemma_after_moves_step(h, from, to, ids, k as int);
                assert(held is Some == moves_at(h, from, to, ids, k as int));
            }
            match held {
                Some(i) => {
                    self.move_record(i, &request.to);
                    results.push(Ok(token));
                },
                None => {
                    let mut refused: Vec<TokenId> = Vec::new();
                    refused.push(token);
                    proof {
                        assert(ids_view(refused@) =~= seq![ids[k as int]]);
                    }
                    results.push(Err(TransferError::Unauthorized { token_ids: refused }));
                },
            }
            proof {
                assert(outcomes_view(results@)[prior.len() + k] == step_outcomes(
                    h,
                    from,
                    to,
                    ids,
                )[k as int]);
                assert forall|j: int| 0 <= j < prior.len() + k implies outcomes_view(results@)[j]
                    == reported[j] by {}
            }
            k += 1;
        }
        proof {
            assert(ids.take(n as int) =~= ids);
            assert(outcomes_view(results@) =~= prior + step_outcomes(h, from, to, ids));
        }
    }

    /// Carries out one request on the ledger and appends its report.
    fn transfer_request(&mut self, request: &TransferArgs, results: &mut Vec<TransferResult>)
        requires
            old(self).wf(),
        ensures
            final(self).wf(),
            final(self).info() == old(self).info(),
            final(self).spec_total_supply() == old(self).spec_total_supply(),
            final(self)@ == request_state(old(self)@, request.request()),
            outcomes_view(final(results)@) == outcomes_view(old(results)@) + request_outcomes(
                old(self)@,
                request.request(),
            ),
    {
        let atomic: bool = match request.is_atomic {
            Some(atomic) => atomic,
            None => true,
        };
        if atomic {
            if let Some(k) = self.first_refusal(request) {
                let ghost prior = outcomes_view(results@);
                let mut refused: Vec<TokenId> = Vec::new();
                refused.push(request.token_ids[k].clone());
                proof {
                    lemma_first_refused(
                        self@,
                        request.from@,
                        request.to@,
                        ids_view(request.token_ids@),
                        k as int,
                    );
                    assert(ids_view(refused@) =~= seq![ids_view(request.token_ids@)[k as int]]);
                }
                results.push(Err(TransferError::Unauthorized { token_ids: refused }));
                proof {
                    assert(outcomes_view(results@) =~= prior + request_outcomes(
                        self@,
                        request.request(),
                    ));
                }
                return ;
            }
        }
        self.carry_out(request, results);
    }

    /// Carries out a batch of transfer requests, one after the other.
    ///
    /// Within a request the tokens are taken in the order given: a token
    /// changes hands where the sender holds it at its turn, and is refused
    /// as `Unauthorized` otherwise. A request that is not atomic reports on
    /// each of its tokens. An atomic request in which a token is refused
    /// changes nothing and reports that one refusal. Requests are
    /// independent: what one leaves is what the next one finds.
    pub fn transfer(&mut self, transfers: Vec<TransferArgs>) -> (results: Vec<TransferResult>)
        requires
            old(self).wf(),
        ensures
            final(self).wf(),
            final(self).info() == old(self).info(),
            final(self).spec_total_supply() == old(self).spec_total_supply(),
            final(self)@ == batch_state(old(self)@, requests_view(transfers@)),
            outcomes_view(results@) == batch_outcomes(old(self)@, requests_view(transfers@)),
    {
        let ghost h = self@;
        let ghost info = self.info();
        let ghost supply = self.spec_total_supply();
        let ghost requests = requests_view(transfers@);
        let mut results: Vec<TransferResult> = Vec::new();
        let n: usize = transfers.len();
        let mut i: usize = 0;
        proof {
            assert(requests.take(0) =~= Seq::<Request>::empty());
            assert(outcomes_view(results@) =~= Seq::<Outcome>::empty());
        }
        while i < n
            invariant
                self.wf(),
                self.info() == info,
                self.spec_total_supply() == supply,
                requests == requests_view(transfers@),
                n == transfers@.len(),
                i <= n,
                self@ == batch_state(h, requests.take(i as int)),
                outcomes_view(results@) == batch_outcomes(h, requests.take(i as int)),
            decreases n - i,
        {
            proof {
                assert(requests.take(i + 1).drop_last() =~= requests.take(i as int));
                assert(requests.take(i + 1).last() == transfers@[i as int].request());
            }
            self.transfer_request(&transfers[i], &mut results);
            i += 1;
        }
        proof {
            assert(requests.take(n as int) =~= requests);
        }
        results
    }
}

} // verus!
