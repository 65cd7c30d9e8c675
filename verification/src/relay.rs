//! The relay protocol: what an inbound bridge message does to a ledger, and
//! which messages go out.
//!
//! The relay delivers a message at least once. The log of deliveries makes
//! the effect happen once: a message is known by its source chain, its
//! nonce and its operation, and a message that is known is answered from
//! the log.

use crate::account::{principal_text_bytes, Account, AccountView, Principal};
use crate::ledger::{text_view, BurnError, MintArgs, MintError, NFTContract};
use crate::ledger_model::{minted, with_burned, with_minted, Holding};
use crate::manager::{Cause, ManagerError, SourceCollectionArgs};
use crate::message::{acknowledgement_of, decimal, decimal_text, Message, MessageView, OpType};
use crate::metadata::MetadataEntry;
use crate::token_id::{digits_of_u64, TokenId};
use vstd::prelude::*;

verus! {

/// What `serde_json::from_str` makes of a text, read as a JSON value: where
/// the text is a JSON object, the members of the object in the order in
/// which the parsed object yields them, each key with the text of its value
/// if that value is a string; `None` where the text is no JSON object.
pub uninterp spec fn json_object_fields(text: Seq<char>) -> Option<
    Seq<(Seq<char>, Option<Seq<char>>)>,
>;

/// The members that a list of parsed members stands for.
pub open spec fn fields_view(fields: Seq<(String, Option<String>)>) -> Seq<
    (Seq<char>, Option<Seq<char>>),
> {
    fields.map_values(|f: (String, Option<String>)| (f.0@, text_view(f.1)))
}

/// Calls `serde_json::from_str` to read a text as a JSON value, and hands
/// out the members of the object it returns: each key, and the text of its
/// value where the value is a string. The contract names the outcome after
/// the text alone and claims nothing else of it.
#[verifier::external_body]
fn decode_json_object(text: &str) -> (r: Option<Vec<(String, Option<String>)>>)
    ensures
        match r {
            Some(fields) => json_object_fields(text@) == Some(fields_view(fields@)),
            None => json_object_fields(text@).is_none(),
        },
{
    match serde_json::from_str::<serde_json::Value>(text) {
        Ok(serde_json::Value::Object(members)) => Some(
            members.into_iter().map(
                |(key, value)| match value {
                    serde_json::Value::String(text) => (key, Some(text)),
                    _ => (key, None),
                },
            ).collect(),
        ),
        _ => None,
    }
}

/// A metadata payload that is not a JSON object of texts.
#[derive(Debug, Clone, Copy, PartialEq, Eq, Structural)]
pub struct MetadataParseError;

/// Whether every member has a text.
pub open spec fn all_text(fields: Seq<(Seq<char>, Option<Seq<char>>)>) -> bool {
    forall|i: int| 0 <= i < fields.len() ==> (#[trigger] fields[i]).1 is Some
}

/// Whether the entries are the members, one text entry for each, in order.
pub open spec fn texts_match(
    entries: Seq<MetadataEntry>,
    fields: Seq<(Seq<char>, Option<Seq<char>>)>,
) -> bool {
    &&& entries.len() == fields.len()
    &&& forall|i: int|
        0 <= i < fields.len() ==> ((#[trigger] fields[i]).1 matches Some(text)
            && entries[i].is_text(fields[i].0, text))
}

/// Turns the members of a parsed payload into metadata entries.
///
/// A payload in which some member is not a text is refused. Otherwise each
/// member becomes a text entry under its key, in the order given.
pub fn metadata_from_fields(fields: &Vec<(String, Option<String>)>) -> (r: Result<
    Vec<MetadataEntry>,
    MetadataParseError,
>)
    ensures
        r is Ok <==> all_text(fields_view(fields@)),
        r matches Ok(entries) ==> texts_match(entries@, fields_view(fields@)),
{
    let ghost given = fields_view(fields@);
    let n: usize = fields.len();
    let mut entries: Vec<MetadataEntry> = Vec::new();
    let mut i: usize = 0;
    while i < n
        invariant
            given == fields_view(fields@),
            n == fields@.len(),
            i <= n,
            entries@.len() == i,
            forall|j: int|
                0 <= j < i ==> ((#[trigger] given[j]).1 matches Some(text)
                    && entries@[j].is_text(given[j].0, text)),
        decreases n - i,
    {
        match &fields[i].1 {
            Some(text) => {
                entries.push(MetadataEntry::text(fields[i].0.clone(), text.clone()));
            },
            None => {
                proof {
                    assert(given[i as int].1 is None);
                }
                return Err(MetadataParseError);
            },
        }
        i += 1;
    }
    Ok(entries)
}

/// The members of a metadata payload, where the payload is a JSON object of
/// texts.
pub open spec fn payload_fields(text: Seq<char>) -> Option<Seq<(Seq<char>, Option<Seq<char>>)>> {
    match json_object_fields(text) {
        Some(fields) => if all_text(fields) {
            Some(fields)
        } else {
            None
        },
        None => None,
    }
}

/// Reads a metadata payload: a JSON object whose values are all texts.
pub fn parse_metadata(text: &str) -> (r: Result<Vec<MetadataEntry>, MetadataParseError>)
    ensures
        r is Ok <==> payload_fields(text@) is Some,
        r matches Ok(entries) ==> texts_match(entries@, payload_fields(text@)->Some_0),
{
    match decode_json_object(text) {
        Some(fields) => metadata_from_fields(&fields),
        None => Err(MetadataParseError),
    }
}

/// Why a message had no effect.
#[derive(Debug, Clone, Copy, PartialEq, Eq, Structural)]
pub enum RelayError {
    /// The code of the operation stands for no operation.
    UnknownOperation,
    /// The operation is not one that a message can ask of a ledger.
    UnsupportedOperation,
    /// The metadata is not a JSON object of texts.
    MetadataParseError,
    /// The destination address is not the text of a principal.
    InvalidAddress,
    /// The ledger refused the mint.
    Mint(MintError),
    /// The ledger refused the burn.
    Burn(BurnError),
}

/// The account that a message names as recipient.
pub open spec fn message_recipient(m: MessageView) -> Option<AccountView> {
    match principal_text_bytes(m.dest_address) {
        Some(owner) => Some(AccountView { owner, subaccount: None }),
        None => None,
    }
}

/// Whether a mint request is the one that a message asks for.
pub open spec fn is_mint_of(args: MintArgs, m: MessageView) -> bool {
    &&& payload_fields(m.token_metadata) matches Some(fields) && texts_match(
        args.metadata@,
        fields,
    )
    &&& message_recipient(m) == Some(args.to@)
    &&& args.token_id@ == digits_of_u64(m.token_id)
}

/// The mint request that a message asks for.
///
/// The metadata is read first: a payload that is not a JSON object of texts
/// is refused as `MetadataParseError`. A destination that is not the text of
/// a principal is refused as `InvalidAddress`.
pub fn mint_args_from_message(msg: &Message) -> (r: Result<MintArgs, RelayError>)
    ensures
        match r {
            Ok(args) => is_mint_of(args, msg@),
            Err(error) => error == if payload_fields(msg@.token_metadata) is None {
                RelayError::MetadataParseError
            } else {
                RelayError::InvalidAddress
            } && (payload_fields(msg@.token_metadata) is None || message_recipient(msg@) is None),
        },
{
    let metadata = match parse_metadata(msg.token_metadata.as_str()) {
        Ok(metadata) => metadata,
        Err(_) => {
            return Err(RelayError::MetadataParseError);
        },
    };
    let owner = match Principal::from_text(msg.dest_address.as_str()) {
        Ok(owner) => owner,
        Err(_) => {
            return Err(RelayError::InvalidAddress);
        },
    };
    Ok(MintArgs { to: Account::of(owner), token_id: TokenId::from_u64(msg.token_id), metadata })
}

/// One delivery that the relay has answered: what identifies the message,
/// and the outcome it had.
#[derive(Debug, Clone, Copy, PartialEq, Eq)]
pub struct Delivery {
    pub src_chain_id: u64,
    pub nonce: u64,
    pub op_type: u8,
    pub outcome: Result<u64, RelayError>,
}

/// Whether position `i` of the log answers the message with this key.
pub open spec fn logged_at(s: Seq<Delivery>, i: int, src_chain_id: u64, nonce: u64, op_type: u8)
    -> bool {
    &&& 0 <= i < s.len()
    &&& s[i].src_chain_id == src_chain_id
    &&& s[i].nonce == nonce
    &&& s[i].op_type == op_type
}

/// No message is logged twice.
pub open spec fn distinct_deliveries(s: Seq<Delivery>) -> bool {
    forall|i: int, j: int|
        0 <= i < j < s.len() ==> !logged_at(s, i, s[j].src_chain_id, s[j].nonce, s[j].op_type)
}

/// The outcome that the log holds for a message, if the message is known.
pub open spec fn recorded(s: Seq<Delivery>, src_chain_id: u64, nonce: u64, op_type: u8) -> Option<
    Result<u64, RelayError>,
> {
    if exists|i: int| logged_at(s, i, src_chain_id, nonce, op_type) {
        Some(s[choose|i: int| logged_at(s, i, src_chain_id, nonce, op_type)].outcome)
    } else {
        None
    }
}

/// A logged message has one position.
pub proof fn lemma_recorded_at(s: Seq<Delivery>, i: int, src_chain_id: u64, nonce: u64, op_type: u8)
    requires
        distinct_deliveries(s),
        logged_at(s, i, src_chain_id, nonce, op_type),
    ensures
        recorded(s, src_chain_id, nonce, op_type) == Some(s[i].outcome),
{
    let j = choose|j: int| logged_at(s, j, src_chain_id, nonce, op_type);
    assert(logged_at(s, j, src_chain_id, nonce, op_type));
    if i < j {
        assert(!logged_at(s, i, s[j].src_chain_id, s[j].nonce, s[j].op_type));
    } else if j < i {
        assert(!logged_at(s, j, s[i].src_chain_id, s[i].nonce, s[i].op_type));
    }
}

/// Why a message can be refused without asking a ledger, if it can: its
/// operation is unknown or is none that a message can ask for, or it asks
/// for a mint whose metadata or recipient cannot be read.
pub open spec fn refusal(m: MessageView) -> Option<RelayError> {
    match OpType::spec_from_code(m.op_type) {
        None => Some(RelayError::UnknownOperation),
        Some(OpType::Transfer) => Some(RelayError::UnsupportedOperation),
        Some(OpType::Burn) => None,
        Some(OpType::Mint) => if payload_fields(m.token_metadata) is None {
            Some(RelayError::MetadataParseError)
        } else if message_recipient(m) is None {
            Some(RelayError::InvalidAddress)
        } else {
            None
        },
    }
}

/// What the ledger answers to the mint that a message asks for.
pub open spec fn mint_outcome(ledger: NFTContract, m: MessageView) -> Result<u64, RelayError> {
    if minted(ledger@, digits_of_u64(m.token_id)) {
        Err(RelayError::Mint(MintError::AlreadyExists))
    } else if ledger.info().supply_cap == Some(ledger.spec_total_supply()) {
        Err(RelayError::Mint(MintError::SupplyCapReached))
    } else {
        Ok(m.token_id)
    }
}

/// What the ledger answers to the burn that a message asks for.
pub open spec fn burn_outcome(ledger: NFTContract, m: MessageView) -> Result<u64, RelayError> {
    if minted(ledger@, digits_of_u64(m.token_id)) {
        Ok(m.token_id)
    } else {
        Err(RelayError::Burn(BurnError::NotFound))
    }
}

/// The outcome of a message that is delivered for the first time.
pub open spec fn fresh_outcome(ledger: NFTContract, m: MessageView) -> Result<u64, RelayError> {
    match refusal(m) {
        Some(error) => Err(error),
        None => if OpType::spec_from_code(m.op_type) == Some(OpType::Burn) {
            burn_outcome(ledger, m)
        } else {
            mint_outcome(ledger, m)
        },
    }
}

/// What the relay does with a message before any ledger is asked.
#[derive(Debug, PartialEq, Eq)]
pub enum DeliveryPlan {
    /// The message is known: this is the outcome on record.
    Known(Result<u64, RelayError>),
    /// The message is refused as it stands.
    Refused(RelayError),
    /// The token is to be minted on the collection that mirrors `source`.
    Mint { source: SourceCollectionArgs, args: MintArgs },
    /// The token is to be burned on the collection that mirrors the
    /// contract at `contract_address`.
    Burn { contract_address: String, token_id: TokenId },
}

/// What came of the step that a plan asked for.
#[derive(Debug, Clone, Copy, PartialEq, Eq, Structural)]
pub enum Answer {
    /// The ledger did what was asked.
    Done,
    /// The ledger refused the mint.
    MintRefused(MintError),
    /// The ledger refused the burn.
    BurnRefused(BurnError),
    /// The ledger was not reached, or a step on the way to it failed.
    Unavailable,
}

/// The outcome that an answer stands for. An answer that did not come from
/// the ledger stands for none.
pub open spec fn answered_outcome(m: MessageView, answer: Answer) -> Option<
    Result<u64, RelayError>,
> {
    match answer {
        Answer::Done => Some(Ok(m.token_id)),
        Answer::MintRefused(error) => Some(Err(RelayError::Mint(error))),
        Answer::BurnRefused(error) => Some(Err(RelayError::Burn(error))),
        Answer::Unavailable => None,
    }
}

/// The outcome with which a delivery is settled, if it is: the one on
/// record where the message is known, the refusal where the message is
/// refused as it stands, and else the outcome that the answer stands for.
pub open spec fn settled_outcome(s: Seq<Delivery>, m: MessageView, answer: Answer) -> Option<
    Result<u64, RelayError>,
> {
    match recorded(s, m.src_chain_id, m.nonce, m.op_type) {
        Some(outcome) => Some(outcome),
        None => match refusal(m) {
            Some(error) => Some(Err(error)),
            None => answered_outcome(m, answer),
        },
    }
}

/// Whether a plan is the one for this message and this log: the outcome on
/// record for a known message; the refusal of a message that is refused as
/// it stands; for a mint, the request that the message asks for, on the
/// collection that the message names with its address, name and symbol;
/// for a burn, the token and the contract address of the message.
pub open spec fn is_plan_for(plan: DeliveryPlan, s: Seq<Delivery>, m: MessageView) -> bool {
    match recorded(s, m.src_chain_id, m.nonce, m.op_type) {
        Some(outcome) => plan == DeliveryPlan::Known(outcome),
        None => match refusal(m) {
            Some(error) => plan == DeliveryPlan::Refused(error),
            None => if OpType::spec_from_code(m.op_type) == Some(OpType::Burn) {
                plan matches DeliveryPlan::Burn { contract_address, token_id }
                    && contract_address@ == m.contract_address && token_id@ == digits_of_u64(
                    m.token_id,
                ) && token_id.wf()
            } else {
                plan matches DeliveryPlan::Mint { source, args } && source.address@
                    == m.contract_address && source.name@ == m.collection_name && source.symbol@
                    == m.collection_symbol && is_mint_of(args, m)
            },
        },
    }
}

/// The answer that the outcome of a mint by the manager stands for: a
/// refusal by the ledger is an answer of the ledger, and any other failure
/// is none.
pub fn answer_of_mint(minted: &Result<TokenId, ManagerError>) -> (answer: Answer)
    ensures
        answer == match *minted {
            Ok(_) => Answer::Done,
            Err(error) => match error.cause {
                Cause::Mint(refusal) => Answer::MintRefused(refusal),
                _ => Answer::Unavailable,
            },
        },
{
    match minted {
        Ok(_) => Answer::Done,
        Err(error) => match error.cause {
            Cause::Mint(refusal) => Answer::MintRefused(refusal),
            _ => Answer::Unavailable,
        },
    }
}

/// The answer that the outcome of a burn on a ledger stands for: a refusal
/// by the ledger is an answer of the ledger, and any other failure is none.
pub fn answer_of_burn(burned: &Result<TokenId, ManagerError>) -> (answer: Answer)
    ensures
        answer == match *burned {
            Ok(_) => Answer::Done,
            Err(error) => match error.cause {
                Cause::Burn(refusal) => Answer::BurnRefused(refusal),
                _ => Answer::Unavailable,
            },
        },
{
    match burned {
        Ok(_) => Answer::Done,
        Err(error) => match error.cause {
            Cause::Burn(refusal) => Answer::BurnRefused(refusal),
            _ => Answer::Unavailable,
        },
    }
}

/// The outcome of a delivery: the one on record where the message is known,
/// the fresh one where it is not.
pub open spec fn delivery_outcome(s: Seq<Delivery>, ledger: NFTContract, m: MessageView) -> Result<
    u64,
    RelayError,
> {
    match recorded(s, m.src_chain_id, m.nonce, m.op_type) {
        Some(outcome) => outcome,
        None => fresh_outcome(ledger, m),
    }
}

/// The log after a delivery: a message that is not known is added with its
/// outcome.
pub open spec fn log_after(s: Seq<Delivery>, ledger: NFTContract, m: MessageView) -> Seq<Delivery> {
    match recorded(s, m.src_chain_id, m.nonce, m.op_type) {
        Some(_) => s,
        None => s.push(
            Delivery {
                src_chain_id: m.src_chain_id,
                nonce: m.nonce,
                op_type: m.op_type,
                outcome: fresh_outcome(ledger, m),
            },
        ),
    }
}

/// Whether `after` is what a first delivery with this outcome makes of the
/// ledger `before`: a successful mint adds the token with the metadata of
/// the message, a successful burn takes the token out, and a failure
/// changes nothing.
pub open spec fn ledger_effect(
    before: Seq<Holding>,
    after: Seq<Holding>,
    m: MessageView,
    outcome: Result<u64, RelayError>,
) -> bool {
    if outcome is Ok && OpType::spec_from_code(m.op_type) == Some(OpType::Mint) {
        exists|metadata: Vec<MetadataEntry>|
            {
                &&& texts_match(metadata@, payload_fields(m.token_metadata)->Some_0)
                &&& #[trigger] with_minted(
                    before,
                    digits_of_u64(m.token_id),
                    message_recipient(m)->Some_0,
                    metadata,
                ) == after
            }
    } else if outcome is Ok && OpType::spec_from_code(m.op_type) == Some(OpType::Burn) {
        after == with_burned(before, digits_of_u64(m.token_id))
    } else {
        after == before
    }
}

/// Delivering again changes nothing: once a message has been delivered,
/// every later delivery under the same source chain, nonce and operation,
/// whatever else it holds and whatever the ledger holds by then, has the
/// outcome of the first delivery and leaves the log as it is.
pub proof fn lemma_redelivery(
    s: Seq<Delivery>,
    ledger: NFTContract,
    m: MessageView,
    later_ledger: NFTContract,
    again: MessageView,
)
    requires
        distinct_deliveries(s),
        again.src_chain_id == m.src_chain_id,
        again.nonce == m.nonce,
        again.op_type == m.op_type,
    ensures
        distinct_deliveries(log_after(s, ledger, m)),
        recorded(log_after(s, ledger, m), m.src_chain_id, m.nonce, m.op_type) == Some(
            delivery_outcome(s, ledger, m),
        ),
        delivery_outcome(log_after(s, ledger, m), later_ledger, again) == delivery_outcome(
            s,
            ledger,
            m,
        ),
        log_after(log_after(s, ledger, m), later_ledger, again) == log_after(s, ledger, m),
{
    let g = log_after(s, ledger, m);
    if recorded(s, m.src_chain_id, m.nonce, m.op_type) is None {
        assert forall|i: int, j: int| 0 <= i < j < g.len() implies !logged_at(
            g,
            i,
            g[j].src_chain_id,
            g[j].nonce,
            g[j].op_type,
        ) by {
            if j == s.len() {
                assert(!logged_at(s, i, m.src_chain_id, m.nonce, m.op_type));
            } else {
                assert(!logged_at(s, i, s[j].src_chain_id, s[j].nonce, s[j].op_type));
            }
        }
        assert(logged_at(g, s.len() as int, m.src_chain_id, m.nonce, m.op_type));
        lemma_recorded_at(g, s.len() as int, m.src_chain_id, m.nonce, m.op_type);
    }
}

/// What a delivery reports.
#[derive(Debug, PartialEq, Eq)]
pub struct Execution {
    /// The token that was minted or burned, or why none was.
    pub outcome: Result<u64, RelayError>,
    /// The message that tells the source chain of a success.
    pub acknowledgement: Option<Message>,
    /// Whether the message had been delivered before.
    pub duplicate: bool,
}

/// The message that leaves this chain with the given nonce.
pub open spec fn outbound(
    chain_id: u64,
    nonce: u64,
    op_type: OpType,
    token_id: u64,
    dest_chain_id: u64,
    dest_address: Seq<char>,
) -> MessageView {
    MessageView {
        id: decimal(nonce as nat),
        nonce,
        op_type: op_type.spec_code(),
        src_chain_id: chain_id,
        dest_chain_id,
        dest_address: Seq::empty(),
        contract_address: dest_address,
        collection_name: Seq::empty(),
        collection_symbol: Seq::empty(),
        token_id,
        token_metadata: Seq::empty(),
    }
}

/// The relay endpoint of one chain: the log of the deliveries it has
/// answered, and the nonce of the next message it sends.
pub struct Relay {
    chain_id: u64,
    next_nonce: u64,
    log: Vec<Delivery>,
}

impl View for Relay {
    type V = Seq<Delivery>;

    /// The deliveries answered so far, in order.
    closed spec fn view(&self) -> Seq<Delivery> {
        self.log@
    }
}

impl Relay {
    /// The chain this endpoint stands on.
    pub closed spec fn chain_id(&self) -> u64 {
        self.chain_id
    }

    /// The nonce of the next message this endpoint sends.
    pub closed spec fn next_nonce(&self) -> u64 {
        self.next_nonce
    }

    /// The invariant of an endpoint: no message is logged twice.
    pub open spec fn wf(&self) -> bool {
        distinct_deliveries(self@)
    }

    /// An endpoint that has answered nothing and sent nothing.
    pub fn new(chain_id: u64) -> (relay: Relay)
        ensures
            relay.wf(),
            relay@ == Seq::<Delivery>::empty(),
            relay.chain_id() == chain_id,
            relay.next_nonce() == 1,
    {
        Relay { chain_id, next_nonce: 1, log: Vec::new() }
    }

    /// The outcome on record for a message, if the message is known.
    pub fn lookup(&self, src_chain_id: u64, nonce: u64, op_type: u8) -> (r: Option<
        Result<u64, RelayError>,
    >)
        requires
            self.wf(),
        ensures
            r == recorded(self@, src_chain_id, nonce, op_type),
    {
        let n: usize = self.log.len();
        let mut i: usize = 0;
        while i < n
            invariant
                self.wf(),
                n == self.log@.len(),
                i <= n,
                forall|j: int| 0 <= j < i ==> !logged_at(self@, j, src_chain_id, nonce, op_type),
            decreases n - i,
        {
            if self.log[i].src_chain_id == src_chain_id && self.log[i].nonce == nonce
                && self.log[i].op_type == op_type {
                proof {
                    lemma_recorded_at(self@, i as int, src_chain_id, nonce, op_type);
                }
                return Some(self.log[i].outcome);
            }
            i += 1;
        }
        None
    }

    /// Puts on record the outcome that a message had where the ledger is
    /// not at hand and the host has carried the message out.
    ///
    /// The first outcome of a message stands: for a message that is known,
    /// the log does not change and the outcome on record is returned. Any
    /// other message is logged with the outcome given, which is returned.
    pub fn record(&mut self, src_chain_id: u64, nonce: u64, op_type: u8, outcome: Result<
        u64,
        RelayError,
    >) -> (r: Result<u64, RelayError>)
        requires
            old(self).wf(),
        ensures
            final(self).wf(),
            final(self).chain_id() == old(self).chain_id(),
            final(self).next_nonce() == old(self).next_nonce(),
            match recorded(old(self)@, src_chain_id, nonce, op_type) {
                Some(known) => r == known && final(self)@ == old(self)@,
                None => r == outcome && final(self)@ == old(self)@.push(
                    Delivery { src_chain_id, nonce, op_type, outcome },
                ),
            },
            recorded(final(self)@, src_chain_id, nonce, op_type) == Some(r),
    {
        match self.lookup(src_chain_id, nonce, op_type) {
            Some(known) => known,
            None => {
                let ghost before = self@;
                self.log.push(Delivery { src_chain_id, nonce, op_type, outcome });
                proof {
                    let g = self@;
                    assert forall|i: int, j: int| 0 <= i < j < g.len() implies !logged_at(
                        g,
                        i,
                        g[j].src_chain_id,
                        g[j].nonce,
                        g[j].op_type,
                    ) by {
                        if j == before.len() {
                            assert(!logged_at(before, i, src_chain_id, nonce, op_type));
                        } else {
                            assert(!logged_at(
                                before,
                                i,
                                before[j].src_chain_id,
                                before[j].nonce,
                                before[j].op_type,
                            ));
                        }
                    }
                    assert(logged_at(g, before.len() as int, src_chain_id, nonce, op_type));
                    lemma_recorded_at(g, before.len() as int, src_chain_id, nonce, op_type);
                }
                outcome
            },
        }
    }

    /// Why a message is refused as it stands, if it is.
    fn refusal_of(msg: &Message) -> (r: Option<RelayError>)
        ensures
            r == refusal(msg@),
    {
        match OpType::from_code(msg.op_type) {
            None => Some(RelayError::UnknownOperation),
            Some(OpType::Transfer) => Some(RelayError::UnsupportedOperation),
            Some(OpType::Burn) => None,
            Some(OpType::Mint) => match mint_args_from_message(msg) {
                Ok(_) => None,
                Err(error) => Some(error),
            },
        }
    }

    /// Decides what a delivery needs, without changing anything.
    ///
    /// A message that is known is answered with the outcome on record. A
    /// message that is refused as it stands is answered with its refusal.
    /// For a mint the plan holds the request that the message asks for and
    /// the collection it names: the address of the foreign contract, and
    /// the name and the symbol of the collection. For a burn it holds the
    /// token and the address of the foreign contract.
    pub fn plan_delivery(&self, msg: &Message) -> (plan: DeliveryPlan)
        requires
            self.wf(),
        ensures
            is_plan_for(plan, self@, msg@),
    {
        if let Some(outcome) = self.lookup(msg.src_chain_id, msg.nonce, msg.op_type) {
            return DeliveryPlan::Known(outcome);
        }
        match OpType::from_code(msg.op_type) {
            None => DeliveryPlan::Refused(RelayError::UnknownOperation),
            Some(OpType::Transfer) => DeliveryPlan::Refused(RelayError::UnsupportedOperation),
            Some(OpType::Burn) => DeliveryPlan::Burn {
                contract_address: msg.contract_address.clone(),
                token_id: TokenId::from_u64(msg.token_id),
            },
            Some(OpType::Mint) => match mint_args_from_message(msg) {
                Err(error) => DeliveryPlan::Refused(error),
                Ok(args) => DeliveryPlan::Mint {
                    source: SourceCollectionArgs {
                        address: msg.contract_address.clone(),
                        name: msg.collection_name.clone(),
                        symbol: msg.collection_symbol.clone(),
                    },
                    args,
                },
            },
        }
    }

    /// Settles a delivery whose step was carried out away from the relay.
    ///
    /// A message that is known keeps the outcome on record. A message that
    /// is refused as it stands is logged with its refusal, whatever the
    /// answer. Any other message is logged with the outcome that the answer
    /// stands for; where the answer did not come from the ledger, nothing is
    /// logged and nothing is reported, so that the message can be delivered
    /// again. A success comes with the acknowledgement for the source
    /// chain.
    pub fn settle(&mut self, msg: &Message, answer: Answer) -> (r: Option<Execution>)
        requires
            old(self).wf(),
        ensures
            final(self).wf(),
            final(self).chain_id() == old(self).chain_id(),
            final(self).next_nonce() == old(self).next_nonce(),
            match settled_outcome(old(self)@, msg@, answer) {
                None => r is None && final(self)@ == old(self)@,
                Some(outcome) => {
                    &&& r matches Some(done) && done.outcome == outcome && done.duplicate
                        == recorded(
                        old(self)@,
                        msg@.src_chain_id,
                        msg@.nonce,
                        msg@.op_type,
                    ).is_some() && match done.acknowledgement {
                        Some(ack) => outcome is Ok && ack@ == acknowledgement_of(msg@),
                        None => outcome is Err,
                    }
                    &&& final(self)@ == if recorded(
                        old(self)@,
                        msg@.src_chain_id,
                        msg@.nonce,
                        msg@.op_type,
                    ).is_some() {
                        old(self)@
                    } else {
                        old(self)@.push(
                            Delivery {
                                src_chain_id: msg@.src_chain_id,
                                nonce: msg@.nonce,
                                op_type: msg@.op_type,
                                outcome,
                            },
                        )
                    }
                    &&& recorded(
                        final(self)@,
                        msg@.src_chain_id,
                        msg@.nonce,
                        msg@.op_type,
                    ) == Some(outcome)
                },
            },
    {
        let known = self.lookup(msg.src_chain_id, msg.nonce, msg.op_type);
        let duplicate: bool = known.is_some();
        let outcome: Result<u64, RelayError> = match known {
            Some(outcome) => outcome,
            None => {
                let fresh: Result<u64, RelayError> = match Self::refusal_of(msg) {
                    Some(error) => Err(error),
                    None => match answer {
                        Answer::Done => Ok(msg.token_id),
                        Answer::MintRefused(error) => Err(RelayError::Mint(error)),
                        Answer::BurnRefused(error) => Err(RelayError::Burn(error)),
                        Answer::Unavailable => {
                            return None;
                        },
                    },
                };
                self.record(msg.src_chain_id, msg.nonce, msg.op_type, fresh)
            },
        };
        let acknowledgement: Option<Message> = if outcome.is_ok() {
            Some(msg.acknowledgement())
        } else {
            None
        };
        Some(Execution { outcome, acknowledgement, duplicate })
    }

    /// Carries out on the ledger what a message asks for, without looking
    /// at the log.
    fn execute_fresh(ledger: &mut NFTContract, msg: &Message) -> (outcome: Result<u64, RelayError>)
        requires
            old(ledger).wf(),
        ensures
            final(ledger).wf(),
            final(ledger).info() == old(ledger).info(),
            outcome == fresh_outcome(*old(ledger), msg@),
            outcome is Err ==> *final(ledger) == *old(ledger),
            ledger_effect(old(ledger)@, final(ledger)@, msg@, outcome),
    {
        match OpType::from_code(msg.op_type) {
            None => Err(RelayError::UnknownOperation),
            Some(OpType::Transfer) => Err(RelayError::UnsupportedOperation),
            Some(OpType::Mint) => {
                let args = match mint_args_from_message(msg) {
                    Ok(args) => args,
                    Err(error) => {
                        return Err(error);
                    },
                };
                let ghost metadata = args.metadata;
                let ghost before = ledger@;
                match ledger.mint(args) {
                    Ok(_) => {
                        proof {
                            assert(with_minted(
                                before,
                                digits_of_u64(msg@.token_id),
                                message_recipient(msg@)->Some_0,
                                metadata,
                            ) == ledger@);
                        }
                        Ok(msg.token_id)
                    },
                    Err(error) => Err(RelayError::Mint(error)),
                }
            },
            Some(OpType::Burn) => match ledger.burn(TokenId::from_u64(msg.token_id)) {
                Ok(_) => Ok(msg.token_id),
                Err(error) => Err(RelayError::Burn(error)),
            },
        }
    }

    /// Delivers a message to the ledger of its collection.
    ///
    /// A message that is known by its source chain, nonce and operation is
    /// not carried out again: it is answered with the outcome on record,
    /// and neither the ledger nor the log changes. Any other message is
    /// carried out and logged with its outcome: a mint adds the token for
    /// the recipient with the metadata of the message, a burn takes the
    /// token out, and a message that fails leaves the ledger as it was. A
    /// success, first or repeated, comes with the acknowledgement for the
    /// source chain.
    pub fn execute_message(&mut self, ledger: &mut NFTContract, msg: &Message) -> (r: Execution)
        requires
            old(self).wf(),
            old(ledger).wf(),
        ensures
            final(self).wf(),
            final(ledger).wf(),
            final(self).chain_id() == old(self).chain_id(),
            final(self).next_nonce() == old(self).next_nonce(),
            final(ledger).info() == old(ledger).info(),
            r.outcome == delivery_outcome(old(self)@, *old(ledger), msg@),
            final(self)@ == log_after(old(self)@, *old(ledger), msg@),
            r.duplicate == recorded(
                old(self)@,
                msg@.src_chain_id,
                msg@.nonce,
                msg@.op_type,
            ).is_some(),
            r.duplicate || r.outcome is Err ==> *final(ledger) == *old(ledger),
            !r.duplicate ==> ledger_effect(old(ledger)@, final(ledger)@, msg@, r.outcome),
            match r.acknowledgement {
                Some(ack) => r.outcome is Ok && ack@ == acknowledgement_of(msg@),
                None => r.outcome is Err,
            },
    {
        let known = self.lookup(msg.src_chain_id, msg.nonce, msg.op_type);
        let duplicate: bool = known.is_some();
        let outcome: Result<u64, RelayError> = match known {
            Some(outcome) => outcome,
            None => {
                let ghost before = self@;
                let outcome = Self::execute_fresh(ledger, msg);
                self.log.push(
                    Delivery {
                        src_chain_id: msg.src_chain_id,
                        nonce: msg.nonce,
                        op_type: msg.op_type,
                        outcome,
                    },
                );
                proof {
                    lemma_redelivery(before, *old(ledger), msg@, *old(ledger), msg@);
                }
                outcome
            },
        };
        let acknowledgement: Option<Message> = if outcome.is_ok() {
            Some(msg.acknowledgement())
        } else {
            None
        };
        Execution { outcome, acknowledgement, duplicate }
    }

    /// Whether a nonce is left for another message.
    pub fn can_send(&self) -> (r: bool)
        ensures
            r == (self.next_nonce() < u64::MAX),
    {
        self.next_nonce < u64::MAX
    }

    /// Makes the next message that leaves this chain.
    ///
    /// The message takes the next nonce, which is also its correlation
    /// string, and names this chain as its source. The address given stands
    /// as the contract address; the message names no recipient, collection
    /// or metadata. Where the nonces are used up, no message is made and
    /// nothing changes.
    pub fn send_message(
        &mut self,
        op_type: OpType,
        token_id: u64,
        dest_chain_id: u64,
        dest_address: String,
    ) -> (r: Option<Message>)
        requires
            old(self).wf(),
        ensures
            final(self).wf(),
            final(self)@ == old(self)@,
            final(self).chain_id() == old(self).chain_id(),
            match r {
                Some(msg) => {
                    &&& old(self).next_nonce() < u64::MAX
                    &&& final(self).next_nonce() == old(self).next_nonce() + 1
                    &&& msg@ == outbound(
                        old(self).chain_id(),
                        old(self).next_nonce(),
                        op_type,
                        token_id,
                        dest_chain_id,
                        dest_address@,
                    )
                },
                None => old(self).next_nonce() == u64::MAX && final(self).next_nonce() == old(
                    self,
                ).next_nonce(),
            },
    {
        if self.next_nonce == u64::MAX {
            return None;
        }
        let nonce: u64 = self.next_nonce;
        self.next_nonce = nonce + 1;
        Some(
            Message {
                id: decimal_text(nonce),
                nonce,
                op_type: op_type.code(),
                src_chain_id: self.chain_id,
                dest_chain_id,
                dest_address: String::new(),
                contract_address: dest_address,
                collection_name: String::new(),
                collection_symbol: String::new(),
                token_id,
                token_metadata: String::new(),
            },
        )
    }
}

} // verus!
