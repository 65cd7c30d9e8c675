//! The manager: routes a bridge operation through the registry, the ledger
//! and the relay, and reports the first step that failed.
//!
//! The manager holds no state. Each operation is a sequence of steps, and a
//! step is taken only if the one before it succeeded. Where the components
//! are at hand, `token_mint` and `token_burn` take the steps on them. Where
//! they are elsewhere, the host takes each step and hands its outcome to a
//! run, which says what comes next.

use crate::account::Principal;
use crate::ledger::{BurnError, MintArgs, MintError, NFTContract};
use crate::ledger_model::{minted, with_burned, with_minted};
use crate::message::{Message, OpType};
use crate::registry::{lookup, reverse, NFTFactory, ProvisionError, Registration, Resolution};
use crate::relay::{outbound, Relay};
use crate::token_id::TokenId;
use vstd::prelude::*;

verus! {

/// The foreign collection that a mint refers to.
#[derive(Debug, PartialEq, Eq)]
pub struct SourceCollectionArgs {
    pub address: String,
    pub name: String,
    pub symbol: String,
}

/// The steps of the manager's operations.
#[derive(Debug, Clone, Copy, PartialEq, Eq, Structural)]
pub enum Step {
    /// Finding, or creating, the local collection of a foreign address.
    ResolveCollection,
    /// Minting on the ledger.
    Mint,
    /// Finding the foreign address of a local collection.
    LookupSource,
    /// Burning on the ledger.
    Burn,
    /// Making the message for the other chain.
    Notify,
}

/// Why a step failed.
#[derive(Debug, Clone, Copy, PartialEq, Eq, Structural)]
pub enum Cause {
    /// The caller may not ask for collections.
    Forbidden,
    /// No collection is registered.
    UnknownCollection,
    /// The address has no collection and none was provisioned for it.
    NotProvisioned,
    /// The host could not provision a collection.
    ProvisioningFailed,
    /// A collection was provisioned but the address was registered already.
    RegistrationFailed,
    /// The token identifier does not fit a bridge message.
    TokenIdOutOfRange,
    /// The relay has no nonce left.
    NonceExhausted,
    /// The ledger refused the mint.
    Mint(MintError),
    /// The ledger refused the burn.
    Burn(BurnError),
    /// The component that takes the step was not reached.
    Unreachable,
}

/// The failure of an operation: the step that failed, and why.
#[derive(Debug, Clone, Copy, PartialEq, Eq, Structural)]
pub struct ManagerError {
    pub step: Step,
    pub cause: Cause,
}

/// What a burn hands back: the token that was burned, and the message that
/// tells the source chain to release the token it holds in escrow.
#[derive(Debug, PartialEq, Eq)]
pub struct BurnReceipt {
    pub token_id: TokenId,
    pub message: Message,
}

/// The collection that a mint goes to, or why there is none.
///
/// Only the manager may ask. Where nothing was provisioned, the address has
/// to be registered. Where a collection was provisioned, it is the one,
/// unless the address is registered already. A provisioning that failed
/// gives no collection.
pub open spec fn collection_for_mint(
    registry: NFTFactory,
    caller: Principal,
    address: Seq<char>,
    provisioned: Option<Result<Principal, String>>,
) -> Result<Seq<u8>, Cause> {
    if caller@ != registry.manager() {
        Err(Cause::Forbidden)
    } else {
        match provisioned {
            None => match lookup(registry@, address) {
                Some(collection) => Ok(collection),
                None => Err(Cause::NotProvisioned),
            },
            Some(Err(_)) => Err(Cause::ProvisioningFailed),
            Some(Ok(collection)) => if lookup(registry@, address).is_some() {
                Err(Cause::RegistrationFailed)
            } else {
                Ok(collection@)
            },
        }
    }
}

/// The registry after the first step of a mint: a collection that was
/// provisioned for an unregistered address is registered.
pub open spec fn registry_after_mint(
    registry: NFTFactory,
    caller: Principal,
    address: Seq<char>,
    provisioned: Option<Result<Principal, String>>,
) -> Seq<Registration> {
    match collection_for_mint(registry, caller, address, provisioned) {
        Ok(collection) => if provisioned.is_some() {
            registry@.push(Registration { address, identity: collection })
        } else {
            registry@
        },
        Err(_) => registry@,
    }
}

/// The failure of `Manager::token_mint`, if it fails: that of the first
/// step that fails.
pub open spec fn token_mint_error(
    registry: NFTFactory,
    caller: Principal,
    address: Seq<char>,
    provisioned: Option<Result<Principal, String>>,
    ledger: NFTContract,
    mint_args: MintArgs,
) -> Option<ManagerError> {
    match collection_for_mint(registry, caller, address, provisioned) {
        Err(cause) => Some(ManagerError { step: Step::ResolveCollection, cause }),
        Ok(_) => if minted(ledger@, mint_args.token_id@) {
            Some(ManagerError { step: Step::Mint, cause: Cause::Mint(MintError::AlreadyExists) })
        } else if ledger.info().supply_cap == Some(ledger.spec_total_supply()) {
            Some(
                ManagerError { step: Step::Mint, cause: Cause::Mint(MintError::SupplyCapReached) },
            )
        } else {
            None
        },
    }
}

/// The failure of `Manager::token_burn`, if it fails: that of the first
/// step that fails, in the order lookup, burn, notify.
pub open spec fn token_burn_error(
    registry: NFTFactory,
    relay: Relay,
    ledger: NFTContract,
    collection: Principal,
    token_id: TokenId,
) -> Option<ManagerError> {
    if reverse(registry@, collection@).is_none() {
        Some(ManagerError { step: Step::LookupSource, cause: Cause::UnknownCollection })
    } else if !minted(ledger@, token_id@) {
        Some(ManagerError { step: Step::Burn, cause: Cause::Burn(BurnError::NotFound) })
    } else if token_id.value() > u64::MAX {
        Some(ManagerError { step: Step::Notify, cause: Cause::TokenIdOutOfRange })
    } else if relay.next_nonce() == u64::MAX {
        Some(ManagerError { step: Step::Notify, cause: Cause::NonceExhausted })
    } else {
        None
    }
}

/// What the host is to send to the relay, without waiting for the answer.
#[derive(Debug, PartialEq, Eq)]
pub struct Notice {
    pub op_type: OpType,
    pub token_id: u64,
    pub dest_chain_id: u64,
    pub dest_address: String,
}

/// A mint in progress: the step that the host is to take next, or the
/// result.
#[derive(Debug, PartialEq, Eq)]
pub enum MintRun {
    /// The registry is to resolve or create the collection of `source`.
    Resolving { source: SourceCollectionArgs, args: MintArgs },
    /// The ledger of `collection` is to mint.
    Minting { collection: Principal, args: MintArgs },
    /// The mint is over.
    Finished(Result<TokenId, ManagerError>),
}

/// A burn in progress: the step that the host is to take next, or the
/// result with the notice to send.
#[derive(Debug, PartialEq, Eq)]
pub enum BurnRun {
    /// The registry is to say which foreign address `collection` mirrors.
    LookingUp { collection: Principal, token_id: TokenId, dest_chain_id: u64 },
    /// The ledger of `collection` is to burn the token.
    Burning { collection: Principal, token_id: TokenId, source: String, dest_chain_id: u64 },
    /// The burn is over.
    Finished { result: Result<TokenId, ManagerError>, notice: Option<Notice> },
}

/// A mint after its collection was resolved: it goes on to the ledger of
/// that collection, or ends with the failure of the step.
pub open spec fn mint_after_resolved(run: MintRun, resolved: Result<Principal, Cause>) -> MintRun {
    match run {
        MintRun::Resolving { source, args } => match resolved {
            Ok(collection) => MintRun::Minting { collection, args },
            Err(cause) => MintRun::Finished(
                Err(ManagerError { step: Step::ResolveCollection, cause }),
            ),
        },
        other => other,
    }
}

/// A mint after the ledger answered: it ends with the token, or with the
/// failure of the step.
pub open spec fn mint_after_answered(run: MintRun, minted: Result<TokenId, Cause>) -> MintRun {
    match run {
        MintRun::Minting { collection, args } => match minted {
            Ok(token_id) => MintRun::Finished(Ok(token_id)),
            Err(cause) => MintRun::Finished(Err(ManagerError { step: Step::Mint, cause })),
        },
        other => other,
    }
}

/// A burn after the registry answered: it goes on to the ledger with the
/// foreign address, or ends with the failure of the step.
pub open spec fn burn_after_looked_up(run: BurnRun, looked_up: Result<Option<String>, Cause>)
    -> BurnRun {
    match run {
        BurnRun::LookingUp { collection, token_id, dest_chain_id } => match looked_up {
            Ok(Some(source)) => BurnRun::Burning { collection, token_id, source, dest_chain_id },
            Ok(None) => BurnRun::Finished {
                result: Err(
                    ManagerError { step: Step::LookupSource, cause: Cause::UnknownCollection },
                ),
                notice: None,
            },
            Err(cause) => BurnRun::Finished {
                result: Err(ManagerError { step: Step::LookupSource, cause }),
                notice: None,
            },
        },
        other => other,
    }
}

/// A burn after the ledger answered. A refusal ends it with the failure of
/// the burn. A burned token ends it with success and with the notice for
/// the foreign address, unless the token does not fit a message: then the
/// burn stands and the failure of the notification is reported.
pub open spec fn burn_after_answered(run: BurnRun, burned: Result<TokenId, Cause>) -> BurnRun {
    match run {
        BurnRun::Burning { collection, token_id, source, dest_chain_id } => match burned {
            Err(cause) => BurnRun::Finished {
                result: Err(ManagerError { step: Step::Burn, cause }),
                notice: None,
            },
            Ok(burned_id) => if token_id.value() <= u64::MAX {
                BurnRun::Finished {
                    result: Ok(burned_id),
                    notice: Some(
                        Notice {
                            op_type: OpType::Burn,
                            token_id: token_id.value() as u64,
                            dest_chain_id,
                            dest_address: source,
                        },
                    ),
                }
            } else {
                BurnRun::Finished {
                    result: Err(
                        ManagerError { step: Step::Notify, cause: Cause::TokenIdOutOfRange },
                    ),
                    notice: None,
                }
            },
        },
        other => other,
    }
}

/// The composition root of the bridge.
#[derive(Debug, Clone, Copy)]
pub struct Manager;

impl Manager {
    /// Mints on a ledger, and reports a refusal as the failure of the mint
    /// step.
    pub fn mint(ledger: &mut NFTContract, mint_args: MintArgs) -> (r: Result<TokenId, ManagerError>)
        requires
            old(ledger).wf(),
        ensures
            final(ledger).wf(),
            final(ledger).info() == old(ledger).info(),
            match r {
                Ok(id) => {
                    &&& !minted(old(ledger)@, mint_args.token_id@)
                    &&& old(ledger).info().supply_cap != Some(old(ledger).spec_total_supply())
                    &&& id@ == mint_args.token_id@
                    &&& final(ledger)@ == with_minted(
                        old(ledger)@,
                        mint_args.token_id@,
                        mint_args.to@,
                        mint_args.metadata,
                    )
                    &&& final(ledger).spec_total_supply() == old(ledger).spec_total_supply() + 1
                },
                Err(error) => {
                    &&& error.step == Step::Mint
                    &&& error.cause == if minted(old(ledger)@, mint_args.token_id@) {
                        Cause::Mint(MintError::AlreadyExists)
                    } else {
                        Cause::Mint(MintError::SupplyCapReached)
                    }
                    &&& minted(old(ledger)@, mint_args.token_id@) || old(ledger).info().supply_cap
                        == Some(old(ledger).spec_total_supply())
                    &&& *final(ledger) == *old(ledger)
                },
            },
    {
        match ledger.mint(mint_args) {
            Ok(id) => Ok(id),
            Err(error) => Err(ManagerError { step: Step::Mint, cause: Cause::Mint(error) }),
        }
    }

    /// Mints a reflection token for a foreign collection.
    ///
    /// First the collection is resolved or created. A caller other than the
    /// manager is refused. `provisioned` is the outcome of provisioning a
    /// collection for the address, where the host did so: a collection
    /// that was provisioned is registered for the address before anything
    /// is minted, unless the address is registered already; a provisioning
    /// that failed ends the operation. Where nothing was provisioned, the
    /// address has to be registered. Then the token is minted on the
    /// ledger given, which is the ledger of that collection. The first
    /// step that fails is reported. A registration stands even where the
    /// mint is refused; a failure leaves the ledger as it was.
    pub fn token_mint(
        registry: &mut NFTFactory,
        caller: &Principal,
        src_collection_args: SourceCollectionArgs,
        provisioned: Option<Result<Principal, String>>,
        ledger: &mut NFTContract,
        mint_args: MintArgs,
    ) -> (r: Result<TokenId, ManagerError>)
        requires
            old(registry).wf(),
            old(ledger).wf(),
        ensures
            final(registry).wf(),
            final(ledger).wf(),
            final(registry).manager() == old(registry).manager(),
            final(ledger).info() == old(ledger).info(),
            final(registry)@ == registry_after_mint(
                *old(registry),
                *caller,
                src_collection_args.address@,
                provisioned,
            ),
            match r {
                Ok(id) => {
                    &&& token_mint_error(
                        *old(registry),
                        *caller,
                        src_collection_args.address@,
                        provisioned,
                        *old(ledger),
                        mint_args,
                    ).is_none()
                    &&& id@ == mint_args.token_id@
                    &&& final(ledger)@ == with_minted(
                        old(ledger)@,
                        mint_args.token_id@,
                        mint_args.to@,
                        mint_args.metadata,
                    )
                    &&& final(ledger).spec_total_supply() == old(ledger).spec_total_supply() + 1
                },
                Err(error) => {
                    &&& token_mint_error(
                        *old(registry),
                        *caller,
                        src_collection_args.address@,
                        provisioned,
                        *old(ledger),
                        mint_args,
                    ) == Some(error)
                    &&& *final(ledger) == *old(ledger)
                },
            },
    {
        let SourceCollectionArgs { address, name: _, symbol: _ } = src_collection_args;
        let resolved: Result<Principal, Cause> = match provisioned {
            None => match registry.resolve(caller, &address) {
                Err(_) => Err(Cause::Forbidden),
                Ok(Resolution::Existing(collection)) => Ok(collection),
                Ok(Resolution::Provision) => Err(Cause::NotProvisioned),
            },
            Some(outcome) => match registry.register_provisioned(caller, address, outcome) {
                Ok(collection) => Ok(collection),
                Err(ProvisionError::Forbidden) => Err(Cause::Forbidden),
                Err(ProvisionError::ProvisioningFailed(_)) => Err(Cause::ProvisioningFailed),
                Err(ProvisionError::RegistrationFailed { orphan: _ }) => Err(
                    Cause::RegistrationFailed,
                ),
            },
        };
        match resolved {
            Err(cause) => Err(ManagerError { step: Step::ResolveCollection, cause }),
            Ok(_) => Self::mint(ledger, mint_args),
        }
    }

    /// Burns a reflection token and makes the message that releases the
    /// escrowed token on the source chain.
    ///
    /// The steps are taken in order: the foreign address of the collection
    /// is looked up, the token is burned on the ledger given, which is the
    /// ledger of that collection, and the message is made for the foreign
    /// address. The first step that fails is reported. Where the lookup or
    /// the burn fails, nothing has changed. A burn is not undone: where the
    /// token does not fit a message, or the relay has no nonce left, the
    /// token is burned and the failure of the notification is reported.
    pub fn token_burn(
        registry: &NFTFactory,
        relay: &mut Relay,
        ledger: &mut NFTContract,
        collection: &Principal,
        token_id: TokenId,
        dest_chain_id: u64,
    ) -> (r: Result<BurnReceipt, ManagerError>)
        requires
            old(relay).wf(),
            old(ledger).wf(),
            token_id.wf(),
        ensures
            final(relay).wf(),
            final(ledger).wf(),
            final(ledger).info() == old(ledger).info(),
            final(relay)@ == old(relay)@,
            final(relay).chain_id() == old(relay).chain_id(),
            match r {
                Ok(receipt) => {
                    &&& token_burn_error(
                        *registry,
                        *old(relay),
                        *old(ledger),
                        *collection,
                        token_id,
                    ).is_none()
                    &&& receipt.token_id@ == token_id@
                    &&& final(relay).next_nonce() == old(relay).next_nonce() + 1
                    &&& receipt.message@ == outbound(
                        old(relay).chain_id(),
                        old(relay).next_nonce(),
                        OpType::Burn,
                        token_id.value() as u64,
                        dest_chain_id,
                        reverse(registry@, collection@)->Some_0,
                    )
                },
                Err(error) => {
                    &&& token_burn_error(
                        *registry,
                        *old(relay),
                        *old(ledger),
                        *collection,
                        token_id,
                    ) == Some(error)
                    &&& final(relay).next_nonce() == old(relay).next_nonce()
                },
            },
            match r {
                Err(error) if error.step != Step::Notify => *final(ledger) == *old(ledger),
                _ => {
                    &&& minted(old(ledger)@, token_id@)
                    &&& final(ledger)@ == with_burned(old(ledger)@, token_id@)
                    &&& final(ledger).spec_total_supply() + 1 == old(ledger).spec_total_supply()
                },
            },
    {
        let source: String = match registry.reverse_lookup(collection) {
            Some(address) => address,
            None => {
                return Err(
                    ManagerError { step: Step::LookupSource, cause: Cause::UnknownCollection },
                );
            },
        };
        let burned: TokenId = match ledger.burn(token_id) {
            Ok(burned) => burned,
            Err(error) => {
                return Err(ManagerError { step: Step::Burn, cause: Cause::Burn(error) });
            },
        };
        let token: u64 = match burned.to_u64() {
            Some(token) => token,
            None => {
                return Err(ManagerError { step: Step::Notify, cause: Cause::TokenIdOutOfRange });
            },
        };
        match relay.send_message(OpType::Burn, token, dest_chain_id, source) {
            Some(message) => Ok(BurnReceipt { token_id: burned, message }),
            None => Err(ManagerError { step: Step::Notify, cause: Cause::NonceExhausted }),
        }
    }

    /// Starts a mint whose steps the host takes: the collection is to be
    /// resolved first.
    pub fn begin_mint(source: SourceCollectionArgs, args: MintArgs) -> (run: MintRun)
        ensures
            run == (MintRun::Resolving { source, args }),
    {
        MintRun::Resolving { source, args }
    }

    /// Takes in what the registry answered. Only a mint that waits for its
    /// collection goes on: to the ledger of the collection, or to the
    /// failure of the step. Any other run stays as it is.
    pub fn mint_resolved(run: MintRun, resolved: Result<Principal, Cause>) -> (next: MintRun)
        ensures
            next == mint_after_resolved(run, resolved),
    {
        match run {
            MintRun::Resolving { source: _, args } => match resolved {
                Ok(collection) => MintRun::Minting { collection, args },
                Err(cause) => MintRun::Finished(
                    Err(ManagerError { step: Step::ResolveCollection, cause }),
                ),
            },
            other => other,
        }
    }

    /// Takes in what the ledger answered to the mint. Only a mint that
    /// waits for its ledger ends: with the token, or with the failure of
    /// the step. Any other run stays as it is.
    pub fn mint_answered(run: MintRun, minted: Result<TokenId, Cause>) -> (next: MintRun)
        ensures
            next == mint_after_answered(run, minted),
    {
        match run {
            MintRun::Minting { collection: _, args: _ } => match minted {
                Ok(token_id) => MintRun::Finished(Ok(token_id)),
                Err(cause) => MintRun::Finished(Err(ManagerError { step: Step::Mint, cause })),
            },
            other => other,
        }
    }

    /// Starts a burn whose steps the host takes: the foreign address of the
    /// collection is to be looked up first.
    pub fn begin_burn(collection: Principal, token_id: TokenId, dest_chain_id: u64) -> (run:
        BurnRun)
        ensures
            run == (BurnRun::LookingUp { collection, token_id, dest_chain_id }),
    {
        BurnRun::LookingUp { collection, token_id, dest_chain_id }
    }

    /// Takes in what the registry answered. Only a burn that waits for the
    /// foreign address goes on: to the ledger, or to the failure of the
    /// step; no burn is asked for where the lookup failed. Any other run
    /// stays as it is.
    pub fn burn_looked_up(run: BurnRun, looked_up: Result<Option<String>, Cause>) -> (next: BurnRun)
        ensures
            next == burn_after_looked_up(run, looked_up),
    {
        match run {
            BurnRun::LookingUp { collection, token_id, dest_chain_id } => match looked_up {
                Ok(Some(source)) => BurnRun::Burning { collection, token_id, source, dest_chain_id },
                Ok(None) => BurnRun::Finished {
                    result: Err(
                        ManagerError { step: Step::LookupSource, cause: Cause::UnknownCollection },
                    ),
                    notice: None,
                },
                Err(cause) => BurnRun::Finished {
                    result: Err(ManagerError { step: Step::LookupSource, cause }),
                    notice: None,
                },
            },
            other => other,
        }
    }

    /// Takes in what the ledger answered to the burn. Only a burn that
    /// waits for its ledger ends. A refusal ends it with the failure of the
    /// burn, and nothing is sent. A burned token ends it with success and
    /// the notice for the foreign address, which the host sends without
    /// waiting; where the token does not fit a message, the burn stands and
    /// the failure of the notification is reported. Any other run stays as
    /// it is.
    pub fn burn_answered(run: BurnRun, burned: Result<TokenId, Cause>) -> (next: BurnRun)
        requires
            run matches BurnRun::Burning { token_id, .. } ==> token_id.wf(),
        ensures
            next == burn_after_answered(run, burned),
    {
        match run {
            BurnRun::Burning { collection: _, token_id, source, dest_chain_id } => match burned {
                Err(cause) => BurnRun::Finished {
                    result: Err(ManagerError { step: Step::Burn, cause }),
                    notice: None,
                },
                Ok(burned_id) => match token_id.to_u64() {
                    Some(token) => BurnRun::Finished {
                        result: Ok(burned_id),
                        notice: Some(
                            Notice {
                                op_type: OpType::Burn,
                                token_id: token,
                                dest_chain_id,
                                dest_address: source,
                            },
                        ),
                    },
                    None => BurnRun::Finished {
                        result: Err(
                            ManagerError { step: Step::Notify, cause: Cause::TokenIdOutOfRange },
                        ),
                        notice: None,
                    },
                },
            },
            other => other,
        }
    }
}

} // verus!
