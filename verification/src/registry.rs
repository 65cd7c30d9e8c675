//! The collection registry: which local collection mirrors which foreign
//! contract.
//!
//! A foreign address is registered at most once and never removed. Only the
//! manager may ask for a collection to be resolved or created. Provisioning
//! a new collection is the work of the host; the registry decides when it is
//! needed and records its result.

use crate::account::Principal;
use vstd::prelude::*;

verus! {

/// One registration: a foreign contract address and the identity of the
/// local collection that mirrors it.
pub struct Registration {
    pub address: Seq<char>,
    pub identity: Seq<u8>,
}

/// Whether position `i` registers `address`.
pub open spec fn registered_at(e: Seq<Registration>, i: int, address: Seq<char>) -> bool {
    0 <= i < e.len() && e[i].address == address
}

/// No address is registered twice.
pub open spec fn distinct_addresses(e: Seq<Registration>) -> bool {
    forall|i: int, j: int| 0 <= i < j < e.len() ==> e[i].address != e[j].address
}

/// The collection registered for `address`, if there is one.
pub open spec fn lookup(e: Seq<Registration>, address: Seq<char>) -> Option<Seq<u8>> {
    if exists|i: int| registered_at(e, i, address) {
        Some(e[choose|i: int| registered_at(e, i, address)].identity)
    } else {
        None
    }
}

/// Whether position `i` is the first that registers `identity`.
pub open spec fn first_source_at(e: Seq<Registration>, i: int, identity: Seq<u8>) -> bool {
    &&& 0 <= i < e.len()
    &&& e[i].identity == identity
    &&& forall|j: int| 0 <= j < i ==> (#[trigger] e[j]).identity != identity
}

/// The foreign address that `identity` mirrors: the earliest registered, if
/// there is one.
pub open spec fn reverse(e: Seq<Registration>, identity: Seq<u8>) -> Option<Seq<char>> {
    if exists|i: int| first_source_at(e, i, identity) {
        Some(e[choose|i: int| first_source_at(e, i, identity)].address)
    } else {
        None
    }
}

/// With distinct addresses an address has one position.
pub proof fn lemma_lookup_at(e: Seq<Registration>, i: int, address: Seq<char>)
    requires
        distinct_addresses(e),
        registered_at(e, i, address),
    ensures
        lookup(e, address) == Some(e[i].identity),
{
    let j = choose|j: int| registered_at(e, j, address);
    assert(registered_at(e, j, address));
    if i < j {
        assert(e[i].address != e[j].address);
    } else if j < i {
        assert(e[j].address != e[i].address);
    }
}

/// What a new registration at the end changes for one address.
pub proof fn lemma_lookup_push(e: Seq<Registration>, x: Registration, address: Seq<char>)
    requires
        distinct_addresses(e),
        lookup(e, x.address).is_none(),
    ensures
        distinct_addresses(e.push(x)),
        lookup(e.push(x), address) == if address == x.address {
            Some(x.identity)
        } else {
            lookup(e, address)
        },
{
    let g = e.push(x);
    assert forall|i: int, j: int| 0 <= i < j < g.len() implies g[i].address != g[j].address by {
        if j == e.len() {
            assert(!registered_at(e, i, x.address));
        }
    }
    if address == x.address {
        assert(registered_at(g, e.len() as int, address));
        lemma_lookup_at(g, e.len() as int, address);
    } else if exists|i: int| registered_at(e, i, address) {
        let i = choose|i: int| registered_at(e, i, address);
        assert(registered_at(g, i, address));
        lemma_lookup_at(g, i, address);
        lemma_lookup_at(e, i, address);
    } else if exists|i: int| registered_at(g, i, address) {
        let i = choose|i: int| registered_at(g, i, address);
        assert(registered_at(e, i, address));
    }
}

/// What the registry answers to a request to resolve or create.
#[derive(Debug, PartialEq, Eq)]
pub enum Resolution {
    /// The address is registered: this is its collection.
    Existing(Principal),
    /// The address is unknown: a collection has to be provisioned for it.
    Provision,
}

/// Why no collection was resolved or created.
#[derive(Debug, PartialEq, Eq)]
pub enum ProvisionError {
    /// The caller is not the manager.
    Forbidden,
    /// The host could not provision a collection; its report is attached.
    ProvisioningFailed(String),
    /// A collection was provisioned but the address had been registered in
    /// the meantime. The provisioned collection is left without a
    /// registration.
    RegistrationFailed { orphan: Principal },
}

struct Entry {
    address: String,
    identity: Principal,
}

impl Entry {
    spec fn registration(&self) -> Registration {
        Registration { address: self.address@, identity: self.identity@ }
    }
}

/// The registry of collections, with the identity of the manager that may
/// create them.
pub struct NFTFactory {
    manager: Principal,
    collections: Vec<Entry>,
}

impl View for NFTFactory {
    type V = Seq<Registration>;

    /// The registrations, in the order they were made.
    closed spec fn view(&self) -> Seq<Registration> {
        self.collections@.map_values(|e: Entry| e.registration())
    }
}

/// The registrations that a list of pairs stands for.
pub open spec fn registrations_view(pairs: Seq<(String, Principal)>) -> Seq<Registration> {
    pairs.map_values(|p: (String, Principal)| Registration { address: p.0@, identity: p.1@ })
}

impl NFTFactory {
    /// The identity of the manager.
    pub closed spec fn manager(&self) -> Seq<u8> {
        self.manager@
    }

    /// The invariant of a registry: no address is registered twice.
    pub open spec fn wf(&self) -> bool {
        distinct_addresses(self@)
    }

    /// An empty registry that answers to the given manager.
    pub fn new(manager: Principal) -> (factory: NFTFactory)
        ensures
            factory.wf(),
            factory@ == Seq::<Registration>::empty(),
            factory.manager() == manager@,
    {
        let factory = NFTFactory { manager, collections: Vec::new() };
        proof {
            assert(factory@ =~= Seq::<Registration>::empty());
        }
        factory
    }

    /// The position that registers an address.
    fn find(&self, address: &String) -> (r: Option<usize>)
        ensures
            match r {
                Some(i) => registered_at(self@, i as int, address@),
                None => forall|i: int| !registered_at(self@, i, address@),
            },
    {
        let n: usize = self.collections.len();
        let mut i: usize = 0;
        while i < n
            invariant
                n == self.collections@.len(),
                i <= n,
                forall|j: int| 0 <= j < i ==> !registered_at(self@, j, address@),
            decreases n - i,
        {
            if self.collections[i].address == *address {
                return Some(i);
            }
            i += 1;
        }
        None
    }

    /// Records the collection of a foreign address. An address is registered
    /// once: for an address that is already registered, the registration
    /// stands and nothing changes.
    pub fn store_nft_collection(&mut self, src_collection_addr: String, canister_id: Principal)
        requires
            old(self).wf(),
        ensures
            final(self).wf(),
            final(self).manager() == old(self).manager(),
            final(self)@ == if lookup(old(self)@, src_collection_addr@).is_some() {
                old(self)@
            } else {
                old(self)@.push(
                    Registration { address: src_collection_addr@, identity: canister_id@ },
                )
            },
            lookup(final(self)@, src_collection_addr@) == match lookup(
                old(self)@,
                src_collection_addr@,
            ) {
                Some(first) => Some(first),
                None => Some(canister_id@),
            },
            forall|address: Seq<char>|
                address != src_collection_addr@ ==> #[trigger] lookup(final(self)@, address)
                    == lookup(old(self)@, address),
    {
        let ghost before = self@;
        let ghost address = src_collection_addr@;
        let ghost identity = canister_id@;
        match self.find(&src_collection_addr) {
            Some(i) => {
                proof {
                    lemma_lookup_at(before, i as int, address);
                }
            },
            None => {
                self.collections.push(Entry { address: src_collection_addr, identity: canister_id });
                proof {
                    let x = Registration { address, identity };
                    assert(self@ =~= before.push(x));
                    lemma_lookup_push(before, x, address);
                    assert forall|other: Seq<char>| other != address implies #[trigger] lookup(
                        self@,
                        other,
                    ) == lookup(before, other) by {
                        lemma_lookup_push(before, x, other);
                    }
                }
            },
        }
    }

    /// The collection registered for a foreign address.
    pub fn get_nft_collection(&self, src_chain_contract_addr: &String) -> (r: Option<Principal>)
        requires
            self.wf(),
        ensures
            match r {
                Some(identity) => lookup(self@, src_chain_contract_addr@) == Some(identity@),
                None => lookup(self@, src_chain_contract_addr@).is_none(),
            },
    {
        match self.find(src_chain_contract_addr) {
            Some(i) => {
                proof {
                    lemma_lookup_at(self@, i as int, src_chain_contract_addr@);
                }
                Some(self.collections[i].identity.clone())
            },
            None => None,
        }
    }

    /// All registrations, in the order they were made.
    pub fn get_collections(&self) -> (pairs: Vec<(String, Principal)>)
        ensures
            registrations_view(pairs@) == self@,
    {
        let n: usize = self.collections.len();
        let mut pairs: Vec<(String, Principal)> = Vec::new();
        let mut i: usize = 0;
        while i < n
            invariant
                n == self.collections@.len(),
                i <= n,
                pairs@.len() == i,
                forall|j: int| 0 <= j < i ==> registrations_view(pairs@)[j] == self@[j],
            decreases n - i,
        {
            let address = self.collections[i].address.clone();
            let identity = self.collections[i].identity.clone();
            pairs.push((address, identity));
            i += 1;
        }
        proof {
            assert(registrations_view(pairs@) =~= self@);
        }
        pairs
    }

    /// The foreign address that a local collection mirrors: the earliest
    /// registered, if there is one.
    pub fn reverse_lookup(&self, collection: &Principal) -> (r: Option<String>)
        ensures
            match r {
                Some(address) => reverse(self@, collection@) == Some(address@),
                None => reverse(self@, collection@).is_none(),
            },
    {
        let n: usize = self.collections.len();
        let mut i: usize = 0;
        while i < n
            invariant
                n == self.collections@.len(),
                i <= n,
                forall|j: int| 0 <= j < i ==> (#[trigger] self@[j]).identity != collection@,
            decreases n - i,
        {
            if self.collections[i].identity == *collection {
                proof {
                    let e = self@;
                    assert(first_source_at(e, i as int, collection@));
                    let c = choose|c: int| first_source_at(e, c, collection@);
                    assert(first_source_at(e, c, collection@));
                    if c < i {
                        assert(e[c].identity != collection@);
                    } else if i < c {
                        assert(e[i as int].identity != collection@);
                    }
                }
                return Some(self.collections[i].address.clone());
            }
            i += 1;
        }
        proof {
            let e = self@;
            if exists|c: int| first_source_at(e, c, collection@) {
                let c = choose|c: int| first_source_at(e, c, collection@);
                assert(e[c].identity != collection@);
            }
        }
        None
    }

    /// Decides what a request to resolve or create a collection needs.
    ///
    /// Any caller but the manager is refused as `Forbidden`. For a
    /// registered address the answer is its collection. For an unknown
    /// address the answer is that one has to be provisioned. Nothing
    /// changes.
    pub fn resolve(&self, caller: &Principal, foreign_address: &String) -> (r: Result<
        Resolution,
        ProvisionError,
    >)
        requires
            self.wf(),
        ensures
            caller@ != self.manager() ==> r matches Err(ProvisionError::Forbidden),
            caller@ == self.manager() ==> match lookup(self@, foreign_address@) {
                Some(identity) => r matches Ok(Resolution::Existing(found)) && found@ == identity,
                None => r matches Ok(Resolution::Provision),
            },
    {
        if *caller != self.manager {
            return Err(ProvisionError::Forbidden);
        }
        match self.get_nft_collection(foreign_address) {
            Some(identity) => Ok(Resolution::Existing(identity)),
            None => Ok(Resolution::Provision),
        }
    }

    /// Records the outcome of provisioning a collection for an address.
    ///
    /// Any caller but the manager is refused as `Forbidden`. A failed
    /// provisioning is passed on as `ProvisioningFailed`. A provisioned
    /// collection is registered for the address and returned, unless the
    /// address has been registered in the meantime: then the registration
    /// stands, and the new collection is reported as an orphan. Only a
    /// successful registration changes the registry.
    pub fn register_provisioned(
        &mut self,
        caller: &Principal,
        foreign_address: String,
        provisioned: Result<Principal, String>,
    ) -> (r: Result<Principal, ProvisionError>)
        requires
            old(self).wf(),
        ensures
            final(self).wf(),
            final(self).manager() == old(self).manager(),
            caller@ != old(self).manager() ==> r matches Err(ProvisionError::Forbidden),
            caller@ == old(self).manager() ==> match provisioned {
                Err(report) => r matches Err(ProvisionError::ProvisioningFailed(passed)) && passed
                    == report,
                Ok(identity) => match lookup(old(self)@, foreign_address@) {
                    Some(_) => r matches Err(ProvisionError::RegistrationFailed { orphan })
                        && orphan@ == identity@,
                    None => r matches Ok(registered) && registered@ == identity@,
                },
            },
            r is Err ==> final(self)@ == old(self)@,
            r matches Ok(registered) ==> {
                &&& final(self)@ == old(self)@.push(
                    Registration { address: foreign_address@, identity: registered@ },
                )
                &&& lookup(final(self)@, foreign_address@) == Some(registered@)
                &&& forall|address: Seq<char>|
                    address != foreign_address@ ==> #[trigger] lookup(final(self)@, address)
                        == lookup(old(self)@, address)
            },
    {
        if *caller != self.manager {
            return Err(ProvisionError::Forbidden);
        }
        match provisioned {
            Err(report) => Err(ProvisionError::ProvisioningFailed(report)),
            Ok(identity) => {
                if self.find(&foreign_address).is_some() {
                    proof {
                        let i = choose|i: int| registered_at(self@, i, foreign_address@);
                        lemma_lookup_at(self@, i, foreign_address@);
                    }
                    return Err(ProvisionError::RegistrationFailed { orphan: identity });
                }
                let registered = identity.clone();
                self.store_nft_collection(foreign_address, identity);
                Ok(registered)
            },
        }
    }
}

} // verus!
