//! Listening on addresses that carry a symbolic domain: the domain is
//! claimed once for all listeners that name it, and the marker is rewritten
//! to the local peer identity before the address reaches the underlying
//! transport.
use vstd::prelude::*;

use std::collections::HashMap;

use crate::address::{Address, Component, ComponentView};
use crate::codec::copy_bytes;

verus! {

broadcast use vstd::std_specs::hash::group_hash_axioms;

/// Resolution of a symbolic domain failed.
#[derive(Debug, PartialEq, Eq)]
pub struct ResolveError;

/// Registration of a symbolic domain failed.
#[derive(Debug, PartialEq, Eq)]
pub struct RegisterError;

/// The errors of the wrapping transport, over the errors `E` of the
/// underlying one.
#[derive(Debug)]
pub enum Error<E> {
    /// The underlying transport failed.
    Transport(E),
    /// A symbolic domain could not be resolved.
    ResolveError(ResolveError),
    /// The address has a shape that is not supported.
    MultiaddrNotSupported(Address),
    /// Every dial attempt failed; their errors in attempt order.
    Dial(Vec<Error<E>>),
    /// A symbolic domain could not be registered.
    RegisterError(RegisterError),
    /// Already listening on that domain.
    AlreadyListening(String),
}

/// Options of the wrapping transport.
#[derive(Debug)]
pub struct AlternetOptions {
    /// Whether connections may also go through relays.
    pub relay: bool,
}

impl Default for AlternetOptions {
    fn default() -> (r: AlternetOptions)
        ensures
            !r.relay,
    {
        AlternetOptions { relay: false }
    }
}

/// Appending a symbolic-domain marker to an address.
pub trait WithAlternetExt: Sized + View<V = Seq<ComponentView>> {
    /// The address followed by a marker for `domain`.
    fn with_an(&self, domain: &str) -> (r: Self)
        ensures
            r@ == self@.push(ComponentView::Domain(domain@)),
    ;
}

impl WithAlternetExt for Address {
    fn with_an(&self, domain: &str) -> (r: Address) {
        let mut r = self.duplicate();
        r.push(Component::Domain(domain.to_owned()));
        r
    }
}

// ----- where the marker stands -----
/// The first relay-circuit marker at or after `i`.
pub open spec fn first_circuit(a: Seq<ComponentView>, i: int) -> Option<int>
    decreases a.len() - i,
{
    if i < 0 || i >= a.len() {
        None
    } else if a[i] is Circuit {
        Some(i)
    } else {
        first_circuit(a, i + 1)
    }
}

/// The first symbolic-domain marker at or after `i`.
pub open spec fn first_domain(a: Seq<ComponentView>, i: int) -> Option<int>
    decreases a.len() - i,
{
    if i < 0 || i >= a.len() {
        None
    } else if a[i] is Domain {
        Some(i)
    } else {
        first_domain(a, i + 1)
    }
}

/// Where the search for the marker starts: at the first relay-circuit
/// marker, or at the beginning.
pub open spec fn listen_search_start(a: Seq<ComponentView>) -> int {
    match first_circuit(a, 0) {
        Some(p) => p,
        None => 0,
    }
}

/// The outcome of preparing `a` for listening with local identity `local`:
/// `Err` where a second marker follows the first; else the domain of the
/// marker, if any, and the address with the marker replaced by the local
/// identity.
pub open spec fn listen_rewrite(a: Seq<ComponentView>, local: Seq<u8>) -> Result<
    (Option<Seq<char>>, Seq<ComponentView>),
    (),
> {
    match first_domain(a, listen_search_start(a)) {
        None => Ok((None, a)),
        Some(d) => if first_domain(a, d + 1) is Some {
            Err(())
        } else {
            Ok((Some(a[d]->Domain_0), a.update(d, ComponentView::Peer(local))))
        },
    }
}

fn find_circuit(a: &Address) -> (r: Option<usize>)
    ensures
        match r {
            Some(i) => first_circuit(a@, 0) == Some(i as int) && i < a@.len(),
            None => first_circuit(a@, 0) is None,
        },
{
    let mut i: usize = 0;
    while i < a.components.len()
        invariant
            i <= a@.len(),
            first_circuit(a@, 0) == first_circuit(a@, i as int),
        decreases a.components.len() - i,
    {
        if let Component::Circuit = a.components[i] {
            return Some(i);
        }
        i = i + 1;
    }
    None
}

fn find_domain(a: &Address, from: usize) -> (r: Option<usize>)
    requires
        from <= a@.len(),
    ensures
        match r {
            Some(i) => first_domain(a@, from as int) == Some(i as int) && i < a.components.len(),
            None => first_domain(a@, from as int) is None,
        },
{
    let mut i: usize = from;
    while i < a.components.len()
        invariant
            from <= i <= a@.len(),
            first_domain(a@, from as int) == first_domain(a@, i as int),
        decreases a.components.len() - i,
    {
        if a.components[i].is_domain() {
            return Some(i);
        }
        i = i + 1;
    }
    None
}

/// What listening on an address asks of the caller.
#[derive(Debug)]
pub struct ListenPlan {
    /// The address to hand to the underlying transport.
    pub address: Address,
    /// The domain to register, where this is its first listener.
    pub register: Option<String>,
}

// ----- listeners per domain -----
/// The domains that listeners claim, by listener.
pub struct DomainIds {
    id_to_domain: HashMap<u64, String>,
    claimed: Vec<String>,
}

pub struct DomainIdsView {
    /// The domain of each listener.
    pub listeners: Map<u64, Seq<char>>,
    /// Every domain that was ever claimed, in order of first claim.
    pub claimed: Seq<Seq<char>>,
}

impl View for DomainIds {
    type V = DomainIdsView;

    closed spec fn view(&self) -> DomainIdsView {
        DomainIdsView {
            listeners: Map::new(
                |id: u64| self.id_to_domain@.contains_key(id),
                |id: u64| self.id_to_domain@[id]@,
            ),
            claimed: self.claimed@.map_values(|s: String| s@),
        }
    }
}

impl DomainIds {
    /// No listener and no claimed domain.
    pub fn new() -> (r: DomainIds)
        ensures
            r@.listeners == Map::<u64, Seq<char>>::empty(),
            r@.claimed == Seq::<Seq<char>>::empty(),
    {
        let r = DomainIds { id_to_domain: HashMap::new(), claimed: Vec::new() };
        assert(r@.listeners =~= Map::<u64, Seq<char>>::empty());
        assert(r@.claimed =~= Seq::<Seq<char>>::empty());
        r
    }

    /// Records that listener `id` claims `domain`; returns whether this is
    /// the first claim of the domain.
    pub fn add(&mut self, id: u64, domain: String) -> (r: bool)
        requires
            !old(self)@.listeners.contains_key(id),
        ensures
            r == !old(self)@.claimed.contains(domain@),
            final(self)@.listeners == old(self)@.listeners.insert(id, domain@),
            final(self)@.claimed == if r {
                old(self)@.claimed.push(domain@)
            } else {
                old(self)@.claimed
            },
    {
        let ghost before = self@;
        let mut i: usize = 0;
        let mut known = false;
        while i < self.claimed.len()
            invariant
                i <= self.claimed@.len(),
                before == self@,
                !known ==> forall|j: int| 0 <= j < i ==> self.claimed@[j]@ != domain@,
                known ==> before.claimed.contains(domain@),
            decreases self.claimed.len() - i,
        {
            if self.claimed[i] == domain {
                known = true;
                assert(before.claimed[i as int] == domain@);
            }
            i = i + 1;
        }
        if !known {
            assert(!before.claimed.contains(domain@)) by {
                if before.claimed.contains(domain@) {
                    let j = choose|j: int| 0 <= j < before.claimed.len() && before.claimed[j] == domain@;
                    assert(self.claimed@[j]@ == domain@);
                }
            }
            self.claimed.push(domain.clone());
            assert(self@.claimed =~= before.claimed.push(domain@));
        }
        self.id_to_domain.insert(id, domain);
        assert(self@.listeners =~= before.listeners.insert(id, domain@));
        !known
    }

    /// Whether listener `id` claims a domain.
    pub fn contains_id(&self, id: u64) -> (r: bool)
        ensures
            r == self@.listeners.contains_key(id),
    {
        self.id_to_domain.contains_key(&id)
    }

    /// Forgets listener `id`; returns the domain it claimed. Claimed domains
    /// stay claimed.
    pub fn remove_id(&mut self, id: u64) -> (r: Option<String>)
        ensures
            match r {
                Some(d) => old(self)@.listeners.contains_key(id) && d@ == old(self)@.listeners[id],
                None => !old(self)@.listeners.contains_key(id),
            },
            final(self)@.listeners == old(self)@.listeners.remove(id),
            final(self)@.claimed == old(self)@.claimed,
    {
        let ghost before = self@;
        let r = self.id_to_domain.remove(&id);
        assert(self@.listeners =~= before.listeners.remove(id));
        r
    }
}

/// The listening side of the wrapping transport: the local identity and the
/// domains that listeners claim.
pub struct Transport {
    peer: Vec<u8>,
    domains: DomainIds,
}

impl Transport {
    /// The local identity, as multihash bytes.
    pub closed spec fn local_peer(&self) -> Seq<u8> {
        self.peer@
    }

    pub closed spec fn domains(&self) -> DomainIdsView {
        self.domains@
    }

    /// A transport for the local identity `peer`, with no listener.
    pub fn new(peer: Vec<u8>) -> (r: Transport)
        ensures
            r.local_peer() == peer@,
            r.domains().listeners == Map::<u64, Seq<char>>::empty(),
            r.domains().claimed == Seq::<Seq<char>>::empty(),
    {
        Transport { peer, domains: DomainIds::new() }
    }

    /// Prepares listening on `addr` as listener `id`. A symbolic-domain
    /// marker at or after the first relay-circuit marker is replaced by the
    /// local identity and its domain claimed for the listener; the domain is
    /// to be registered where no listener claimed it before. A second marker
    /// after it is refused.
    pub fn listen_on<E>(&mut self, id: u64, addr: Address) -> (r: Result<ListenPlan, Error<E>>)
        requires
            !old(self).domains().listeners.contains_key(id),
        ensures
            final(self).local_peer() == old(self).local_peer(),
            match listen_rewrite(addr@, old(self).local_peer()) {
                Err(()) => r is Err && r->Err_0 is MultiaddrNotSupported
                    && r->Err_0->MultiaddrNotSupported_0@ == addr@ && final(self).domains()
                    == old(self).domains(),
                Ok((None, rewritten)) => r is Ok && r->Ok_0.address@ == rewritten
                    && r->Ok_0.register is None && final(self).domains() == old(self).domains(),
                Ok((Some(d), rewritten)) => r is Ok && r->Ok_0.address@ == rewritten && (
                r->Ok_0.register is Some <==> !old(self).domains().claimed.contains(d)) && (
                r->Ok_0.register is Some ==> r->Ok_0.register->Some_0@ == d)
                    && final(self).domains().listeners == old(self).domains().listeners.insert(
                    id,
                    d,
                ) && final(self).domains().claimed == claim(old(self).domains().claimed, d),
            },
    {
        let start = match find_circuit(&addr) {
            Some(p) => p,
            None => 0,
        };
        let d = match find_domain(&addr, start) {
            None => {
                return Ok(ListenPlan { address: addr, register: None });
            },
            Some(d) => d,
        };
        if find_domain(&addr, d + 1).is_some() {
            return Err(Error::MultiaddrNotSupported(addr));
        }
        let domain = match &addr.components[d] {
            Component::Domain(s) => s.clone(),
            _ => {
                proof {
                    assert(first_domain(addr@, start as int) == Some(d as int));
                    lemma_first_domain_is_domain(addr@, start as int);
                }
                return Err(Error::MultiaddrNotSupported(addr));
            },
        };
        proof {
            lemma_first_domain_is_domain(addr@, start as int);
        }
        let is_new = self.domains.add(id, domain.clone());
        let mut address = addr;
        let ghost before = address@;
        address.components.set(d, Component::Peer(copy_bytes(self.peer.as_slice())));
        assert(address@ =~= before.update(d as int, ComponentView::Peer(self.peer@)));
        let register = if is_new {
            Some(domain)
        } else {
            None
        };
        Ok(ListenPlan { address, register })
    }

    /// Whether listener `id` claims a domain.
    pub fn is_listening(&self, id: u64) -> (r: bool)
        ensures
            r == self.domains().listeners.contains_key(id),
    {
        self.domains.contains_id(id)
    }

    /// Forgets listener `id`; returns the domain it claimed. The domain stays
    /// registered.
    pub fn remove_listener(&mut self, id: u64) -> (r: Option<String>)
        ensures
            final(self).local_peer() == old(self).local_peer(),
            match r {
                Some(d) => old(self).domains().listeners.contains_key(id) && d@ == old(
                    self,
                ).domains().listeners[id],
                None => !old(self).domains().listeners.contains_key(id),
            },
            final(self).domains().listeners == old(self).domains().listeners.remove(id),
            final(self).domains().claimed == old(self).domains().claimed,
    {
        self.domains.remove_id(id)
    }
}

/// The claimed domains after a listener claims `d`: a domain is recorded
/// at its first claim.
pub open spec fn claim(claimed: Seq<Seq<char>>, d: Seq<char>) -> Seq<Seq<char>> {
    if claimed.contains(d) {
        claimed
    } else {
        claimed.push(d)
    }
}

/// However many listeners claim one domain, it is registered once: a claim
/// registers only a domain not claimed before, after a claim the domain is
/// claimed, and a further claim neither registers it nor changes what is
/// claimed.
pub proof fn lemma_domain_registered_once(claimed: Seq<Seq<char>>, d: Seq<char>)
    ensures
        claim(claimed, d).contains(d),
        claim(claim(claimed, d), d) == claim(claimed, d),
{
    if !claimed.contains(d) {
        assert(claimed.push(d)[claimed.len() as int] == d);
    }
}

proof fn lemma_first_domain_is_domain(a: Seq<ComponentView>, i: int)
    requires
        first_domain(a, i) is Some,
    ensures
        0 <= first_domain(a, i)->Some_0 < a.len(),
        a[first_domain(a, i)->Some_0] is Domain,
        first_domain(a, i)->Some_0 >= i,
    decreases a.len() - i,
{
    if 0 <= i < a.len() && !(a[i] is Domain) {
        lemma_first_domain_is_domain(a, i + 1);
    }
}

} // verus!
