//! Network addresses as ordered sequences of typed components.
use vstd::prelude::*;

use multiaddr::Multiaddr;

use crate::codec::copy_bytes;

verus! {

/// Whether bytes are the binary form of a network address.
pub uninterp spec fn multiaddr_parses(b: Seq<u8>) -> bool;

/// Relies on `Multiaddr::try_from(Vec<u8>)`: whether it accepts the bytes
/// depends on the bytes alone, and it accepts the empty address.
#[verifier::external_body]
pub(crate) fn multiaddr_ok(b: &[u8]) -> (r: bool)
    ensures
        r == multiaddr_parses(b@),
        b@.len() == 0 ==> r,
{
    Multiaddr::try_from(b.to_vec()).is_ok()
}

/// One component of a network address.
#[derive(Debug)]
pub enum Component {
    /// A symbolic-domain marker, holding the domain text.
    Domain(String),
    /// A peer identity, as its multihash bytes.
    Peer(Vec<u8>),
    /// A relay-circuit marker.
    Circuit,
    /// Any other component, in its binary form.
    Other(Vec<u8>),
}

/// What a component is, mathematically.
pub enum ComponentView {
    Domain(Seq<char>),
    Peer(Seq<u8>),
    Circuit,
    Other(Seq<u8>),
}

impl View for Component {
    type V = ComponentView;

    open spec fn view(&self) -> ComponentView {
        match self {
            Component::Domain(d) => ComponentView::Domain(d@),
            Component::Peer(p) => ComponentView::Peer(p@),
            Component::Circuit => ComponentView::Circuit,
            Component::Other(o) => ComponentView::Other(o@),
        }
    }
}

impl Component {
    /// A copy of the component.
    pub fn duplicate(&self) -> (r: Component)
        ensures
            r@ == self@,
    {
        match self {
            Component::Domain(d) => Component::Domain(d.clone()),
            Component::Peer(p) => Component::Peer(copy_bytes(p.as_slice())),
            Component::Circuit => Component::Circuit,
            Component::Other(o) => Component::Other(copy_bytes(o.as_slice())),
        }
    }

    /// Whether the component is a symbolic-domain marker.
    pub fn is_domain(&self) -> (r: bool)
        ensures
            r == (self@ is Domain),
    {
        match self {
            Component::Domain(_) => true,
            _ => false,
        }
    }
}

/// A network address: an ordered sequence of components.
#[derive(Debug)]
pub struct Address {
    pub components: Vec<Component>,
}

impl View for Address {
    type V = Seq<ComponentView>;

    open spec fn view(&self) -> Seq<ComponentView> {
        self.components@.map_values(|c: Component| c@)
    }
}

impl Address {
    /// The address without components.
    pub fn empty() -> (r: Address)
        ensures
            r@ == Seq::<ComponentView>::empty(),
    {
        let r = Address { components: Vec::new() };
        assert(r@ =~= Seq::<ComponentView>::empty());
        r
    }

    /// Appends a component.
    pub fn push(&mut self, c: Component)
        ensures
            final(self)@ == old(self)@.push(c@),
    {
        self.components.push(c);
        assert(self@ =~= old(self)@.push(c@));
    }

    /// Appends copies of the components `from..to` of `other`.
    pub fn extend_from(&mut self, other: &Address, from: usize, to: usize)
        requires
            from <= to <= other@.len(),
        ensures
            final(self)@ == old(self)@ + other@.subrange(from as int, to as int),
    {
        let ghost start = old(self)@;
        let mut i: usize = from;
        while i < to
            invariant
                from <= i <= to <= other@.len(),
                self@ == start + other@.subrange(from as int, i as int),
            decreases to - i,
        {
            let c = other.components[i].duplicate();
            self.push(c);
            i = i + 1;
            assert(self@ =~= start + other@.subrange(from as int, i as int));
        }
    }

    /// A copy of the address.
    pub fn duplicate(&self) -> (r: Address)
        ensures
            r@ == self@,
    {
        let mut r = Address::empty();
        r.extend_from(self, 0, self.components.len());
        assert(self@.subrange(0, self@.len() as int) =~= self@);
        r
    }

    /// The number of components.
    pub fn len(&self) -> (r: usize)
        ensures
            r == self@.len(),
    {
        self.components.len()
    }
}

} // verus!
