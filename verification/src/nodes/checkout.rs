//! A node taken out of a [`NodeList`] while it is being reserved.
//!
//! The node goes back into the list when the work with it is done, unless it
//! is consumed.
use vstd::prelude::*;

use super::{address_view, clone_address, record_le, AddressView, NodeAddress, NodeList, NodeMetadata};

verus! {

/// A node taken out of the list, with its metadata.
#[derive(Debug)]
pub struct CheckedOutNode {
    node: Option<NodeAddress>,
    pub metadata: NodeMetadata,
}

impl CheckedOutNode {
    /// The address held, if it has not been consumed.
    pub closed spec fn spec_node(self) -> Option<NodeAddress> {
        self.node
    }

    /// The metadata held.
    pub closed spec fn spec_metadata(self) -> NodeMetadata {
        self.metadata
    }

    /// The checked out address.
    pub fn address(&self) -> (a: &NodeAddress)
        requires
            self.spec_node() is Some,
        ensures
            *a == self.spec_node()->0,
    {
        self.node.as_ref().unwrap()
    }

    /// The host of the checked out node.
    pub fn host(&self) -> (h: &str)
        requires
            self.spec_node() is Some,
        ensures
            h@ == (self.spec_node()->0).0@,
    {
        self.address().0.as_str()
    }

    /// The port of the checked out node.
    pub fn port(&self) -> (p: u16)
        requires
            self.spec_node() is Some,
        ensures
            p == (self.spec_node()->0).1,
    {
        self.address().1
    }

    /// When the node was last used.
    pub fn last_used(&self) -> (t: u64)
        ensures
            t == self.spec_metadata().spec_last_used(),
    {
        self.metadata.last_used()
    }

    /// How long ago, at `now`, the node was last used (0 if `now` is earlier).
    pub fn since_last_used(&self, now: u64) -> (d: u64)
        ensures
            d == (if now >= self.spec_metadata().spec_last_used() {
                now - self.spec_metadata().spec_last_used()
            } else {
                0
            }),
    {
        let t = self.last_used();
        if now >= t {
            now - t
        } else {
            0
        }
    }

    /// Takes the address out for good: it does not go back into the list.
    pub fn consume(self) -> (a: NodeAddress)
        requires
            self.spec_node() is Some,
        ensures
            a == self.spec_node()->0,
    {
        self.node.unwrap()
    }

    /// The address and the metadata.
    pub fn decompose(self) -> (r: (NodeAddress, NodeMetadata))
        requires
            self.spec_node() is Some,
        ensures
            r.0 == self.spec_node()->0,
            r.1 == self.spec_metadata(),
    {
        (self.node.unwrap(), self.metadata)
    }

    /// Puts the node back into the list at `now`, and returns its address.
    pub fn complete(self, list: &mut NodeList, now: u64) -> (a: NodeAddress)
        requires
            self.spec_node() is Some,
            old(list).wf(),
            now >= old(list).spec_clock(),
        ensures
            a == self.spec_node()->0,
            final(list).wf(),
            final(list).nodes() == old(list).nodes().insert(address_view(a), now),
            final(list).spec_clock() == now,
    {
        let a = clone_address(self.address());
        list.reinsert_checked_out(self, now);
        a
    }

    /// Puts the node back into the list at `now`.
    pub fn discard(self, list: &mut NodeList, now: u64)
        requires
            self.spec_node() is Some,
            old(list).wf(),
            now >= old(list).spec_clock(),
        ensures
            final(list).wf(),
            final(list).nodes() == old(list).nodes().insert(address_view(self.spec_node()->0), now),
            final(list).spec_clock() == now,
    {
        list.reinsert_checked_out(self, now);
    }
}

impl NodeList {
    /// Checks out the least recently used node.
    pub fn checkout(&mut self) -> (r: Option<CheckedOutNode>)
        requires
            old(self).wf(),
        ensures
            final(self).wf(),
            final(self).spec_clock() == old(self).spec_clock(),
            r is None ==> old(self).nodes() == Map::<AddressView, u64>::empty() && final(self).nodes()
                == old(self).nodes(),
            r matches Some(c) ==> {
                &&& c.spec_node() is Some
                &&& old(self).nodes().contains_key(address_view(c.spec_node()->0))
                &&& c.spec_metadata().spec_last_used() == old(self).nodes()[address_view(c.spec_node()->0)]
                &&& final(self).nodes() == old(self).nodes().remove(address_view(c.spec_node()->0))
                &&& forall|b: AddressView| #[trigger]
                    old(self).nodes().contains_key(b) ==> record_le(
                        (c.spec_metadata().spec_last_used(), address_view(c.spec_node()->0)),
                        (old(self).nodes()[b], b),
                    )
            },
    {
        match self.next_with_metadata() {
            Some((metadata, node)) => Some(CheckedOutNode { node: Some(node), metadata }),
            None => None,
        }
    }

    /// Checks out a node picked at random.
    pub fn checkout_random(&mut self) -> (r: Option<CheckedOutNode>)
        requires
            old(self).wf(),
        ensures
            final(self).wf(),
            final(self).spec_clock() == old(self).spec_clock(),
            r is None <==> old(self).nodes() == Map::<AddressView, u64>::empty(),
            r matches Some(c) ==> {
                &&& c.spec_node() is Some
                &&& old(self).nodes().contains_key(address_view(c.spec_node()->0))
                &&& c.spec_metadata().spec_last_used() == old(self).nodes()[address_view(c.spec_node()->0)]
                &&& final(self).nodes() == old(self).nodes().remove(address_view(c.spec_node()->0))
            },
    {
        match self.random_with_metadata() {
            Some((metadata, node)) => Some(CheckedOutNode { node: Some(node), metadata }),
            None => None,
        }
    }

    /// Puts a checked out node back into the list at `now`.
    pub fn reinsert_checked_out(&mut self, node: CheckedOutNode, now: u64)
        requires
            node.spec_node() is Some,
            old(self).wf(),
            now >= old(self).spec_clock(),
        ensures
            final(self).wf(),
            final(self).nodes() == old(self).nodes().insert(address_view(node.spec_node()->0), now),
            final(self).spec_clock() == now,
    {
        let (address, metadata) = node.decompose();
        let _ = self.insert_node(address, metadata, now);
    }
}

} // verus!
