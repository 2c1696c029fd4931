//! The open connections, one for each link.
use vstd::prelude::*;
use crate::node::registry::LinkId;
use crate::sorted_map::{ascending, map_of, SortedMap};

verus! {

/// The connections by link, and the port on which neighbours are dialled.
#[derive(Debug)]
pub struct PeerLinks<C> {
    clients: SortedMap<LinkId, C>,
    port: Option<u16>,
}

impl<C> PeerLinks<C> {
    /// The connections by link.
    pub closed spec fn view(&self) -> Map<LinkId, C> {
        self.clients@
    }

    /// The port, once it is set.
    pub closed spec fn dial_port(&self) -> Option<u16> {
        self.port
    }

    /// The connections by ascending link.
    pub closed spec fn order(&self) -> Seq<(LinkId, C)> {
        self.clients.order()
    }

    /// No connection, and no port yet.
    pub fn new() -> (r: PeerLinks<C>)
        ensures
            r@ == Map::<LinkId, C>::empty(),
            r.dial_port() is None,
    {
        PeerLinks { clients: SortedMap::new(), port: None }
    }

    /// Sets the port. The first setting stays.
    pub fn set_port(&mut self, port: u16)
        ensures
            final(self)@ == old(self)@,
            final(self).dial_port() == Some(
                match old(self).dial_port() {
                    Some(first) => first,
                    None => port,
                },
            ),
    {
        if self.port.is_none() {
            self.port = Some(port);
        }
    }

    /// The port, once it is set.
    pub fn port(&self) -> (r: Option<u16>)
        ensures
            r == self.dial_port(),
    {
        self.port
    }

    /// Puts a connection at `link`, in place of the one there.
    pub fn insert(&mut self, link: LinkId, client: C)
        ensures
            final(self)@ == old(self)@.insert(link, client),
            final(self).dial_port() == old(self).dial_port(),
    {
        self.clients.insert(link, client);
    }

    /// Drops the connection at `link`.
    pub fn remove(&mut self, link: LinkId)
        ensures
            final(self)@ == old(self)@.remove(link),
            final(self).dial_port() == old(self).dial_port(),
    {
        let _ = self.clients.remove(&link);
    }

    /// The connection at `link`, if there is one.
    pub fn get(&self, link: LinkId) -> (r: Option<&C>)
        ensures
            r is Some == self@.contains_key(link),
            r is Some ==> *r->Some_0 == self@[link],
    {
        self.clients.get(&link)
    }

    /// All connections, by ascending link.
    pub fn all(&self) -> (r: &Vec<(LinkId, C)>)
        ensures
            r@ == self.order(),
            ascending(r@),
            map_of(r@) == self@,
    {
        self.clients.entries()
    }
}

} // verus!
