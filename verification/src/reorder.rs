//! The place where one packet waits to be overtaken by the next.

use crate::network::Packet;
use crate::network::PacketView;
use vstd::prelude::*;

verus! {

/// Holds back at most one packet of a destination until the next packet for
/// that destination has come.
pub struct ReorderSlot {
    held: Option<Packet>,
}

impl View for ReorderSlot {
    type V = Option<PacketView>;

    /// The packet held back, if there is one.
    closed spec fn view(&self) -> Option<PacketView> {
        match self.held {
            Some(packet) => Some(packet@),
            None => None,
        }
    }
}

impl ReorderSlot {
    pub fn new() -> (slot: ReorderSlot)
        ensures
            slot@ is None,
    {
        ReorderSlot { held: None }
    }

    pub fn is_empty(&self) -> (empty: bool)
        ensures
            empty == (self@ is None),
    {
        self.held.is_none()
    }

    /// Holds a packet back. The slot has room for one: it must be empty.
    pub fn hold(&mut self, packet: Packet)
        requires
            old(self)@ is None,
        ensures
            final(self)@ == Some(packet@),
    {
        self.held = Some(packet);
    }

    /// Hands out the packet held back, if there is one, and leaves the slot
    /// empty.
    pub fn release(&mut self) -> (released: Option<Packet>)
        ensures
            final(self)@ is None,
            match released {
                Some(packet) => old(self)@ == Some(packet@),
                None => old(self)@ is None,
            },
    {
        self.held.take()
    }
}

} // verus!
