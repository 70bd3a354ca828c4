//! Addresses and datagrams.

use vstd::prelude::*;

verus! {

/// A socket address as plain values: the IP address as an integer in network
/// order, the port, and for IPv6 the flow label and the scope.
#[derive(Clone, Copy, Debug, PartialEq, Eq, Structural, Hash)]
pub enum Endpoint {
    V4 { ip: u32, port: u16 },
    V6 { ip6: u128, port: u16, flowinfo: u32, scope_id: u32 },
}

impl Endpoint {
    /// The port of the address.
    pub open spec fn spec_port(self) -> u16 {
        match self {
            Endpoint::V4 { port, .. } => port,
            Endpoint::V6 { port, .. } => port,
        }
    }

    /// The same host with another port.
    pub open spec fn spec_with_port(self, port: u16) -> Endpoint {
        match self {
            Endpoint::V4 { ip, .. } => Endpoint::V4 { ip, port },
            Endpoint::V6 { ip6, flowinfo, scope_id, .. } => Endpoint::V6 {
                ip6,
                port,
                flowinfo,
                scope_id,
            },
        }
    }

    #[verifier::when_used_as_spec(spec_port)]
    pub fn port(self) -> (port: u16)
        ensures
            port == self.spec_port(),
    {
        match self {
            Endpoint::V4 { port, .. } => port,
            Endpoint::V6 { port, .. } => port,
        }
    }

    #[verifier::when_used_as_spec(spec_with_port)]
    pub fn with_port(self, port: u16) -> (moved: Endpoint)
        ensures
            moved == self.spec_with_port(port),
    {
        match self {
            Endpoint::V4 { ip, .. } => Endpoint::V4 { ip, port },
            Endpoint::V6 { ip6, flowinfo, scope_id, .. } => Endpoint::V6 {
                ip6,
                port,
                flowinfo,
                scope_id,
            },
        }
    }
}

/// What a packet is, as mathematics: its bytes, where it goes and when.
pub struct PacketView {
    pub buffer: Seq<u8>,
    pub dest: Endpoint,
    pub sent_date: nat,
}

/// A datagram waiting to be sent: the payload, the address it is for and the
/// time, in nanoseconds, at which it is due.
pub struct Packet {
    pub buffer: Vec<u8>,
    pub dest: Endpoint,
    pub sent_date: u128,
}

impl View for Packet {
    type V = PacketView;

    open spec fn view(&self) -> PacketView {
        PacketView { buffer: self.buffer@, dest: self.dest, sent_date: self.sent_date as nat }
    }
}

/// The packets of a sequence, each as mathematics.
pub open spec fn views(packets: Seq<Packet>) -> Seq<PacketView> {
    packets.map_values(|p: Packet| p@)
}

impl Packet {
    pub fn new(buffer: Vec<u8>, dest: Endpoint, sent_date: u128) -> (packet: Packet)
        ensures
            packet.buffer == buffer,
            packet.dest == dest,
            packet.sent_date == sent_date,
    {
        Packet { buffer, dest, sent_date }
    }

    /// The number of payload bytes.
    pub fn size(&self) -> (size: usize)
        ensures
            size == self@.buffer.len(),
    {
        self.buffer.len()
    }
}

} // verus!
