//! The relay: the sessions of its clients and the queues between them and
//! the server.

use crate::conditions::Conditions;
use crate::conditions::Draw;
use crate::conditions::CERTAIN;
use crate::network::views;
use crate::network::Endpoint;
use crate::network::Packet;
use crate::network::PacketView;
use crate::pipeline::bound_for;
use crate::pipeline::injected;
use crate::pipeline::lemma_injected;
use crate::pipeline::packet_at;
use crate::queue::all_for;
use crate::queue::due;
use crate::queue::lemma_taken_for;
use crate::queue::pending;
use crate::queue::placed;
use crate::queue::wait;
use crate::queue::DelayQueue;
use crate::reorder::ReorderSlot;
use crate::session::Session;
use crate::session::SessionState;
use crate::session::SessionView;
use vstd::prelude::*;

verus! {

/// Why a client got no session.
#[derive(Clone, Copy, Debug, PartialEq, Eq, Structural)]
pub enum ProxyError {
    /// The client has a session already.
    AlreadyConnected,
    /// Every port above the relay's own is taken by a session.
    NoFreePort,
}

/// What the relay did with a datagram from a client.
#[derive(Debug)]
pub enum Routing {
    /// The sender has a session: the datagram went through the conditions
    /// towards the server.
    Routed,
    /// The sender is new and has a session now, whose socket is to be opened
    /// at `local`. The datagram comes back, to be given in again once the
    /// socket stands.
    Opened { local: Endpoint, buffer: Vec<u8> },
    /// The sender is new and no port is left for it: the datagram is dropped.
    NoFreePort,
    /// The session of the sender has ended: the datagram is dropped.
    Ended,
}

/// The relay as mathematics.
pub struct ProxyView {
    pub address: Endpoint,
    pub server_address: Endpoint,
    pub client_proxy_conditions: Conditions,
    pub server_proxy_conditions: Conditions,
    pub timeout: nat,
    pub uplink: Seq<PacketView>,
    pub uplink_held: Option<PacketView>,
    pub sessions: Seq<SessionView>,
}

impl ProxyView {
    /// The client has a session.
    pub open spec fn knows(self, client: Endpoint) -> bool {
        exists|i: int| 0 <= i < self.sessions.len() && (#[trigger] self.sessions[i]).client == client
    }

    /// Where the session of the client stands among the sessions.
    pub open spec fn position(self, client: Endpoint) -> int {
        choose|i: int| 0 <= i < self.sessions.len() && (#[trigger] self.sessions[i]).client == client
    }

    /// The client has a session that has not ended.
    pub open spec fn carries(self, client: Endpoint) -> bool {
        self.knows(client) && self.sessions[self.position(client)].state
            != SessionState::Terminated
    }

    /// A session has its socket on this port.
    pub open spec fn port_in_use(self, port: u16) -> bool {
        exists|i: int|
            0 <= i < self.sessions.len() && (#[trigger] self.sessions[i]).local.port() == port
    }

    /// The port is the first above the relay's own that no session has.
    pub open spec fn first_free_port(self, port: u16) -> bool {
        &&& self.address.port() < port
        &&& !self.port_in_use(port)
        &&& forall|q: u16| self.address.port() < q < port ==> #[trigger] self.port_in_use(q)
    }

    /// No port above the relay's own is left.
    pub open spec fn ports_exhausted(self) -> bool {
        forall|q: u16| self.address.port() < q ==> #[trigger] self.port_in_use(q)
    }

    /// No two sessions are for one client or on one port, and each has its
    /// socket on the relay's address, on a port above the relay's own.
    pub open spec fn distinct(self) -> bool {
        &&& forall|i: int, j: int|
            0 <= i < j < self.sessions.len() ==> (#[trigger] self.sessions[i]).client != (
            #[trigger] self.sessions[j]).client
        &&& forall|i: int, j: int|
            0 <= i < j < self.sessions.len() ==> (#[trigger] self.sessions[i]).local.port() != (
            #[trigger] self.sessions[j]).local.port()
        &&& forall|i: int|
            0 <= i < self.sessions.len() ==> (#[trigger] self.sessions[i]).local
                == self.address.with_port(self.sessions[i].local.port()) && self.address.port()
                < self.sessions[i].local.port()
    }

    /// The relay with a new session for `client` on the socket `local`.
    pub open spec fn opened(self, client: Endpoint, local: Endpoint, now: nat) -> ProxyView {
        ProxyView {
            sessions: self.sessions.push(
                SessionView {
                    client,
                    local,
                    state: SessionState::Created,
                    since: now,
                    downlink: Seq::empty(),
                    held: None,
                },
            ),
            ..self
        }
    }

    /// The relay after a datagram from `client` with the given draw: the
    /// session of the client has seen traffic, and the datagram has gone
    /// through the pipeline towards the server.
    pub open spec fn sent_up(self, client: Endpoint, payload: Seq<u8>, draw: Draw, now: nat)
        -> ProxyView {
        let i = self.position(client);
        let (uplink, uplink_held) = injected(
            self.uplink,
            self.uplink_held,
            payload,
            self.server_address,
            draw,
        );
        ProxyView {
            uplink,
            uplink_held,
            sessions: self.sessions.update(i, self.sessions[i].touched(now)),
            ..self
        }
    }

    /// The relay after a datagram from the server for `client` with the
    /// given draw.
    pub open spec fn sent_down(self, client: Endpoint, payload: Seq<u8>, draw: Draw, now: nat)
        -> ProxyView {
        let i = self.position(client);
        ProxyView {
            sessions: self.sessions.update(i, self.sessions[i].received(payload, draw, now)),
            ..self
        }
    }

    /// The relay after the server has sent nothing for `client` and the
    /// clock was looked at.
    pub open spec fn silenced(self, client: Endpoint, now: nat) -> ProxyView {
        let i = self.position(client);
        ProxyView {
            sessions: self.sessions.update(i, self.sessions[i].expired(now, self.timeout)),
            ..self
        }
    }

    /// The relay after the packets for the server that are due at `now`
    /// have been taken out.
    pub open spec fn drained_up(self, now: nat) -> ProxyView {
        ProxyView { uplink: pending(self.uplink, now), ..self }
    }

    /// The relay after the packets for `client` that are due at `now` have
    /// been taken out.
    pub open spec fn drained_down(self, client: Endpoint, now: nat) -> ProxyView {
        let i = self.position(client);
        ProxyView { sessions: self.sessions.update(i, self.sessions[i].drained(now)), ..self }
    }

    /// The relay without the session of `client`.
    pub open spec fn closed(self, client: Endpoint) -> ProxyView {
        ProxyView { sessions: self.sessions.remove(self.position(client)), ..self }
    }

    /// Where no two sessions are for one client, the session of a client is
    /// found at one place only.
    pub proof fn lemma_position(self, client: Endpoint, i: int)
        requires
            self.distinct(),
            0 <= i < self.sessions.len(),
            self.sessions[i].client == client,
        ensures
            self.knows(client),
            self.position(client) == i,
    {
        let k = self.position(client);
        if k < i {
            assert(self.sessions[k].client != self.sessions[i].client);
        } else if i < k {
            assert(self.sessions[i].client != self.sessions[k].client);
        }
    }

    /// Taking out the packets of one client leaves the session of every
    /// other client as it was, and the queue to the server too.
    pub proof fn lemma_sessions_apart(self, client: Endpoint, other: Endpoint, now: nat)
        requires
            self.distinct(),
            self.knows(client),
            self.knows(other),
            client != other,
        ensures
            self.drained_down(client, now).knows(other),
            self.drained_down(client, now).sessions[self.drained_down(client, now).position(
                other,
            )] == self.sessions[self.position(other)],
            self.drained_down(client, now).uplink == self.uplink,
    {
        let after = self.drained_down(client, now);
        let i = self.position(client);
        let j = self.position(other);
        assert(after.sessions[j] == self.sessions[j]);
        assert(after.distinct()) by {
            assert forall|a: int| 0 <= a < after.sessions.len() implies (
            #[trigger] after.sessions[a]).client == self.sessions[a].client
                && after.sessions[a].local == self.sessions[a].local by {}
        }
        after.lemma_position(other, j);
    }
}

/// The relay between the clients and the server: the conditions of either
/// direction, the queue of what goes to the server, and a session for every
/// client that it has seen.
pub struct Proxy {
    /// Where the relay listens for its clients.
    pub address: Endpoint,
    /// Where the server is.
    pub server_address: Endpoint,
    /// The conditions from the clients to the server.
    pub client_proxy_conditions: Conditions,
    /// The conditions from the server to the clients.
    pub server_proxy_conditions: Conditions,
    /// How long a session may be silent before it moves on, in nanoseconds.
    pub timeout: u128,
    /// What the clients have sent and the server has not yet got.
    pub uplink: DelayQueue,
    /// The packet for the server that is held back.
    pub uplink_slot: ReorderSlot,
    pub sessions: Vec<Session>,
}

impl View for Proxy {
    type V = ProxyView;

    open spec fn view(&self) -> ProxyView {
        ProxyView {
            address: self.address,
            server_address: self.server_address,
            client_proxy_conditions: self.client_proxy_conditions,
            server_proxy_conditions: self.server_proxy_conditions,
            timeout: self.timeout as nat,
            uplink: self.uplink@,
            uplink_held: self.uplink_slot@,
            sessions: self.sessions@.map_values(|s: Session| s@),
        }
    }
}

impl Proxy {
    pub open spec fn wf(&self) -> bool {
        &&& self.client_proxy_conditions.wf()
        &&& self.server_proxy_conditions.wf()
        &&& self.uplink.wf()
        &&& bound_for(self.uplink@, self.uplink_slot@, self.server_address)
        &&& forall|i: int| 0 <= i < self.sessions.len() ==> (#[trigger] self.sessions[i]).wf()
        &&& self@.distinct()
    }

    /// A relay that listens at `address` for the clients of the server at
    /// `server_address`, with no session yet and nothing on its way.
    pub fn new(
        address: Endpoint,
        server_address: Endpoint,
        client_proxy_conditions: Conditions,
        server_proxy_conditions: Conditions,
        timeout: u128,
    ) -> (proxy: Proxy)
        requires
            client_proxy_conditions.wf(),
            server_proxy_conditions.wf(),
        ensures
            proxy.wf(),
            proxy@ == (ProxyView {
                address,
                server_address,
                client_proxy_conditions,
                server_proxy_conditions,
                timeout: timeout as nat,
                uplink: Seq::empty(),
                uplink_held: None,
                sessions: Seq::empty(),
            }),
    {
        let proxy = Proxy {
            address,
            server_address,
            client_proxy_conditions,
            server_proxy_conditions,
            timeout,
            uplink: DelayQueue::new(),
            uplink_slot: ReorderSlot::new(),
            sessions: Vec::new(),
        };
        assert(proxy@.sessions =~= Seq::empty());
        proxy
    }

    /// Where the session of the client stands, if it has one.
    fn find_client(&self, client: Endpoint) -> (found: Option<usize>)
        requires
            self.wf(),
        ensures
            match found {
                Some(i) => i < self.sessions.len() && self@.knows(client) && self@.position(client)
                    == i,
                None => !self@.knows(client),
            },
    {
        let mut i: usize = 0;
        while i < self.sessions.len()
            invariant
                i <= self.sessions.len(),
                self.wf(),
                forall|k: int| 0 <= k < i ==> (#[trigger] self@.sessions[k]).client != client,
            decreases self.sessions.len() - i,
        {
            if self.sessions[i].client == client {
                proof {
                    self@.lemma_position(client, i as int);
                }
                return Some(i);
            }
            i += 1;
        }
        None
    }

    /// Whether the client has a session.
    pub fn has_client(&self, client: Endpoint) -> (known: bool)
        requires
            self.wf(),
        ensures
            known == self@.knows(client),
    {
        self.find_client(client).is_some()
    }

    /// The state of the session of the client, if it has one.
    pub fn client_state(&self, client: Endpoint) -> (state: Option<SessionState>)
        requires
            self.wf(),
        ensures
            match state {
                Some(s) => self@.knows(client) && s == self@.sessions[self@.position(client)].state,
                None => !self@.knows(client),
            },
    {
        match self.find_client(client) {
            Some(i) => Some(self.sessions[i].state),
            None => None,
        }
    }

    /// The address of the socket of the client's session, if it has one.
    pub fn client_socket(&self, client: Endpoint) -> (local: Option<Endpoint>)
        requires
            self.wf(),
        ensures
            match local {
                Some(l) => self@.knows(client) && l == self@.sessions[self@.position(client)].local,
                None => !self@.knows(client),
            },
    {
        match self.find_client(client) {
            Some(i) => Some(self.sessions[i].local),
            None => None,
        }
    }

    /// How long a loop that sends may block at `now` before it looks for due
    /// packets again, when it is willing to wait for `timeout`: the loop that
    /// sends to the server where no client is named, else the loop that
    /// sends to that client. Without a session there is nothing to look for
    /// before the timeout.
    pub fn wait_for_work(&self, client: Option<Endpoint>, now: u128, timeout: u128) -> (nanos:
        u128)
        requires
            self.wf(),
        ensures
            nanos == match client {
                None => wait(self@.uplink, now as nat, timeout as nat),
                Some(c) => if self@.knows(c) {
                    wait(self@.sessions[self@.position(c)].downlink, now as nat, timeout as nat)
                } else {
                    timeout as nat
                },
            },
    {
        match client {
            None => self.uplink.wait_for_work(now, timeout),
            Some(c) => match self.find_client(c) {
                Some(i) => self.sessions[i].downlink.wait_for_work(now, timeout),
                None => timeout,
            },
        }
    }

    /// Whether a session has its socket on the port.
    fn port_in_use(&self, port: u16) -> (used: bool)
        ensures
            used == self@.port_in_use(port),
    {
        let mut i: usize = 0;
        while i < self.sessions.len()
            invariant
                i <= self.sessions.len(),
                forall|k: int| 0 <= k < i ==> (#[trigger] self@.sessions[k]).local.port() != port,
            decreases self.sessions.len() - i,
        {
            if self.sessions[i].local.port() == port {
                assert(self@.sessions[i as int].local.port() == port);
                return true;
            }
            i += 1;
        }
        false
    }

    /// The first port above the relay's own that no session has.
    fn free_port(&self) -> (port: Option<u16>)
        ensures
            match port {
                Some(p) => self@.first_free_port(p),
                None => self@.ports_exhausted(),
            },
    {
        let base: u16 = self.address.port();
        let mut candidate: u16 = base;
        while candidate < u16::MAX
            invariant
                base == self.address.port(),
                base <= candidate,
                forall|q: u16| base < q <= candidate ==> #[trigger] self@.port_in_use(q),
            decreases u16::MAX - candidate,
        {
            candidate += 1;
            if !self.port_in_use(candidate) {
                return Some(candidate);
            }
        }
        None
    }

    /// Makes a session for a client seen at `now` and says where its socket
    /// is to be: on the relay's address, on the first port above the relay's
    /// own that no session has. A client has one session at most.
    pub fn add_client(&mut self, client_address: Endpoint, now: u128) -> (opened: Result<
        Endpoint,
        ProxyError,
    >)
        requires
            old(self).wf(),
        ensures
            final(self).wf(),
            match opened {
                Ok(local) => {
                    &&& !old(self)@.knows(client_address)
                    &&& old(self)@.first_free_port(local.port())
                    &&& local == old(self).address.with_port(local.port())
                    &&& final(self)@ == old(self)@.opened(client_address, local, now as nat)
                },
                Err(ProxyError::AlreadyConnected) => {
                    &&& old(self)@.knows(client_address)
                    &&& final(self)@ == old(self)@
                },
                Err(ProxyError::NoFreePort) => {
                    &&& !old(self)@.knows(client_address)
                    &&& old(self)@.ports_exhausted()
                    &&& final(self)@ == old(self)@
                },
            },
    {
        if self.has_client(client_address) {
            return Err(ProxyError::AlreadyConnected);
        }
        match self.free_port() {
            None => Err(ProxyError::NoFreePort),
            Some(port) => {
                let local = self.address.with_port(port);
                self.sessions.push(Session::new(client_address, local, now));
                proof {
                    assert(self@.sessions =~= old(self)@.opened(
                        client_address,
                        local,
                        now as nat,
                    ).sessions);
                }
                Ok(local)
            },
        }
    }

    /// Ends the session of a client at `now` and takes it off the list. What
    /// it still had to send by then is handed out; a client without a
    /// session has nothing.
    pub fn remove_client(&mut self, client: Endpoint, now: u128) -> (ready: Vec<Packet>)
        requires
            old(self).wf(),
        ensures
            final(self).wf(),
            old(self)@.knows(client) ==> final(self)@ == old(self)@.closed(client) && views(ready@)
                == old(self)@.sessions[old(self)@.position(client)].last_due(now as nat),
            all_for(views(ready@), client),
            !old(self)@.knows(client) ==> final(self)@ == old(self)@ && ready@.len() == 0,
    {
        match self.find_client(client) {
            Some(i) => {
                let session = self.sessions.remove(i);
                proof {
                    assert(self@.sessions =~= old(self)@.sessions.remove(i as int));
                }
                session.close(now)
            },
            None => Vec::new(),
        }
    }

    /// Routes a datagram that `src` sent at `now` towards the server: where
    /// the client has a session that has not ended, the session has seen
    /// traffic and the datagram goes through the conditions from the clients
    /// to the server. The datagram of any other sender is dropped.
    pub fn queue_packet(&mut self, buffer: Vec<u8>, src: Endpoint, now: u128)
        requires
            old(self).wf(),
            now + 2 * old(self).client_proxy_conditions.max_delay() <= u128::MAX,
        ensures
            final(self).wf(),
            !old(self)@.carries(src) ==> final(self)@ == old(self)@,
            old(self)@.carries(src) ==> exists|draw: Draw| #[trigger]
                old(self).client_proxy_conditions.may_draw(
                    now as nat,
                    old(self)@.uplink_held is None,
                    draw,
                ) && final(self)@ == old(self)@.sent_up(src, buffer@, draw, now as nat),
            old(self).client_proxy_conditions.loss_chance >= CERTAIN - 1 ==> final(self)@.uplink
                == old(self)@.uplink && final(self)@.uplink_held == old(self)@.uplink_held,
    {
        match self.find_client(src) {
            Some(i) => {
                match self.sessions[i].state {
                    SessionState::Terminated => {},
                    _ => {
                        self.sessions[i].touch(now);
                        Self::queue_packet_static(
                            &mut self.uplink,
                            &mut self.uplink_slot,
                            buffer,
                            self.server_address,
                            self.client_proxy_conditions,
                            now,
                        );
                        proof {
                            assert(self@.sessions =~= old(self)@.sessions.update(
                                i as int,
                                old(self)@.sessions[i as int].touched(now as nat),
                            ));
                        }
                    },
                }
            },
            None => {},
        }
    }

    /// Takes a datagram that `src` sent to the relay at `now`. A sender that
    /// the relay has not seen gets a session, and the datagram comes back
    /// with the address at which the socket of the session is to be opened;
    /// the datagram of a sender with a session goes on towards the server.
    pub fn run(&mut self, buffer: Vec<u8>, src: Endpoint, now: u128) -> (routing: Routing)
        requires
            old(self).wf(),
            now + 2 * old(self).client_proxy_conditions.max_delay() <= u128::MAX,
        ensures
            final(self).wf(),
            match routing {
                Routing::Routed => {
                    &&& old(self)@.carries(src)
                    &&& exists|draw: Draw| #[trigger]
                        old(self).client_proxy_conditions.may_draw(
                            now as nat,
                            old(self)@.uplink_held is None,
                            draw,
                        ) && final(self)@ == old(self)@.sent_up(src, buffer@, draw, now as nat)
                },
                Routing::Opened { local, buffer: back } => {
                    &&& !old(self)@.knows(src)
                    &&& old(self)@.first_free_port(local.port())
                    &&& local == old(self).address.with_port(local.port())
                    &&& final(self)@ == old(self)@.opened(src, local, now as nat)
                    &&& back == buffer
                },
                Routing::NoFreePort => {
                    &&& !old(self)@.knows(src)
                    &&& old(self)@.ports_exhausted()
                    &&& final(self)@ == old(self)@
                },
                Routing::Ended => {
                    &&& old(self)@.knows(src)
                    &&& !old(self)@.carries(src)
                    &&& final(self)@ == old(self)@
                },
            },
            old(self).client_proxy_conditions.loss_chance >= CERTAIN - 1 ==> final(self)@.uplink
                == old(self)@.uplink && final(self)@.uplink_held == old(self)@.uplink_held,
    {
        match self.client_state(src) {
            None => match self.add_client(src, now) {
                Ok(local) => Routing::Opened { local, buffer },
                Err(_) => Routing::NoFreePort,
            },
            Some(SessionState::Terminated) => Routing::Ended,
            Some(_) => {
                self.queue_packet(buffer, src, now);
                Routing::Routed
            },
        }
    }

    /// Takes what the socket of a client's session brought at `now`: a
    /// datagram from the server, or nothing within the time allowed. A
    /// datagram goes through the conditions from the server to the clients,
    /// towards the client; silence may move the session on in its life. The
    /// answer is whether the session goes on: it does not where the client
    /// has none or it has ended.
    pub fn recv_inc_packets(&mut self, client: Endpoint, datagram: Option<Vec<u8>>, now: u128)
        -> (handled: bool)
        requires
            old(self).wf(),
            now + 2 * old(self).server_proxy_conditions.max_delay() <= u128::MAX,
        ensures
            final(self).wf(),
            handled == final(self)@.carries(client),
            !old(self)@.carries(client) ==> final(self)@ == old(self)@,
            old(self)@.carries(client) ==> match datagram {
                Some(buffer) => exists|draw: Draw| #[trigger]
                    old(self).server_proxy_conditions.may_draw(
                        now as nat,
                        old(self)@.sessions[old(self)@.position(client)].held is None,
                        draw,
                    ) && final(self)@ == old(self)@.sent_down(client, buffer@, draw, now as nat),
                None => final(self)@ == old(self)@.silenced(client, now as nat),
            },
            old(self).server_proxy_conditions.loss_chance >= CERTAIN - 1 && old(self)@.knows(client)
                ==> ({
                let i = old(self)@.position(client);
                &&& final(self)@.sessions[i].downlink == old(self)@.sessions[i].downlink
                &&& final(self)@.sessions[i].held == old(self)@.sessions[i].held
            }),
            final(self)@.uplink == old(self)@.uplink,
            final(self)@.uplink_held == old(self)@.uplink_held,
    {
        match self.find_client(client) {
            Some(i) => {
                match self.sessions[i].state {
                    SessionState::Terminated => false,
                    _ => {
                        match datagram {
                            Some(buffer) => {
                                let conditions = self.server_proxy_conditions;
                                self.sessions[i].receive(buffer, conditions, now);
                                proof {
                                    let draw = choose|draw: Draw| #[trigger]
                                        conditions.may_draw(
                                            now as nat,
                                            old(self)@.sessions[i as int].held is None,
                                            draw,
                                        ) && self.sessions[i as int]@ == old(
                                            self,
                                        )@.sessions[i as int].received(buffer@, draw, now as nat);
                                    assert(self@.sessions =~= old(self)@.sessions.update(
                                        i as int,
                                        old(self)@.sessions[i as int].received(
                                            buffer@,
                                            draw,
                                            now as nat,
                                        ),
                                    ));
                                    assert(self@ == old(self)@.sent_down(
                                        client,
                                        buffer@,
                                        draw,
                                        now as nat,
                                    ));
                                    self@.lemma_position(client, i as int);
                                }
                                true
                            },
                            None => {
                                let timeout = self.timeout;
                                self.sessions[i].expire(now, timeout);
                                proof {
                                    assert(self@.sessions =~= old(self)@.sessions.update(
                                        i as int,
                                        old(self)@.sessions[i as int].expired(
                                            now as nat,
                                            timeout as nat,
                                        ),
                                    ));
                                    self@.lemma_position(client, i as int);
                                }
                                match self.sessions[i].state {
                                    SessionState::Terminated => false,
                                    _ => true,
                                }
                            },
                        }
                    },
                }
            },
            None => false,
        }
    }

    /// Takes out the packets that are due at `now`: those for the server
    /// where no client is named, else those for that client, which has none
    /// where it has no session. They are in the order in which they are to
    /// be sent.
    pub fn send_pending_packets(&mut self, client: Option<Endpoint>, now: u128) -> (ready: Vec<
        Packet,
    >)
        requires
            old(self).wf(),
        ensures
            final(self).wf(),
            match client {
                None => {
                    &&& views(ready@) == due(old(self)@.uplink, now as nat)
                    &&& all_for(views(ready@), old(self).server_address)
                    &&& final(self)@ == old(self)@.drained_up(now as nat)
                },
                Some(c) => if old(self)@.knows(c) {
                    &&& views(ready@) == due(
                        old(self)@.sessions[old(self)@.position(c)].downlink,
                        now as nat,
                    )
                    &&& all_for(views(ready@), c)
                    &&& final(self)@ == old(self)@.drained_down(c, now as nat)
                } else {
                    ready@.len() == 0 && final(self)@ == old(self)@
                },
            },
    {
        match client {
            None => {
                proof {
                    self.uplink.lemma_ascending();
                    lemma_taken_for(self.uplink@, now as nat, self.server_address);
                }
                self.uplink.drain_ready(now)
            },
            Some(c) => match self.find_client(c) {
                Some(i) => {
                    let ready = self.sessions[i].send_pending(now);
                    proof {
                        assert(self@.sessions =~= old(self)@.sessions.update(
                            i as int,
                            old(self)@.sessions[i as int].drained(now as nat),
                        ));
                    }
                    ready
                },
                None => Vec::new(),
            },
        }
    }

    /// Puts the payload into the queue as a packet for `dest` due at
    /// `sent_date`. A packet of the same time that is in the queue stays.
    pub fn queue_packet_base_static(
        packet_queue: &mut DelayQueue,
        buffer: Vec<u8>,
        dest: Endpoint,
        sent_date: u128,
    )
        requires
            old(packet_queue).wf(),
        ensures
            final(packet_queue).wf(),
            final(packet_queue)@ == placed(
                old(packet_queue)@,
                packet_at(buffer@, dest, sent_date as nat),
            ),
    {
        let packet = Packet::new(buffer, dest, sent_date);
        packet_queue.insert(packet);
    }

    /// Does to the queue and the slot what the draw says of a datagram for
    /// `dest`.
    pub fn queue_packet_with(
        packet_queue: &mut DelayQueue,
        slot: &mut ReorderSlot,
        buffer: Vec<u8>,
        dest: Endpoint,
        draw: Draw,
    )
        requires
            old(packet_queue).wf(),
            draw.arrived && old(slot)@ is Some ==> draw.sent_date + draw.extra_delay <= u128::MAX,
        ensures
            final(packet_queue).wf(),
            (final(packet_queue)@, final(slot)@) == injected(
                old(packet_queue)@,
                old(slot)@,
                buffer@,
                dest,
                draw,
            ),
            bound_for(old(packet_queue)@, old(slot)@, dest) ==> bound_for(
                final(packet_queue)@,
                final(slot)@,
                dest,
            ),
    {
        proof {
            packet_queue.lemma_ascending();
            lemma_injected(packet_queue@, slot@, buffer@, dest, draw);
        }
        if draw.arrived {
            if let Some(copy_date) = draw.duplicate {
                Self::queue_packet_base_static(packet_queue, buffer.clone(), dest, copy_date);
            }
            match slot.release() {
                None => {
                    if draw.reordered {
                        slot.hold(Packet::new(buffer, dest, draw.sent_date));
                    } else {
                        Self::queue_packet_base_static(packet_queue, buffer, dest, draw.sent_date);
                    }
                },
                Some(earlier) => {
                    packet_queue.insert(earlier);
                    Self::queue_packet_base_static(
                        packet_queue,
                        buffer,
                        dest,
                        draw.sent_date + draw.extra_delay,
                    );
                },
            }
        }
    }

    /// Passes one datagram for `dest`, seen at `now`, through the conditions:
    /// draws for it and does to the queue and the slot what the draw says.
    pub fn queue_packet_static(
        packet_queue: &mut DelayQueue,
        slot: &mut ReorderSlot,
        buffer: Vec<u8>,
        dest: Endpoint,
        conditions: Conditions,
        now: u128,
    )
        requires
            old(packet_queue).wf(),
            conditions.wf(),
            now + 2 * conditions.max_delay() <= u128::MAX,
        ensures
            final(packet_queue).wf(),
            exists|draw: Draw| #[trigger]
                conditions.may_draw(now as nat, old(slot)@ is None, draw) && (
                final(packet_queue)@,
                final(slot)@,
            ) == injected(old(packet_queue)@, old(slot)@, buffer@, dest, draw),
            conditions.loss_chance >= CERTAIN - 1 ==> final(packet_queue)@ == old(
                packet_queue,
            )@ && final(slot)@ == old(slot)@,
            bound_for(old(packet_queue)@, old(slot)@, dest) ==> bound_for(
                final(packet_queue)@,
                final(slot)@,
                dest,
            ),
    {
        let mut rng = rand::thread_rng();
        let draw = conditions.draw(now, slot.is_empty(), &mut rng);
        Self::queue_packet_with(packet_queue, slot, buffer, dest, draw);
    }
}

} // verus!
