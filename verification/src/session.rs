//! One client of the relay: its socket on the side of the server, the queue
//! of what the server sends it, and where it stands in its life.

use crate::conditions::Conditions;
use crate::conditions::Draw;
use crate::conditions::CERTAIN;
use crate::network::views;
use crate::network::Endpoint;
use crate::network::Packet;
use crate::network::PacketView;
use crate::pipeline::bound_for;
use crate::pipeline::injected;
use crate::proxy::Proxy;
use crate::queue::all_for;
use crate::queue::due;
use crate::queue::lemma_placed_for;
use crate::queue::lemma_taken_for;
use crate::queue::pending;
use crate::queue::placed;
use crate::queue::DelayQueue;
use crate::reorder::ReorderSlot;
use vstd::prelude::*;

verus! {

/// Where a session stands: made and unused, carrying traffic, silent for the
/// length of the timeout, or ended.
#[derive(Clone, Copy, Debug, PartialEq, Eq, Structural)]
pub enum SessionState {
    Created,
    Active,
    Idle,
    Terminated,
}

impl SessionState {
    /// The steps of a session's life: from made to active, between active
    /// and idle both ways, from idle to ended; and every state may stay.
    pub open spec fn may_become(self, next: SessionState) -> bool {
        ||| self == next
        ||| self == SessionState::Created && next == SessionState::Active
        ||| self == SessionState::Active && next == SessionState::Idle
        ||| self == SessionState::Idle && next == SessionState::Active
        ||| self == SessionState::Idle && next == SessionState::Terminated
    }

    /// The state after traffic: active, unless the session has ended.
    pub open spec fn on_traffic(self) -> SessionState {
        if self == SessionState::Terminated {
            SessionState::Terminated
        } else {
            SessionState::Active
        }
    }

    /// The state after silence for the length of the timeout: an active
    /// session is idle, an idle one has ended, the others are as before.
    pub open spec fn on_silence(self) -> SessionState {
        match self {
            SessionState::Active => SessionState::Idle,
            SessionState::Idle => SessionState::Terminated,
            SessionState::Created => SessionState::Created,
            SessionState::Terminated => SessionState::Terminated,
        }
    }

    /// Traffic and silence move a session only along the steps of its life,
    /// and a session that has ended stays so.
    pub proof fn lemma_lifecycle(self)
        ensures
            self.may_become(self.on_traffic()),
            self.may_become(self.on_silence()),
            self == SessionState::Terminated ==> self.on_traffic() == self && self.on_silence()
                == self,
    {
    }
}

/// A session as mathematics.
pub struct SessionView {
    pub client: Endpoint,
    pub local: Endpoint,
    pub state: SessionState,
    pub since: nat,
    pub downlink: Seq<PacketView>,
    pub held: Option<PacketView>,
}

impl SessionView {
    /// How long the session has been in its state at `now`.
    pub open spec fn silence(self, now: nat) -> nat {
        if now >= self.since {
            (now - self.since) as nat
        } else {
            0
        }
    }

    /// The session after traffic at `now`.
    pub open spec fn touched(self, now: nat) -> SessionView {
        if self.state == SessionState::Terminated {
            self
        } else {
            SessionView { state: SessionState::Active, since: now, ..self }
        }
    }

    /// The session after a look at the clock at `now`: where it has been in
    /// its state for the length of the timeout and silence moves it on, it
    /// is in the next state since `now`.
    pub open spec fn expired(self, now: nat, timeout: nat) -> SessionView {
        if self.silence(now) >= timeout && self.state.on_silence() != self.state {
            SessionView { state: self.state.on_silence(), since: now, ..self }
        } else {
            self
        }
    }

    /// The session after a datagram from the server with the given draw at
    /// `now`: it has seen traffic, and the datagram has gone through the
    /// pipeline towards the client.
    pub open spec fn received(self, payload: Seq<u8>, draw: Draw, now: nat) -> SessionView {
        let (downlink, held) = injected(self.downlink, self.held, payload, self.client, draw);
        SessionView { downlink, held, ..self.touched(now) }
    }

    /// The session after its due packets have been taken out at `now`.
    pub open spec fn drained(self, now: nat) -> SessionView {
        SessionView { downlink: pending(self.downlink, now), ..self }
    }

    /// What a session that closes at `now` still has to send: the packets
    /// that are due, the one held back among them if its time has come.
    pub open spec fn last_due(self, now: nat) -> Seq<PacketView> {
        match self.held {
            Some(earlier) => due(placed(self.downlink, earlier), now),
            None => due(self.downlink, now),
        }
    }
}

/// The session of one client.
pub struct Session {
    /// The address of the client.
    pub client: Endpoint,
    /// The address of the socket that this session has of its own.
    pub local: Endpoint,
    pub state: SessionState,
    /// When the session came into its state, or last saw traffic in it.
    pub since: u128,
    /// What the server has sent and the client has not yet got.
    pub downlink: DelayQueue,
    /// The packet for the client that is held back.
    pub slot: ReorderSlot,
}

impl View for Session {
    type V = SessionView;

    open spec fn view(&self) -> SessionView {
        SessionView {
            client: self.client,
            local: self.local,
            state: self.state,
            since: self.since as nat,
            downlink: self.downlink@,
            held: self.slot@,
        }
    }
}

impl Session {
    /// The queue is well formed, and what it and the slot hold is for the
    /// client.
    pub open spec fn wf(&self) -> bool {
        self.downlink.wf() && bound_for(self.downlink@, self.slot@, self.client)
    }

    /// A session made at `now`, with nothing on its way.
    pub fn new(client: Endpoint, local: Endpoint, now: u128) -> (session: Session)
        ensures
            session.wf(),
            session@ == (SessionView {
                client,
                local,
                state: SessionState::Created,
                since: now as nat,
                downlink: Seq::empty(),
                held: None,
            }),
    {
        Session {
            client,
            local,
            state: SessionState::Created,
            since: now,
            downlink: DelayQueue::new(),
            slot: ReorderSlot::new(),
        }
    }

    /// Notes traffic at `now`.
    pub fn touch(&mut self, now: u128)
        requires
            old(self).wf(),
        ensures
            final(self).wf(),
            final(self)@ == old(self)@.touched(now as nat),
            old(self).state.may_become(final(self).state),
    {
        match self.state {
            SessionState::Terminated => {},
            _ => {
                self.state = SessionState::Active;
                self.since = now;
            },
        }
    }

    /// Looks at the clock at `now`: a session that has been active for the
    /// length of the timeout without traffic is idle from now on, and one
    /// that has been idle for that long has ended.
    pub fn expire(&mut self, now: u128, timeout: u128)
        requires
            old(self).wf(),
        ensures
            final(self).wf(),
            final(self)@ == old(self)@.expired(now as nat, timeout as nat),
            old(self).state.may_become(final(self).state),
    {
        let silence: u128 = if now >= self.since {
            now - self.since
        } else {
            0
        };
        if silence >= timeout {
            match self.state {
                SessionState::Active => {
                    self.state = SessionState::Idle;
                    self.since = now;
                },
                SessionState::Idle => {
                    self.state = SessionState::Terminated;
                    self.since = now;
                },
                _ => {},
            }
        }
    }

    /// Takes in a datagram that the server sent at `now`, under the
    /// conditions from the server to the client. A session that has ended
    /// takes nothing in.
    pub fn receive(&mut self, buffer: Vec<u8>, conditions: Conditions, now: u128)
        requires
            old(self).wf(),
            conditions.wf(),
            now + 2 * conditions.max_delay() <= u128::MAX,
        ensures
            final(self).wf(),
            old(self)@.state == SessionState::Terminated ==> final(self)@ == old(self)@,
            old(self)@.state != SessionState::Terminated ==> exists|draw: Draw| #[trigger]
                conditions.may_draw(now as nat, old(self)@.held is None, draw) && final(self)@
                    == old(self)@.received(buffer@, draw, now as nat),
            conditions.loss_chance >= CERTAIN - 1 ==> final(self)@.downlink == old(self)@.downlink
                && final(self)@.held == old(self)@.held,
    {
        match self.state {
            SessionState::Terminated => {},
            _ => {
                self.touch(now);
                Proxy::queue_packet_static(
                    &mut self.downlink,
                    &mut self.slot,
                    buffer,
                    self.client,
                    conditions,
                    now,
                );
            },
        }
    }

    /// Takes out the packets that are due at `now`, to be sent to the client.
    pub fn send_pending(&mut self, now: u128) -> (ready: Vec<Packet>)
        requires
            old(self).wf(),
        ensures
            final(self).wf(),
            views(ready@) == due(old(self)@.downlink, now as nat),
            all_for(views(ready@), old(self).client),
            final(self)@ == old(self)@.drained(now as nat),
    {
        proof {
            self.downlink.lemma_ascending();
            lemma_taken_for(self.downlink@, now as nat, self.client);
        }
        self.downlink.drain_ready(now)
    }

    /// Closes the session at `now` and hands out what it still has to send:
    /// no packet whose time has come is dropped with the session.
    pub fn close(self, now: u128) -> (ready: Vec<Packet>)
        requires
            self.wf(),
        ensures
            views(ready@) == self@.last_due(now as nat),
            all_for(views(ready@), self.client),
    {
        let mut session = self;
        proof {
            session.downlink.lemma_ascending();
        }
        match session.slot.release() {
            Some(earlier) => {
                proof {
                    lemma_placed_for(session.downlink@, earlier@, session.client);
                }
                session.downlink.insert(earlier);
            },
            None => {},
        }
        proof {
            session.downlink.lemma_ascending();
            lemma_taken_for(session.downlink@, now as nat, session.client);
        }
        session.downlink.drain_ready(now)
    }
}

} // verus!
