//! The per-connection actor: owns exactly one transport connection and
//! bridges it to the lobby. It holds no business logic of its own; every
//! decision is the pure transition [`spec_conn_step`], so the host loop that
//! performs transport reads and writes only has to carry out the returned
//! action and feed the next event back in.
//!
//! Lifecycle: `Handshaking` (one register is issued, entering `Active`),
//! `Active` (route inbound lines, echo liveness probes, write drained
//! frames), `Closing` (entered on transport error, an explicit close or the
//! channel going away; exactly one deregister is issued on the way in), and
//! the terminal `Closed`.

use vstd::prelude::*;
use crate::messages::{Envelope, WsMessage};

verus! {

/// Lifecycle state of one connection actor.
#[derive(Clone, Copy, PartialEq, Eq, Debug)]
pub enum ConnState {
    Handshaking,
    Active,
    Closing,
    Closed,
}

/// One thing the host observed for this connection: an inbound text frame, a
/// liveness probe, a frame drained from the outbound channel, or one of the
/// three ways the connection ends.
#[derive(Clone, Debug)]
pub enum ConnEvent {
    Text(String),
    Probe(String),
    OutFrame(WsMessage),
    TransportError,
    CloseRequest,
    ChannelClosed,
}

/// What the host must do next: issue the one register (handing the lobby the
/// channel), route a line, answer a probe in-protocol, write a frame to the
/// transport, issue the one deregister and release the transport, or
/// nothing.
#[derive(Clone, Debug)]
pub enum ConnAction {
    RegisterLobby,
    RouteLine(Envelope),
    ProbeReply(String),
    WriteFrame(WsMessage),
    DeregisterLobby,
    Ignore,
}

/// The whole decision table of an active-or-later connection actor. While
/// `Active`: inbound text becomes an envelope addressed by the actor's own
/// identity and room; a probe is echoed in-protocol rather than routed; a
/// drained frame is written through; any end condition moves to `Closing`
/// and issues the one deregister. From `Closing` or `Closed` nothing further
/// is asked of the broker.
pub open spec fn spec_conn_step(st: ConnState, id: u128, room_id: u128, ev: ConnEvent) -> (
    ConnState,
    ConnAction,
) {
    match st {
        ConnState::Active => match ev {
            ConnEvent::Text(t) => (
                ConnState::Active,
                ConnAction::RouteLine((Envelope { id, msg: t, room_id })),
            ),
            ConnEvent::Probe(p) => (ConnState::Active, ConnAction::ProbeReply(p)),
            ConnEvent::OutFrame(f) => (ConnState::Active, ConnAction::WriteFrame(f)),
            ConnEvent::TransportError => (ConnState::Closing, ConnAction::DeregisterLobby),
            ConnEvent::CloseRequest => (ConnState::Closing, ConnAction::DeregisterLobby),
            ConnEvent::ChannelClosed => (ConnState::Closing, ConnAction::DeregisterLobby),
        },
        ConnState::Closing => (ConnState::Closed, ConnAction::Ignore),
        ConnState::Closed => (ConnState::Closed, ConnAction::Ignore),
        ConnState::Handshaking => (ConnState::Handshaking, ConnAction::Ignore),
    }
}

/// The actor for one accepted transport connection. The upstream HTTP layer
/// has already checked authorization and room eligibility before one of
/// these is constructed; the actor re-verifies nothing.
pub struct WsConn {
    id: u128,
    room_id: u128,
    state: ConnState,
}

impl WsConn {
    pub closed spec fn spec_id(&self) -> u128 {
        self.id
    }

    pub closed spec fn spec_room(&self) -> u128 {
        self.room_id
    }

    pub closed spec fn spec_state(&self) -> ConnState {
        self.state
    }

    /// A freshly accepted connection, identity and room already established
    /// upstream.
    pub fn new(room_id: u128, id: u128) -> (c: Self)
        ensures
            c.spec_id() == id,
            c.spec_room() == room_id,
            c.spec_state() == ConnState::Handshaking,
    {
        WsConn { id, room_id, state: ConnState::Handshaking }
    }

    pub fn id(&self) -> (r: u128)
        ensures
            r == self.spec_id(),
    {
        self.id
    }

    pub fn room_id(&self) -> (r: u128)
        ensures
            r == self.spec_room(),
    {
        self.room_id
    }

    pub fn state(&self) -> (r: ConnState)
        ensures
            r == self.spec_state(),
    {
        self.state
    }

    /// Entry into the lifecycle: the actor issues exactly one register
    /// (the host hands the lobby the actor's outbound channel) and becomes
    /// `Active`.
    pub fn handshake(&mut self) -> (act: ConnAction)
        requires
            old(self).spec_state() == ConnState::Handshaking,
        ensures
            final(self).spec_id() == old(self).spec_id(),
            final(self).spec_room() == old(self).spec_room(),
            final(self).spec_state() == ConnState::Active,
            act == ConnAction::RegisterLobby,
    {
        self.state = ConnState::Active;
        ConnAction::RegisterLobby
    }

    /// One step of the actor's loop, exactly [`spec_conn_step`].
    pub fn step(&mut self, ev: ConnEvent) -> (act: ConnAction)
        requires
            old(self).spec_state() != ConnState::Handshaking,
        ensures
            final(self).spec_id() == old(self).spec_id(),
            final(self).spec_room() == old(self).spec_room(),
            (final(self).spec_state(), act) == spec_conn_step(
                old(self).spec_state(),
                old(self).spec_id(),
                old(self).spec_room(),
                ev,
            ),
    {
        match self.state {
            ConnState::Active => match ev {
                ConnEvent::Text(t) => ConnAction::RouteLine(
                    Envelope { id: self.id, msg: t, room_id: self.room_id },
                ),
                ConnEvent::Probe(p) => ConnAction::ProbeReply(p),
                ConnEvent::OutFrame(f) => ConnAction::WriteFrame(f),
                ConnEvent::TransportError => {
                    self.state = ConnState::Closing;
                    ConnAction::DeregisterLobby
                },
                ConnEvent::CloseRequest => {
                    self.state = ConnState::Closing;
                    ConnAction::DeregisterLobby
                },
                ConnEvent::ChannelClosed => {
                    self.state = ConnState::Closing;
                    ConnAction::DeregisterLobby
                },
            },
            ConnState::Closing => {
                self.state = ConnState::Closed;
                ConnAction::Ignore
            },
            ConnState::Closed => ConnAction::Ignore,
            ConnState::Handshaking => ConnAction::Ignore,
        }
    }
}

/// Once a connection has issued its deregister (state `Closing` or
/// `Closed`), no later event makes it speak to the broker again, and it
/// never returns to `Active`: the one register and the one deregister stay
/// the only broker commands of a connection's lifetime.
pub proof fn lemma_closing_is_quiescent(st: ConnState, id: u128, room_id: u128, ev: ConnEvent)
    requires
        st == ConnState::Closing || st == ConnState::Closed,
    ensures
        spec_conn_step(st, id, room_id, ev).1 == ConnAction::Ignore,
        spec_conn_step(st, id, room_id, ev).0 == ConnState::Closing || spec_conn_step(
            st,
            id,
            room_id,
            ev,
        ).0 == ConnState::Closed,
{
}

} // verus!
