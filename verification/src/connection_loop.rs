//! The decisions of the connection loop.
//!
//! One background task per session owns the socket. It waits for three
//! things at once: the keepalive timer, the queue of outgoing payloads, and
//! the socket itself. Whatever happens first is handed to
//! [`ConnectionLoop::step`], which says what to do about it and whether the
//! loop goes on. The loop ending is the only way a device is declared gone.
//!
//! Liveness is checked by counting. Each timer tick sends a probe and sets
//! the count of acknowledgments to zero; each acknowledgment raises it. A
//! tick that finds the count at zero ends the loop.
//!
//! When the socket fails, the listeners are told that the device is gone: on
//! a close frame from the peer, a failed read, the end of the stream, and a
//! frame that could not be sent. The loop ends without a word when the
//! keepalive timer finds the peer silent, and when the session's owner is
//! gone and the socket is closed from this side.

use vstd::prelude::*;
use vstd::string::*;
use crate::hardware::{HardwareEvent, HardwareEventView};

verus! {

/// Milliseconds between two liveness probes.
pub const KEEPALIVE_INTERVAL_MS: u64 = 1000;

/// A frame received from the socket, with what the loop reads of it.
#[derive(Debug)]
pub enum IncomingFrame {
    /// A text frame. Devices are not expected to send any.
    Text,
    /// A binary frame and its payload.
    Binary(Vec<u8>),
    /// The peer closes the connection.
    Close,
    /// A liveness probe from the peer.
    Ping,
    /// The peer's acknowledgment of a liveness probe.
    Pong,
    /// A raw frame.
    Frame,
}

/// What the loop was woken by.
#[derive(Debug)]
pub enum ConnectionEvent {
    /// The keepalive timer ran out.
    KeepaliveElapsed,
    /// The outgoing queue handed over a payload.
    WriteRequested(Vec<u8>),
    /// The outgoing queue is closed: the session's owner is gone.
    WriteQueueClosed,
    /// The socket delivered a frame.
    Received(IncomingFrame),
    /// Reading from the socket failed.
    ReceiveFailed,
    /// The socket delivers no more frames.
    SocketClosed,
    /// The frame that the loop last asked to send could not be sent.
    SendFailed,
}

/// What the loop does next.
#[derive(Debug)]
pub enum ConnectionAction {
    /// Send a liveness probe with this payload and start the timer again.
    SendPing(Vec<u8>),
    /// Send this payload as a binary frame.
    SendBinary(Vec<u8>),
    /// Close the socket, whether or not that succeeds, and end the loop.
    CloseSocket,
    /// Publish this payload on the incoming broadcast channel, whether or
    /// not anyone listens.
    Broadcast(Vec<u8>),
    /// Publish this event, whether or not anyone listens, and end the loop.
    AnnounceDisconnect(HardwareEvent),
    /// Nothing to do.
    Continue,
    /// End the loop.
    Exit,
}

impl ConnectionAction {
    /// The loop ends with this action.
    pub open spec fn ends_loop(self) -> bool {
        self is CloseSocket || self is AnnounceDisconnect || self is Exit
    }
}

/// The loop's state: how many acknowledgments arrived since the last probe,
/// and whether the loop is still running.
#[derive(Clone, Copy, Debug, PartialEq, Eq, Structural)]
pub struct LoopState {
    pub pong_count: u32,
    pub open: bool,
}

/// The event is an acknowledgment of a liveness probe.
pub open spec fn is_acknowledgment(event: ConnectionEvent) -> bool {
    event matches ConnectionEvent::Received(IncomingFrame::Pong)
}

impl LoopState {
    /// The state a loop starts in. The count starts at one, so that the
    /// first tick sends a probe instead of ending the loop.
    pub open spec fn initial() -> LoopState {
        LoopState { pong_count: 1, open: true }
    }

    /// This state with the loop ended.
    pub open spec fn closed(self) -> LoopState {
        LoopState { open: false, ..self }
    }

    /// The state after `event`.
    pub open spec fn after(self, event: ConnectionEvent) -> LoopState {
        if !self.open {
            self
        } else {
            match event {
                ConnectionEvent::KeepaliveElapsed => if self.pong_count == 0 {
                    self.closed()
                } else {
                    LoopState { pong_count: 0, open: true }
                },
                ConnectionEvent::WriteRequested(_) => self,
                ConnectionEvent::WriteQueueClosed => self.closed(),
                ConnectionEvent::Received(frame) => match frame {
                    IncomingFrame::Pong => LoopState {
                        pong_count: if self.pong_count < u32::MAX {
                            (self.pong_count + 1) as u32
                        } else {
                            u32::MAX
                        },
                        open: true,
                    },
                    IncomingFrame::Close => self.closed(),
                    _ => self,
                },
                ConnectionEvent::ReceiveFailed => self.closed(),
                ConnectionEvent::SocketClosed => self.closed(),
                ConnectionEvent::SendFailed => self.closed(),
            }
        }
    }

    /// The state after a sequence of events, first to last.
    pub open spec fn after_all(self, events: Seq<ConnectionEvent>) -> LoopState
        decreases events.len(),
    {
        if events.len() == 0 {
            self
        } else {
            self.after(events[0]).after_all(events.drop_first())
        }
    }

    /// `action` is what a loop in this state, for the device at `address`,
    /// does on `event`.
    pub open spec fn acts(
        self,
        address: Seq<char>,
        event: ConnectionEvent,
        action: ConnectionAction,
    ) -> bool {
        if !self.open {
            action is Exit
        } else {
            match event {
                ConnectionEvent::KeepaliveElapsed => if self.pong_count == 0 {
                    action is Exit
                } else {
                    action matches ConnectionAction::SendPing(payload) && payload@ == seq![0u8]
                },
                ConnectionEvent::WriteRequested(data) => {
                    action matches ConnectionAction::SendBinary(payload) && payload@ == data@
                },
                ConnectionEvent::WriteQueueClosed => action is CloseSocket,
                ConnectionEvent::Received(frame) => match frame {
                    IncomingFrame::Binary(data) => action matches ConnectionAction::Broadcast(
                        payload,
                    ) && payload@ == data@,
                    IncomingFrame::Close => self.announces_disconnect(address, action),
                    _ => action is Continue,
                },
                ConnectionEvent::ReceiveFailed => self.announces_disconnect(address, action),
                ConnectionEvent::SocketClosed => self.announces_disconnect(address, action),
                ConnectionEvent::SendFailed => self.announces_disconnect(address, action),
            }
        }
    }

    /// `action` tells the listeners that the device at `address` is gone.
    pub open spec fn announces_disconnect(
        self,
        address: Seq<char>,
        action: ConnectionAction,
    ) -> bool {
        action matches ConnectionAction::AnnounceDisconnect(published) && published@
            == HardwareEventView::Disconnected(address)
    }
}

/// How many of the events are ticks of the keepalive timer.
pub open spec fn keepalive_ticks(events: Seq<ConnectionEvent>) -> nat
    decreases events.len(),
{
    if events.len() == 0 {
        0
    } else {
        let first: nat = if events[0] is KeepaliveElapsed {
            1
        } else {
            0
        };
        first + keepalive_ticks(events.drop_first())
    }
}

/// The connection loop of one session.
#[derive(Debug)]
pub struct ConnectionLoop {
    address: String,
    state: LoopState,
}

impl View for ConnectionLoop {
    type V = LoopState;

    closed spec fn view(&self) -> LoopState {
        self.state
    }
}

impl ConnectionLoop {
    /// The address of the device this loop serves.
    pub closed spec fn address(&self) -> Seq<char> {
        self.address@
    }

    /// A loop for the device at `address`, about to start.
    pub fn new(address: String) -> (connection: ConnectionLoop)
        ensures
            connection@ == LoopState::initial(),
            connection.address() == address@,
    {
        ConnectionLoop { address, state: LoopState { pong_count: 1, open: true } }
    }

    /// Whether the loop is still running.
    pub fn is_open(&self) -> (open: bool)
        ensures
            open == self@.open,
    {
        self.state.open
    }

    /// Takes what the loop was woken by and says what to do about it.
    pub fn step(&mut self, event: ConnectionEvent) -> (action: ConnectionAction)
        ensures
            final(self)@ == old(self)@.after(event),
            final(self).address() == old(self).address(),
            old(self)@.acts(old(self).address(), event, action),
            action.ends_loop() <==> !final(self)@.open,
    {
        if !self.state.open {
            return ConnectionAction::Exit;
        }
        match event {
            ConnectionEvent::KeepaliveElapsed => {
                if self.state.pong_count == 0 {
                    self.state.open = false;
                    return ConnectionAction::Exit;
                }
                self.state.pong_count = 0;
                let mut payload: Vec<u8> = Vec::new();
                payload.push(0u8);
                assert(payload@ =~= seq![0u8]);
                ConnectionAction::SendPing(payload)
            },
            ConnectionEvent::WriteRequested(data) => ConnectionAction::SendBinary(data),
            ConnectionEvent::WriteQueueClosed => {
                self.state.open = false;
                ConnectionAction::CloseSocket
            },
            ConnectionEvent::Received(frame) => match frame {
                IncomingFrame::Text => ConnectionAction::Continue,
                IncomingFrame::Binary(data) => ConnectionAction::Broadcast(data),
                IncomingFrame::Close => {
                    self.state.open = false;
                    ConnectionAction::AnnounceDisconnect(
                        HardwareEvent::Disconnected(self.address.clone()),
                    )
                },
                IncomingFrame::Ping => ConnectionAction::Continue,
                IncomingFrame::Frame => ConnectionAction::Continue,
                IncomingFrame::Pong => {
                    if self.state.pong_count < u32::MAX {
                        self.state.pong_count = self.state.pong_count + 1;
                    }
                    ConnectionAction::Continue
                },
            },
            ConnectionEvent::ReceiveFailed => {
                self.state.open = false;
                ConnectionAction::AnnounceDisconnect(
                    HardwareEvent::Disconnected(self.address.clone()),
                )
            },
            ConnectionEvent::SocketClosed => {
                self.state.open = false;
                ConnectionAction::AnnounceDisconnect(
                    HardwareEvent::Disconnected(self.address.clone()),
                )
            },
            ConnectionEvent::SendFailed => {
                self.state.open = false;
                ConnectionAction::AnnounceDisconnect(
                    HardwareEvent::Disconnected(self.address.clone()),
                )
            },
        }
    }
}

/// The loop ends exactly on the actions that say so, and a loop that has
/// ended stays ended: whatever comes, it does nothing but exit.
pub proof fn lemma_loop_ends_once(
    state: LoopState,
    address: Seq<char>,
    event: ConnectionEvent,
    action: ConnectionAction,
)
    requires
        state.acts(address, event, action),
    ensures
        state.open ==> (action.ends_loop() <==> !state.after(event).open),
        !state.open ==> action is Exit && state.after(event) == state,
{
}

/// Every failure of the socket is announced: on a close frame from the peer,
/// a failed read, the end of the stream and a failed send, a running loop
/// tells the listeners that the device at its address is gone, and ends.
pub proof fn lemma_socket_failure_is_announced(
    state: LoopState,
    address: Seq<char>,
    event: ConnectionEvent,
    action: ConnectionAction,
)
    requires
        state.open,
        state.acts(address, event, action),
        event is ReceiveFailed || event is SocketClosed || event is SendFailed || event matches ConnectionEvent::Received(
            IncomingFrame::Close,
        ),
    ensures
        action matches ConnectionAction::AnnounceDisconnect(published) && published@
            == HardwareEventView::Disconnected(address),
        !state.after(event).open,
{
}

/// Without acknowledgments, what the events lead to.
proof fn lemma_silence(state: LoopState, events: Seq<ConnectionEvent>)
    requires
        forall|j: int| 0 <= j < events.len() ==> !is_acknowledgment(#[trigger] events[j]),
    ensures
        !state.open ==> !state.after_all(events).open,
        state.pong_count == 0 && keepalive_ticks(events) >= 1 ==> !state.after_all(events).open,
        keepalive_ticks(events) >= 2 ==> !state.after_all(events).open,
    decreases events.len(),
{
    if events.len() > 0 {
        let rest = events.drop_first();
        assert forall|j: int| 0 <= j < rest.len() implies !is_acknowledgment(
            #[trigger] rest[j],
        ) by {
            assert(rest[j] == events[j + 1]);
        }
        assert(!is_acknowledgment(events[0]));
        lemma_silence(state.after(events[0]), rest);
    }
}

/// A connection that stays silent is given up: if two ticks of the
/// keepalive timer pass and no acknowledgment arrives in all that time, the
/// loop has ended, whatever state it was in and whatever else happened.
pub proof fn lemma_silence_ends_loop(state: LoopState, events: Seq<ConnectionEvent>)
    requires
        keepalive_ticks(events) >= 2,
        forall|j: int| 0 <= j < events.len() ==> !is_acknowledgment(#[trigger] events[j]),
    ensures
        !state.after_all(events).open,
{
    lemma_silence(state, events);
}

/// An acknowledgment between two ticks keeps the loop running through the
/// second: the tick finds the count above zero and sends the next probe.
pub proof fn lemma_acknowledgment_keeps_loop(state: LoopState)
    requires
        state.open,
    ensures
        state.after(ConnectionEvent::Received(IncomingFrame::Pong)).after(
            ConnectionEvent::KeepaliveElapsed,
        ) == (LoopState { pong_count: 0, open: true }),
{
}

} // verus!
