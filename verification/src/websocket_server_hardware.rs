//! The transport session of a device that connected over a websocket.
//!
//! The session is the book-keeping of one connection: whether it is
//! connected, whether a listener is subscribed, and the handle that stops the
//! listener. The connection loop owns the socket; the session never closes it.
//! Disconnecting marks the session and leaves an active listener to end when
//! its channel closes.

use vstd::prelude::*;
use vstd::string::*;
use tokio_util::sync::CancellationToken;
use crate::errors::ButtplugDeviceError;
use crate::hardware::{
    Endpoint, Hardware, HardwareEvent, HardwareEventView, ProtocolCommunicationSpecifier,
    WebsocketSpecifier,
};

verus! {

/// How many payloads the outgoing queue, and how many events each broadcast
/// channel, may hold before senders are held back or old items dropped.
pub const CHANNEL_CAPACITY: usize = 256;

/// Who connected: the name the device gave, and where it connected from.
#[derive(Debug)]
pub struct WebsocketServerDeviceCommManagerInitInfo {
    pub identifier: String,
    pub address: String,
}

impl Clone for WebsocketServerDeviceCommManagerInitInfo {
    fn clone(&self) -> (info: WebsocketServerDeviceCommManagerInitInfo)
        ensures
            info.identifier@ == self.identifier@,
            info.address@ == self.address@,
    {
        WebsocketServerDeviceCommManagerInitInfo {
            identifier: self.identifier.clone(),
            address: self.address.clone(),
        }
    }
}

/// The state of a session as a mathematical value.
pub struct SessionView {
    pub connected: bool,
    pub subscribed: bool,
    pub identifier: Seq<char>,
    pub address: Seq<char>,
}

impl SessionView {
    /// The state of a session that has just been created.
    pub open spec fn initial(identifier: Seq<char>, address: Seq<char>) -> SessionView {
        SessionView { connected: true, subscribed: false, identifier, address }
    }

    /// A subscribe request starts a listener only when none is subscribed.
    pub open spec fn subscribe_starts_listener(self) -> bool {
        !self.subscribed
    }

    pub open spec fn after_subscribe(self) -> SessionView {
        SessionView { subscribed: true, ..self }
    }

    /// An unsubscribe request fails when no listener is subscribed.
    pub open spec fn unsubscribe_fails(self) -> bool {
        !self.subscribed
    }

    pub open spec fn after_unsubscribe(self) -> SessionView {
        SessionView { subscribed: false, ..self }
    }

    pub open spec fn after_disconnect(self) -> SessionView {
        SessionView { connected: false, ..self }
    }
}

/// The live session of one websocket device.
#[derive(Debug)]
pub struct WebsocketServerHardware {
    connected: bool,
    subscribed: bool,
    subscribe_token: Option<CancellationToken>,
    info: WebsocketServerDeviceCommManagerInitInfo,
}

impl View for WebsocketServerHardware {
    type V = SessionView;

    closed spec fn view(&self) -> SessionView {
        SessionView {
            connected: self.connected,
            subscribed: self.subscribed,
            identifier: self.info.identifier@,
            address: self.info.address@,
        }
    }
}

impl WebsocketServerHardware {
    /// The cancellation token the session keeps for its listener, if it
    /// keeps one.
    pub closed spec fn kept_token(&self) -> Option<CancellationToken> {
        self.subscribe_token
    }

    /// A token to stop the listener is kept exactly while one is subscribed.
    pub open spec fn well_formed(&self) -> bool {
        self@.subscribed == (self.kept_token() is Some)
    }

    /// The session of a device that has just connected.
    pub fn new(info: WebsocketServerDeviceCommManagerInitInfo) -> (session: WebsocketServerHardware)
        ensures
            session.well_formed(),
            session@ == SessionView::initial(info.identifier@, info.address@),
            session.kept_token() is None,
    {
        WebsocketServerHardware { connected: true, subscribed: false, subscribe_token: None, info }
    }

    /// Whether the session counts as connected.
    pub fn connected(&self) -> (b: bool)
        ensures
            b == self@.connected,
    {
        self.connected
    }

    /// The address the device connected from.
    pub fn address(&self) -> (address: String)
        ensures
            address@ == self@.address,
    {
        self.info.address.clone()
    }

    /// Marks the session as disconnected. The socket is closed by the
    /// connection loop, not here, and a subscribed listener stays subscribed:
    /// the session keeps the token it kept.
    pub fn disconnect(&mut self) -> (r: Result<(), ButtplugDeviceError>)
        requires
            old(self).well_formed(),
        ensures
            r is Ok,
            final(self).well_formed(),
            final(self)@ == old(self)@.after_disconnect(),
            final(self).kept_token() == old(self).kept_token(),
    {
        self.connected = false;
        Ok(())
    }

    /// Reading is not something a websocket device can be asked for.
    pub fn read_value(&self, endpoint: Endpoint) -> (r: Result<Vec<u8>, ButtplugDeviceError>)
        ensures
            r matches Err(ButtplugDeviceError::UnhandledCommand(text)) && text@
                == "Websocket Hardware does not support read"@,
    {
        Err(
            ButtplugDeviceError::UnhandledCommand(
                String::from_str("Websocket Hardware does not support read"),
            ),
        )
    }

    /// Subscribes a listener to what the device sends.
    ///
    /// When a listener is subscribed already, nothing changes, the kept token
    /// included, and `None` is returned. Otherwise the session becomes
    /// subscribed and keeps a new cancellation token; the token returned is
    /// derived from it, and fires when the kept one is fired. The caller
    /// starts the listener with it.
    pub fn subscribe(&mut self, endpoint: Endpoint) -> (r: Result<
        Option<CancellationToken>,
        ButtplugDeviceError,
    >)
        requires
            old(self).well_formed(),
        ensures
            final(self).well_formed(),
            final(self)@ == old(self)@.after_subscribe(),
            r matches Ok(listener) && (listener is Some <==> old(
                self,
            )@.subscribe_starts_listener()),
            !old(self)@.subscribe_starts_listener() ==> final(self).kept_token() == old(
                self,
            ).kept_token(),
    {
        if self.subscribed {
            return Ok(None);
        }
        let token = CancellationToken::new();
        let listener = token.child_token();
        self.subscribed = true;
        self.subscribe_token = Some(token);
        Ok(Some(listener))
    }

    /// Ends the subscription: fires the kept cancellation token, which tells
    /// the listener to stop, and keeps it no longer. Fails with a
    /// communication error when no listener is subscribed.
    pub fn unsubscribe(&mut self, endpoint: Endpoint) -> (r: Result<(), ButtplugDeviceError>)
        requires
            old(self).well_formed(),
        ensures
            final(self).well_formed(),
            final(self)@ == old(self)@.after_unsubscribe(),
            match r {
                Ok(_) => !old(self)@.unsubscribe_fails(),
                Err(e) => {
                    &&& old(self)@.unsubscribe_fails()
                    &&& e matches ButtplugDeviceError::DeviceCommunicationError(text)
                    &&& text@ == "Device not subscribed."@
                },
            },
    {
        if self.subscribed {
            self.subscribed = false;
            let token = self.subscribe_token.take().unwrap();
            token.cancel();
            Ok(())
        } else {
            Err(
                ButtplugDeviceError::DeviceCommunicationError(
                    String::from_str("Device not subscribed."),
                ),
            )
        }
    }
}

/// What a listener task meets while it waits.
#[derive(Debug)]
pub enum ListenerEvent {
    /// The device sent these bytes.
    Received(Vec<u8>),
    /// The incoming channel is closed, or the listener fell too far behind.
    ReceiveFailed,
    /// The listener's cancellation token fired.
    Cancelled,
}

/// What a listener task does next.
#[derive(Debug)]
pub enum ListenerAction {
    /// Publish this event and go on listening.
    Publish(HardwareEvent),
    /// End the task.
    Stop,
}

/// What a listener for the device at `address` does on `event`: it publishes
/// what the device sent as a notification, and stops on anything else.
pub fn listener_step(address: &str, event: ListenerEvent) -> (action: ListenerAction)
    ensures
        match event {
            ListenerEvent::Received(data) => action matches ListenerAction::Publish(published)
                && published@ == HardwareEventView::Notification(address@, Endpoint::Tx, data@),
            ListenerEvent::ReceiveFailed => action is Stop,
            ListenerEvent::Cancelled => action is Stop,
        },
{
    match event {
        ListenerEvent::Received(data) => ListenerAction::Publish(
            HardwareEvent::Notification(String::from_str(address), Endpoint::Tx, data),
        ),
        ListenerEvent::ReceiveFailed => ListenerAction::Stop,
        ListenerEvent::Cancelled => ListenerAction::Stop,
    }
}

/// Accepts one websocket device and hands out its session.
#[derive(Debug)]
pub struct WebsocketServerHardwareConnector {
    info: WebsocketServerDeviceCommManagerInitInfo,
}

impl WebsocketServerHardwareConnector {
    /// The name the device gave.
    pub closed spec fn identifier(&self) -> Seq<char> {
        self.info.identifier@
    }

    /// The address the device connected from.
    pub closed spec fn address(&self) -> Seq<char> {
        self.info.address@
    }

    /// A connector for the device that `info` describes.
    pub fn new(info: WebsocketServerDeviceCommManagerInitInfo) -> (connector:
        WebsocketServerHardwareConnector)
        ensures
            connector.identifier() == info.identifier@,
            connector.address() == info.address@,
    {
        WebsocketServerHardwareConnector { info }
    }

    /// The specifier that routes this device to its protocol: a websocket
    /// device of the name it gave.
    pub fn specifier(&self) -> (specifier: ProtocolCommunicationSpecifier)
        ensures
            specifier matches ProtocolCommunicationSpecifier::Websocket(websocket)
                && websocket.name_views() == seq![self.identifier()],
    {
        ProtocolCommunicationSpecifier::Websocket(
            WebsocketSpecifier::new(self.info.identifier.as_str()),
        )
    }

    /// Hands out the device: named as it named itself, at its address, with a
    /// receive and a transmit endpoint, and a fresh session.
    pub fn connect(&mut self) -> (r: Result<Hardware<WebsocketServerHardware>, ButtplugDeviceError>)
        ensures
            final(self).identifier() == old(self).identifier(),
            final(self).address() == old(self).address(),
            r matches Ok(hardware) && {
                &&& hardware.name@ == old(self).identifier()
                &&& hardware.address@ == old(self).address()
                &&& hardware.endpoints@ == seq![Endpoint::Rx, Endpoint::Tx]
                &&& hardware.internal.well_formed()
                &&& hardware.internal@ == SessionView::initial(
                    old(self).identifier(),
                    old(self).address(),
                )
            },
    {
        let internal = WebsocketServerHardware::new(self.info.clone());
        let mut endpoints: Vec<Endpoint> = Vec::new();
        endpoints.push(Endpoint::Rx);
        endpoints.push(Endpoint::Tx);
        assert(endpoints@ =~= seq![Endpoint::Rx, Endpoint::Tx]);
        Ok(
            Hardware {
                name: self.info.identifier.clone(),
                address: self.info.address.clone(),
                endpoints,
                internal,
            },
        )
    }
}

/// A session that has just been created has no listener, so a request to
/// unsubscribe fails. Once subscribed, a second request to subscribe starts
/// no second listener and changes nothing; a request to unsubscribe then
/// succeeds, and the one after it fails.
pub proof fn lemma_subscription_is_idempotent(session: SessionView)
    ensures
        SessionView::initial(session.identifier, session.address).unsubscribe_fails(),
        !session.after_subscribe().subscribe_starts_listener(),
        session.after_subscribe().after_subscribe() == session.after_subscribe(),
        !session.after_subscribe().unsubscribe_fails(),
        session.after_subscribe().after_unsubscribe().unsubscribe_fails(),
{
}

/// Disconnecting twice is disconnecting once, and neither touches the
/// subscription.
pub proof fn lemma_disconnect_is_idempotent(session: SessionView)
    ensures
        !session.after_disconnect().connected,
        session.after_disconnect().after_disconnect() == session.after_disconnect(),
        session.after_disconnect().subscribed == session.subscribed,
{
}

} // verus!
