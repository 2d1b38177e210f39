//! What every hardware transport shares: endpoints, events, errors of writes.

use vstd::prelude::*;
use vstd::string::*;
use crate::errors::ButtplugDeviceError;

verus! {

/// A logical pipe within one physical transport.
#[derive(Clone, Copy, Debug, PartialEq, Eq, Hash, Structural)]
pub enum Endpoint {
    /// From the device to the host.
    Rx,
    /// From the host to the device.
    Tx,
}

/// What a transport session tells its listeners.
#[derive(Debug, PartialEq, Eq)]
pub enum HardwareEvent {
    /// The device at this address is connected.
    Connected(String),
    /// The device at this address is gone.
    Disconnected(String),
    /// The device at this address sent these bytes on this endpoint.
    Notification(String, Endpoint, Vec<u8>),
}

/// A hardware event as a mathematical value.
pub enum HardwareEventView {
    Connected(Seq<char>),
    Disconnected(Seq<char>),
    Notification(Seq<char>, Endpoint, Seq<u8>),
}

impl View for HardwareEvent {
    type V = HardwareEventView;

    open spec fn view(&self) -> HardwareEventView {
        match self {
            HardwareEvent::Connected(address) => HardwareEventView::Connected(address@),
            HardwareEvent::Disconnected(address) => HardwareEventView::Disconnected(address@),
            HardwareEvent::Notification(address, endpoint, data) => HardwareEventView::Notification(
                address@,
                *endpoint,
                data@,
            ),
        }
    }
}

impl Clone for HardwareEvent {
    fn clone(&self) -> (event: HardwareEvent)
        ensures
            event@ == self@,
    {
        match self {
            HardwareEvent::Connected(address) => HardwareEvent::Connected(address.clone()),
            HardwareEvent::Disconnected(address) => HardwareEvent::Disconnected(address.clone()),
            HardwareEvent::Notification(address, endpoint, data) => {
                let copy = data.clone();
                assert(copy@ =~= data@);
                HardwareEvent::Notification(address.clone(), *endpoint, copy)
            },
        }
    }
}

/// A ready-to-use device: its name, its address, the endpoints it offers, and
/// the transport session behind it.
#[derive(Debug)]
pub struct Hardware<T> {
    pub name: String,
    pub address: String,
    pub endpoints: Vec<Endpoint>,
    pub internal: T,
}

/// How a device is matched to the connector that can take it.
#[derive(Debug)]
pub enum ProtocolCommunicationSpecifier {
    Websocket(WebsocketSpecifier),
}

/// The names under which a websocket device may present itself.
#[derive(Debug)]
pub struct WebsocketSpecifier {
    pub names: Vec<String>,
}

impl WebsocketSpecifier {
    /// The names as mathematical values.
    pub open spec fn name_views(self) -> Seq<Seq<char>> {
        self.names@.map_values(|name: String| name@)
    }

    /// A specifier for the single name `name`.
    pub fn new(name: &str) -> (specifier: WebsocketSpecifier)
        ensures
            specifier.name_views() == seq![name@],
    {
        let mut names: Vec<String> = Vec::new();
        names.push(String::from_str(name));
        let specifier = WebsocketSpecifier { names };
        assert(specifier.name_views() =~= seq![name@]);
        specifier
    }
}

/// The text of the error for a write that the outgoing channel refused;
/// `reason` is what the channel said.
pub open spec fn write_error_text(reason: Seq<char>) -> Seq<char> {
    "Could not write value to websocket device: "@ + reason
}

/// The result of a write, from what became of handing the payload to the
/// outgoing channel: success, or the channel's refusal as a communication
/// error.
pub fn write_result(sent: Result<(), String>) -> (r: Result<(), ButtplugDeviceError>)
    ensures
        match sent {
            Ok(_) => r is Ok,
            Err(reason) => r matches Err(ButtplugDeviceError::DeviceCommunicationError(text))
                && text@ == write_error_text(reason@),
        },
{
    match sent {
        Ok(_) => Ok(()),
        Err(reason) => {
            let mut text = String::from_str("Could not write value to websocket device: ");
            text.append(reason.as_str());
            Err(ButtplugDeviceError::DeviceCommunicationError(text))
        },
    }
}

} // verus!
