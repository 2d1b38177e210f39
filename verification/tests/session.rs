use buttplug::connection_loop::{
    ConnectionAction, ConnectionEvent, ConnectionLoop, IncomingFrame, KEEPALIVE_INTERVAL_MS,
};
use buttplug::errors::ButtplugDeviceError;
use buttplug::hardware::{
    write_result, Endpoint, HardwareEvent, ProtocolCommunicationSpecifier, WebsocketSpecifier,
};
use buttplug::websocket_server_hardware::{
    listener_step, ListenerAction, ListenerEvent, WebsocketServerDeviceCommManagerInitInfo,
    WebsocketServerHardware, WebsocketServerHardwareConnector, CHANNEL_CAPACITY,
};

fn info() -> WebsocketServerDeviceCommManagerInitInfo {
    WebsocketServerDeviceCommManagerInitInfo {
        identifier: "LVS-Test".to_string(),
        address: "10.0.0.7:54321".to_string(),
    }
}

#[test]
fn new_session_is_connected_and_unsubscribed() {
    let mut session = WebsocketServerHardware::new(info());
    assert!(session.connected());
    assert_eq!(session.address(), "10.0.0.7:54321");
    assert_eq!(
        session.unsubscribe(Endpoint::Tx),
        Err(ButtplugDeviceError::DeviceCommunicationError(
            "Device not subscribed.".to_string()
        ))
    );
    assert!(session.connected());
}

#[test]
fn subscribe_twice_starts_one_listener() {
    let mut session = WebsocketServerHardware::new(info());
    let first = session.subscribe(Endpoint::Tx).unwrap();
    let token = first.expect("the first subscription starts a listener");
    assert!(!token.is_cancelled());
    let second = session.subscribe(Endpoint::Tx).unwrap();
    assert!(second.is_none());
    assert!(!token.is_cancelled());
    // The session still keeps the token of the first subscription: ending
    // the subscription stops the first listener.
    assert_eq!(session.unsubscribe(Endpoint::Tx), Ok(()));
    assert!(token.is_cancelled());
}

#[test]
fn unsubscribe_fires_the_listener_token() {
    let mut session = WebsocketServerHardware::new(info());
    let token = session.subscribe(Endpoint::Tx).unwrap().unwrap();
    assert!(!token.is_cancelled());
    assert_eq!(session.unsubscribe(Endpoint::Tx), Ok(()));
    assert!(token.is_cancelled());
    // Nothing is left to cancel.
    assert_eq!(
        session.unsubscribe(Endpoint::Tx),
        Err(ButtplugDeviceError::DeviceCommunicationError(
            "Device not subscribed.".to_string()
        ))
    );
    // A new subscription gets a token of its own.
    let again = session.subscribe(Endpoint::Tx).unwrap().unwrap();
    assert!(!again.is_cancelled());
    assert!(token.is_cancelled());
    assert_eq!(session.unsubscribe(Endpoint::Tx), Ok(()));
    assert!(again.is_cancelled());
}

#[test]
fn stopping_a_listener_does_not_end_the_subscription() {
    let mut session = WebsocketServerHardware::new(info());
    let token = session.subscribe(Endpoint::Tx).unwrap().unwrap();
    token.cancel();
    // The session still holds its own token.
    assert!(session.subscribe(Endpoint::Tx).unwrap().is_none());
    assert_eq!(session.unsubscribe(Endpoint::Tx), Ok(()));
}

#[test]
fn disconnect_is_idempotent_and_leaves_the_subscription() {
    let mut session = WebsocketServerHardware::new(info());
    let token = session.subscribe(Endpoint::Tx).unwrap().unwrap();
    assert_eq!(session.disconnect(), Ok(()));
    assert!(!session.connected());
    assert_eq!(session.disconnect(), Ok(()));
    assert!(!session.connected());
    assert!(!token.is_cancelled());
    assert!(session.subscribe(Endpoint::Tx).unwrap().is_none());
    assert_eq!(session.unsubscribe(Endpoint::Tx), Ok(()));
    assert!(token.is_cancelled());
}

#[test]
fn reading_is_not_supported() {
    let session = WebsocketServerHardware::new(info());
    for endpoint in [Endpoint::Rx, Endpoint::Tx] {
        assert_eq!(
            session.read_value(endpoint),
            Err(ButtplugDeviceError::UnhandledCommand(
                "Websocket Hardware does not support read".to_string()
            ))
        );
    }
}

#[test]
fn a_refused_write_is_a_communication_error() {
    assert_eq!(write_result(Ok(())), Ok(()));
    assert_eq!(
        write_result(Err("channel closed".to_string())),
        Err(ButtplugDeviceError::DeviceCommunicationError(
            "Could not write value to websocket device: channel closed".to_string()
        ))
    );
    assert_eq!(
        write_result(Err(String::new())),
        Err(ButtplugDeviceError::DeviceCommunicationError(
            "Could not write value to websocket device: ".to_string()
        ))
    );
}

#[test]
fn listener_publishes_what_it_receives_and_stops_otherwise() {
    match listener_step("10.0.0.7:54321", ListenerEvent::Received(vec![1, 2, 3])) {
        ListenerAction::Publish(event) => assert_eq!(
            event,
            HardwareEvent::Notification("10.0.0.7:54321".to_string(), Endpoint::Tx, vec![1, 2, 3])
        ),
        other => panic!("{:?}", other),
    }
    match listener_step("a", ListenerEvent::Received(vec![])) {
        ListenerAction::Publish(event) => assert_eq!(
            event,
            HardwareEvent::Notification("a".to_string(), Endpoint::Tx, vec![])
        ),
        other => panic!("{:?}", other),
    }
    assert!(matches!(
        listener_step("a", ListenerEvent::ReceiveFailed),
        ListenerAction::Stop
    ));
    assert!(matches!(
        listener_step("a", ListenerEvent::Cancelled),
        ListenerAction::Stop
    ));
}

#[test]
fn connector_names_the_device_and_hands_out_a_fresh_session() {
    let mut connector = WebsocketServerHardwareConnector::new(info());
    match connector.specifier() {
        ProtocolCommunicationSpecifier::Websocket(websocket) => {
            assert_eq!(websocket.names, vec!["LVS-Test".to_string()])
        }
    }
    assert_eq!(WebsocketSpecifier::new("x").names, vec!["x".to_string()]);
    for _ in 0..2 {
        let mut hardware = connector.connect().unwrap();
        assert_eq!(hardware.name, "LVS-Test");
        assert_eq!(hardware.address, "10.0.0.7:54321");
        assert_eq!(hardware.endpoints, vec![Endpoint::Rx, Endpoint::Tx]);
        assert!(hardware.internal.connected());
        assert!(hardware.internal.unsubscribe(Endpoint::Tx).is_err());
    }
    let copy = info().clone();
    assert_eq!(copy.identifier, "LVS-Test");
    assert_eq!(copy.address, "10.0.0.7:54321");
}

#[test]
fn fixed_settings() {
    assert_eq!(KEEPALIVE_INTERVAL_MS, 1000);
    assert_eq!(CHANNEL_CAPACITY, 256);
}

#[test]
fn silence_over_two_ticks_ends_the_loop() {
    let mut connection = ConnectionLoop::new("peer".to_string());
    assert!(connection.is_open());
    match connection.step(ConnectionEvent::KeepaliveElapsed) {
        ConnectionAction::SendPing(payload) => assert_eq!(payload, vec![0]),
        other => panic!("{:?}", other),
    }
    assert!(connection.is_open());
    // Traffic that is no acknowledgment does not count.
    assert!(matches!(
        connection.step(ConnectionEvent::Received(IncomingFrame::Ping)),
        ConnectionAction::Continue
    ));
    assert!(matches!(
        connection.step(ConnectionEvent::Received(IncomingFrame::Binary(vec![9]))),
        ConnectionAction::Broadcast(_)
    ));
    assert!(matches!(
        connection.step(ConnectionEvent::WriteRequested(vec![1])),
        ConnectionAction::SendBinary(_)
    ));
    assert!(matches!(
        connection.step(ConnectionEvent::KeepaliveElapsed),
        ConnectionAction::Exit
    ));
    assert!(!connection.is_open());
}

#[test]
fn acknowledgments_keep_the_loop_running() {
    let mut connection = ConnectionLoop::new("peer".to_string());
    for _ in 0..100 {
        match connection.step(ConnectionEvent::KeepaliveElapsed) {
            ConnectionAction::SendPing(payload) => assert_eq!(payload, vec![0]),
            other => panic!("{:?}", other),
        }
        assert!(matches!(
            connection.step(ConnectionEvent::Received(IncomingFrame::Pong)),
            ConnectionAction::Continue
        ));
        assert!(connection.is_open());
    }
    // Two acknowledgments for one probe are as good as one.
    connection.step(ConnectionEvent::Received(IncomingFrame::Pong));
    assert!(matches!(
        connection.step(ConnectionEvent::KeepaliveElapsed),
        ConnectionAction::SendPing(_)
    ));
    assert!(matches!(
        connection.step(ConnectionEvent::KeepaliveElapsed),
        ConnectionAction::Exit
    ));
}

#[test]
fn payloads_pass_through_unchanged() {
    let mut connection = ConnectionLoop::new("peer".to_string());
    match connection.step(ConnectionEvent::WriteRequested(vec![1, 2, 3, 255])) {
        ConnectionAction::SendBinary(payload) => assert_eq!(payload, vec![1, 2, 3, 255]),
        other => panic!("{:?}", other),
    }
    match connection.step(ConnectionEvent::Received(IncomingFrame::Binary(vec![7, 0, 7]))) {
        ConnectionAction::Broadcast(payload) => assert_eq!(payload, vec![7, 0, 7]),
        other => panic!("{:?}", other),
    }
    match connection.step(ConnectionEvent::WriteRequested(vec![])) {
        ConnectionAction::SendBinary(payload) => assert!(payload.is_empty()),
        other => panic!("{:?}", other),
    }
    assert!(connection.is_open());
}

#[test]
fn frames_without_effect() {
    let mut connection = ConnectionLoop::new("peer".to_string());
    for _ in 0..3 {
        assert!(matches!(
            connection.step(ConnectionEvent::Received(IncomingFrame::Text)),
            ConnectionAction::Continue
        ));
        assert!(matches!(
            connection.step(ConnectionEvent::Received(IncomingFrame::Ping)),
            ConnectionAction::Continue
        ));
        assert!(matches!(
            connection.step(ConnectionEvent::Received(IncomingFrame::Frame)),
            ConnectionAction::Continue
        ));
    }
    assert!(connection.is_open());
    // None of them counted as an acknowledgment.
    connection.step(ConnectionEvent::KeepaliveElapsed);
    assert!(matches!(
        connection.step(ConnectionEvent::KeepaliveElapsed),
        ConnectionAction::Exit
    ));
}

#[test]
fn close_frame_announces_the_disconnect() {
    let mut connection = ConnectionLoop::new("10.0.0.7:54321".to_string());
    match connection.step(ConnectionEvent::Received(IncomingFrame::Close)) {
        ConnectionAction::AnnounceDisconnect(event) => assert_eq!(
            event,
            HardwareEvent::Disconnected("10.0.0.7:54321".to_string())
        ),
        other => panic!("{:?}", other),
    }
    assert!(!connection.is_open());
}

#[test]
fn owner_gone_closes_the_socket() {
    let mut connection = ConnectionLoop::new("peer".to_string());
    assert!(matches!(
        connection.step(ConnectionEvent::WriteQueueClosed),
        ConnectionAction::CloseSocket
    ));
    assert!(!connection.is_open());
}

#[test]
fn socket_failures_announce_the_disconnect_and_end_the_loop() {
    let mut connection = ConnectionLoop::new("10.0.0.7:54321".to_string());
    match connection.step(ConnectionEvent::ReceiveFailed) {
        ConnectionAction::AnnounceDisconnect(event) => assert_eq!(
            event,
            HardwareEvent::Disconnected("10.0.0.7:54321".to_string())
        ),
        other => panic!("{:?}", other),
    }
    assert!(!connection.is_open());
    let mut connection = ConnectionLoop::new("peer".to_string());
    match connection.step(ConnectionEvent::SocketClosed) {
        ConnectionAction::AnnounceDisconnect(event) => {
            assert_eq!(event, HardwareEvent::Disconnected("peer".to_string()))
        }
        other => panic!("{:?}", other),
    }
    assert!(!connection.is_open());
    let mut connection = ConnectionLoop::new("peer".to_string());
    connection.step(ConnectionEvent::KeepaliveElapsed);
    match connection.step(ConnectionEvent::SendFailed) {
        ConnectionAction::AnnounceDisconnect(event) => {
            assert_eq!(event, HardwareEvent::Disconnected("peer".to_string()))
        }
        other => panic!("{:?}", other),
    }
    assert!(!connection.is_open());
    // The announcement is made once: the ended loop only exits.
    assert!(matches!(
        connection.step(ConnectionEvent::SendFailed),
        ConnectionAction::Exit
    ));
    assert!(matches!(
        connection.step(ConnectionEvent::ReceiveFailed),
        ConnectionAction::Exit
    ));
}

#[test]
fn silence_and_a_departed_owner_are_not_announced() {
    let mut connection = ConnectionLoop::new("peer".to_string());
    connection.step(ConnectionEvent::KeepaliveElapsed);
    assert!(matches!(
        connection.step(ConnectionEvent::KeepaliveElapsed),
        ConnectionAction::Exit
    ));
    let mut connection = ConnectionLoop::new("peer".to_string());
    assert!(matches!(
        connection.step(ConnectionEvent::WriteQueueClosed),
        ConnectionAction::CloseSocket
    ));
}

#[test]
fn an_ended_loop_does_nothing_but_exit() {
    let mut connection = ConnectionLoop::new("peer".to_string());
    connection.step(ConnectionEvent::SocketClosed);
    assert!(matches!(
        connection.step(ConnectionEvent::WriteRequested(vec![1])),
        ConnectionAction::Exit
    ));
    assert!(matches!(
        connection.step(ConnectionEvent::Received(IncomingFrame::Pong)),
        ConnectionAction::Exit
    ));
    assert!(matches!(
        connection.step(ConnectionEvent::Received(IncomingFrame::Binary(vec![1]))),
        ConnectionAction::Exit
    ));
    assert!(matches!(
        connection.step(ConnectionEvent::KeepaliveElapsed),
        ConnectionAction::Exit
    ));
    assert!(matches!(
        connection.step(ConnectionEvent::Received(IncomingFrame::Close)),
        ConnectionAction::Exit
    ));
    assert!(!connection.is_open());
}
