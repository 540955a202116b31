use ttn_relay::connection::{
    is_uplink_topic, subscription_topics, ConnectionAction, ConnectionEvent, ConnectionManager,
    ConnectionState, RETRY_DELAY_MS,
};

#[test]
fn topics_and_filter() {
    assert_eq!(subscription_topics(), vec!["v3/+/devices/+/activations", "v3/+/devices/+/up"]);
    assert!(is_uplink_topic("v3/app/devices/dev1/up"));
    assert!(!is_uplink_topic("v3/app/devices/dev1/activations"));
    assert!(!is_uplink_topic("up"));
    assert!(is_uplink_topic("/up"));
    assert!(!is_uplink_topic("v3/app/devices/dev1/upx"));
}

#[test]
fn connect_subscribe_and_handle() {
    let mut c = ConnectionManager::new();
    assert_eq!(c.state(), ConnectionState::Disconnected);
    assert_eq!(c.on_event(ConnectionEvent::Start), ConnectionAction::Connect);
    assert_eq!(
        c.on_event(ConnectionEvent::Connected { session_present: false }),
        ConnectionAction::Subscribe
    );
    assert_eq!(c.state(), ConnectionState::Subscribed);
    assert_eq!(c.on_event(ConnectionEvent::Message { uplink: true }), ConnectionAction::HandleUplink);
    assert_eq!(c.on_event(ConnectionEvent::Message { uplink: false }), ConnectionAction::Discard);
    assert_eq!(c.state(), ConnectionState::Subscribed);
}

#[test]
fn kept_session_needs_no_new_subscription() {
    let mut c = ConnectionManager::new();
    c.on_event(ConnectionEvent::Start);
    assert_eq!(
        c.on_event(ConnectionEvent::Connected { session_present: true }),
        ConnectionAction::Nothing
    );
    assert_eq!(c.state(), ConnectionState::Subscribed);
}

#[test]
fn lost_stream_is_retried_after_delay() {
    let mut c = ConnectionManager::new();
    c.on_event(ConnectionEvent::Start);
    c.on_event(ConnectionEvent::Connected { session_present: false });
    assert_eq!(
        c.on_event(ConnectionEvent::StreamEnded),
        ConnectionAction::RetryAfter { millis: RETRY_DELAY_MS }
    );
    assert_eq!(RETRY_DELAY_MS, 5000);
    assert_eq!(c.state(), ConnectionState::Reconnecting);
    assert_eq!(c.on_event(ConnectionEvent::RetryDelayElapsed), ConnectionAction::Connect);
    assert_eq!(
        c.on_event(ConnectionEvent::ConnectFailed),
        ConnectionAction::RetryAfter { millis: 5000 }
    );
    assert_eq!(c.on_event(ConnectionEvent::RetryDelayElapsed), ConnectionAction::Connect);
}

#[test]
fn shutdown_disconnects_only_when_connected() {
    let mut c = ConnectionManager::new();
    c.on_event(ConnectionEvent::Start);
    c.on_event(ConnectionEvent::Connected { session_present: false });
    assert_eq!(c.on_event(ConnectionEvent::ShutdownRequested), ConnectionAction::Disconnect);
    assert_eq!(c.state(), ConnectionState::ShuttingDown);
    assert_eq!(c.on_event(ConnectionEvent::Message { uplink: true }), ConnectionAction::Nothing);

    let mut c = ConnectionManager::new();
    c.on_event(ConnectionEvent::Start);
    c.on_event(ConnectionEvent::ConnectFailed);
    assert_eq!(c.on_event(ConnectionEvent::ShutdownRequested), ConnectionAction::Stop);
}
