//! The life cycle of the subscription to the uplink stream, as a state
//! machine: the caller performs each action it returns and reports what
//! came of it as the next event.

use vstd::prelude::*;

verus! {

/// Delay before a new connection attempt, in milliseconds.
pub const RETRY_DELAY_MS: u64 = 5000;

/// Delivery guarantee of the subscriptions: at least once.
pub const SUBSCRIPTION_QOS: i32 = 1;

/// The topic patterns of device activations and of uplinks.
pub open spec fn subscription_topics_spec() -> Seq<Seq<char>> {
    seq!["v3/+/devices/+/activations"@, "v3/+/devices/+/up"@]
}

/// The topic patterns to subscribe to: device activations and uplinks.
pub fn subscription_topics() -> (r: Vec<String>)
    ensures
        r@.map_values(|t: String| t@) == subscription_topics_spec(),
{
    let r = vec![
        String::from_str("v3/+/devices/+/activations"),
        String::from_str("v3/+/devices/+/up"),
    ];
    assert(r@.map_values(|t: String| t@) =~= subscription_topics_spec());
    r
}

/// A topic that carries an uplink: it ends with `/up`.
pub open spec fn is_uplink_topic_spec(topic: Seq<char>) -> bool {
    topic.len() >= 3 && topic.subrange(topic.len() - 3, topic.len() as int) == seq!['/', 'u', 'p']
}

/// Whether a topic carries an uplink, rather than an activation.
pub fn is_uplink_topic(topic: &str) -> (r: bool)
    ensures
        r == is_uplink_topic_spec(topic@),
{
    let n = topic.unicode_len();
    if n < 3 {
        return false;
    }
    let r = topic.get_char(n - 3) == '/' && topic.get_char(n - 2) == 'u' && topic.get_char(n - 1)
        == 'p';
    proof {
        let tail = topic@.subrange(n - 3, n as int);
        if r {
            assert(tail =~= seq!['/', 'u', 'p']);
        } else {
            assert(tail[0] != '/' || tail[1] != 'u' || tail[2] != 'p');
        }
    }
    r
}

/// Where the connection stands.
#[derive(Debug, Clone, Copy, PartialEq, Eq)]
pub enum ConnectionState {
    /// Not connected, and no attempt made yet.
    Disconnected,
    /// A connection attempt is under way.
    Connecting,
    /// Connected and subscribed: messages flow.
    Subscribed,
    /// The connection failed or was lost; a new attempt follows the delay.
    Reconnecting,
    /// Shutting down: no message is taken any more.
    ShuttingDown,
}

/// What happened.
#[derive(Debug, Clone, Copy, PartialEq, Eq)]
pub enum ConnectionEvent {
    /// The relay starts.
    Start,
    /// The broker accepted the connection; `session_present` when it kept
    /// the subscriptions of an earlier session.
    Connected { session_present: bool },
    /// The connection or the subscription attempt failed.
    ConnectFailed,
    /// A message arrived; `uplink` when its topic carries an uplink.
    Message { uplink: bool },
    /// The message stream ended: the connection was lost.
    StreamEnded,
    /// The delay before a new attempt has passed.
    RetryDelayElapsed,
    /// Shutdown was requested.
    ShutdownRequested,
}

/// What to do next.
#[derive(Debug, Clone, Copy, PartialEq, Eq)]
pub enum ConnectionAction {
    /// Connect to the broker.
    Connect,
    /// Subscribe to the topics of `subscription_topics`.
    Subscribe,
    /// Decode and dispatch the message.
    HandleUplink,
    /// Drop the message (an activation).
    Discard,
    /// Wait this long, then report `RetryDelayElapsed`.
    RetryAfter { millis: u64 },
    /// Unsubscribe and disconnect, then stop.
    Disconnect,
    /// Stop; there is no connection to close.
    Stop,
    /// Wait for the next event.
    Nothing,
}

/// The next state and the action for an event.
pub open spec fn transition(state: ConnectionState, event: ConnectionEvent) -> (
    ConnectionState,
    ConnectionAction,
) {
    match (state, event) {
        (ConnectionState::ShuttingDown, _) => (
            ConnectionState::ShuttingDown,
            ConnectionAction::Nothing,
        ),
        (ConnectionState::Subscribed, ConnectionEvent::ShutdownRequested) => (
            ConnectionState::ShuttingDown,
            ConnectionAction::Disconnect,
        ),
        (_, ConnectionEvent::ShutdownRequested) => (
            ConnectionState::ShuttingDown,
            ConnectionAction::Stop,
        ),
        (ConnectionState::Disconnected, ConnectionEvent::Start) => (
            ConnectionState::Connecting,
            ConnectionAction::Connect,
        ),
        (ConnectionState::Connecting, ConnectionEvent::Connected { session_present }) => (
            ConnectionState::Subscribed,
            if session_present {
                ConnectionAction::Nothing
            } else {
                ConnectionAction::Subscribe
            },
        ),
        (ConnectionState::Connecting, ConnectionEvent::ConnectFailed)
        | (ConnectionState::Subscribed, ConnectionEvent::ConnectFailed)
        | (ConnectionState::Subscribed, ConnectionEvent::StreamEnded) => (
            ConnectionState::Reconnecting,
            ConnectionAction::RetryAfter { millis: RETRY_DELAY_MS },
        ),
        (ConnectionState::Subscribed, ConnectionEvent::Message { uplink }) => (
            ConnectionState::Subscribed,
            if uplink {
                ConnectionAction::HandleUplink
            } else {
                ConnectionAction::Discard
            },
        ),
        (ConnectionState::Reconnecting, ConnectionEvent::RetryDelayElapsed) => (
            ConnectionState::Connecting,
            ConnectionAction::Connect,
        ),
        _ => (state, ConnectionAction::Nothing),
    }
}

/// The connection life cycle.
#[derive(Debug)]
pub struct ConnectionManager {
    state: ConnectionState,
}

impl View for ConnectionManager {
    type V = ConnectionState;

    closed spec fn view(&self) -> ConnectionState {
        self.state
    }
}

impl ConnectionManager {
    /// A manager that has not connected yet.
    pub fn new() -> (r: ConnectionManager)
        ensures
            r@ == ConnectionState::Disconnected,
    {
        ConnectionManager { state: ConnectionState::Disconnected }
    }

    /// Where the connection stands.
    pub fn state(&self) -> (r: ConnectionState)
        ensures
            r == self@,
    {
        self.state
    }

    /// Takes an event and returns the action to perform.
    pub fn on_event(&mut self, event: ConnectionEvent) -> (r: ConnectionAction)
        ensures
            (final(self)@, r) == transition(old(self)@, event),
    {
        let (next, action) = match (self.state, event) {
            (ConnectionState::ShuttingDown, _) => (
                ConnectionState::ShuttingDown,
                ConnectionAction::Nothing,
            ),
            (ConnectionState::Subscribed, ConnectionEvent::ShutdownRequested) => (
                ConnectionState::ShuttingDown,
                ConnectionAction::Disconnect,
            ),
            (_, ConnectionEvent::ShutdownRequested) => (
                ConnectionState::ShuttingDown,
                ConnectionAction::Stop,
            ),
            (ConnectionState::Disconnected, ConnectionEvent::Start) => (
                ConnectionState::Connecting,
                ConnectionAction::Connect,
            ),
            (ConnectionState::Connecting, ConnectionEvent::Connected { session_present }) => (
                ConnectionState::Subscribed,
                if session_present {
                    ConnectionAction::Nothing
                } else {
                    ConnectionAction::Subscribe
                },
            ),
            (ConnectionState::Connecting, ConnectionEvent::ConnectFailed)
            | (ConnectionState::Subscribed, ConnectionEvent::ConnectFailed)
            | (ConnectionState::Subscribed, ConnectionEvent::StreamEnded) => (
                ConnectionState::Reconnecting,
                ConnectionAction::RetryAfter { millis: RETRY_DELAY_MS },
            ),
            (ConnectionState::Subscribed, ConnectionEvent::Message { uplink }) => (
                ConnectionState::Subscribed,
                if uplink {
                    ConnectionAction::HandleUplink
                } else {
                    ConnectionAction::Discard
                },
            ),
            (ConnectionState::Reconnecting, ConnectionEvent::RetryDelayElapsed) => (
                ConnectionState::Connecting,
                ConnectionAction::Connect,
            ),
            _ => (self.state, ConnectionAction::Nothing),
        };
        self.state = next;
        action
    }
}

/// No message, whatever it holds, ends the subscription: only the loss of
/// the stream or a shutdown request leaves the subscribed state.
pub proof fn lemma_messages_keep_subscription(uplink: bool)
    ensures
        transition(ConnectionState::Subscribed, ConnectionEvent::Message { uplink }).0
            == ConnectionState::Subscribed,
{
}

/// Every lost connection is followed by a new attempt after the delay.
pub proof fn lemma_lost_connection_is_retried()
    ensures
        transition(ConnectionState::Subscribed, ConnectionEvent::StreamEnded) == (
            ConnectionState::Reconnecting,
            ConnectionAction::RetryAfter { millis: RETRY_DELAY_MS },
        ),
        transition(ConnectionState::Reconnecting, ConnectionEvent::RetryDelayElapsed) == (
            ConnectionState::Connecting,
            ConnectionAction::Connect,
        ),
{
}

} // verus!
