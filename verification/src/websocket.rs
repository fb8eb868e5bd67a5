//! The legacy JSON WebSocket: IP and swap events, and the per-connection
//! subscription protocol, as a state machine the socket loop drives.
use vstd::prelude::*;

use crate::text::same_text;

verus! {

/// An IP event.
#[derive(Debug, Clone)]
pub struct IpEvent {
    pub event_type: String,
    pub ip_id: u64,
    pub owner: String,
    pub timestamp: u64,
}

/// A swap event.
#[derive(Debug, Clone)]
pub struct SwapEvent {
    pub event_type: String,
    pub swap_id: u64,
    pub seller: String,
    pub buyer: String,
    pub timestamp: u64,
}

/// Either kind of event.
#[derive(Debug, Clone)]
pub enum Event {
    IpEvent(IpEvent),
    SwapEvent(SwapEvent),
}

/// A client's message: `action` is one of `subscribe_ip_events`,
/// `subscribe_swap_events`, `unsubscribe_ip_events`, `unsubscribe_swap_events`.
#[derive(Debug, Clone)]
pub struct SubscriptionMessage {
    pub action: String,
    pub subscription_type: Option<String>,
}

/// What a connection is subscribed to.
#[derive(Debug, Clone, Copy, PartialEq, Eq, Structural)]
pub struct SocketState {
    pub subscribed_ip: bool,
    pub subscribed_swap: bool,
}

/// What happened on a connection.
#[derive(Debug, Clone)]
pub enum SocketInput {
    /// A text frame, and the subscription message it parses to, if any.
    Text(Option<SubscriptionMessage>),
    /// The client closed the connection.
    Close,
    /// Reading from the client failed.
    ReceiveError,
    /// The client's stream ended.
    Ended,
    /// Any other frame.
    OtherFrame,
    /// An IP event arrived from the broadcaster.
    IpEventArrived,
    /// A swap event arrived from the broadcaster.
    SwapEventArrived,
    /// A broadcaster reported an error (such as missed events).
    ChannelError,
}

/// What the connection does next.
#[derive(Debug, Clone, Copy, PartialEq, Eq, Structural)]
pub enum SocketAction {
    /// Send the IP subscription confirmation.
    ConfirmIpSubscription,
    /// Send the swap subscription confirmation.
    ConfirmSwapSubscription,
    /// Send the event that arrived, as JSON.
    ForwardEvent,
    /// Close the connection.
    Stop,
    /// Do nothing.
    Nothing,
}

/// A connection starts with no subscription.
pub fn initial_socket_state() -> (s: SocketState)
    ensures
        !s.subscribed_ip,
        !s.subscribed_swap,
{
    SocketState { subscribed_ip: false, subscribed_swap: false }
}

/// The effect of a client command on the state.
pub open spec fn command_step(state: SocketState, action: Seq<char>) -> (SocketState, SocketAction) {
    if action == "subscribe_ip_events"@ {
        (SocketState { subscribed_ip: true, ..state }, SocketAction::ConfirmIpSubscription)
    } else if action == "subscribe_swap_events"@ {
        (SocketState { subscribed_swap: true, ..state }, SocketAction::ConfirmSwapSubscription)
    } else if action == "unsubscribe_ip_events"@ {
        (SocketState { subscribed_ip: false, ..state }, SocketAction::Nothing)
    } else if action == "unsubscribe_swap_events"@ {
        (SocketState { subscribed_swap: false, ..state }, SocketAction::Nothing)
    } else {
        (state, SocketAction::Nothing)
    }
}

/// The next state and action of a connection.
pub open spec fn socket_transition(state: SocketState, input: SocketInput) -> (SocketState, SocketAction) {
    match input {
        SocketInput::Text(Some(message)) => command_step(state, message.action@),
        SocketInput::Text(None) => (state, SocketAction::Nothing),
        SocketInput::Close => (state, SocketAction::Stop),
        SocketInput::ReceiveError => (state, SocketAction::Stop),
        SocketInput::Ended => (state, SocketAction::Stop),
        SocketInput::OtherFrame => (state, SocketAction::Nothing),
        SocketInput::IpEventArrived => (
            state,
            if state.subscribed_ip {
                SocketAction::ForwardEvent
            } else {
                SocketAction::Nothing
            },
        ),
        SocketInput::SwapEventArrived => (
            state,
            if state.subscribed_swap {
                SocketAction::ForwardEvent
            } else {
                SocketAction::Nothing
            },
        ),
        SocketInput::ChannelError => (state, SocketAction::Nothing),
    }
}

/// Decides what a connection does with `input`.
pub fn socket_step(state: SocketState, input: &SocketInput) -> (r: (SocketState, SocketAction))
    ensures
        r == socket_transition(state, *input),
{
    match input {
        SocketInput::Text(Some(message)) => {
            let action = message.action.as_str();
            if same_text(action, "subscribe_ip_events") {
                (SocketState { subscribed_ip: true, ..state }, SocketAction::ConfirmIpSubscription)
            } else if same_text(action, "subscribe_swap_events") {
                (
                    SocketState { subscribed_swap: true, ..state },
                    SocketAction::ConfirmSwapSubscription,
                )
            } else if same_text(action, "unsubscribe_ip_events") {
                (SocketState { subscribed_ip: false, ..state }, SocketAction::Nothing)
            } else if same_text(action, "unsubscribe_swap_events") {
                (SocketState { subscribed_swap: false, ..state }, SocketAction::Nothing)
            } else {
                (state, SocketAction::Nothing)
            }
        },
        SocketInput::Text(None) => (state, SocketAction::Nothing),
        SocketInput::Close => (state, SocketAction::Stop),
        SocketInput::ReceiveError => (state, SocketAction::Stop),
        SocketInput::Ended => (state, SocketAction::Stop),
        SocketInput::OtherFrame => (state, SocketAction::Nothing),
        SocketInput::IpEventArrived => (
            state,
            if state.subscribed_ip {
                SocketAction::ForwardEvent
            } else {
                SocketAction::Nothing
            },
        ),
        SocketInput::SwapEventArrived => (
            state,
            if state.subscribed_swap {
                SocketAction::ForwardEvent
            } else {
                SocketAction::Nothing
            },
        ),
        SocketInput::ChannelError => (state, SocketAction::Nothing),
    }
}

/// The text that confirms a subscription, for the two confirmation actions.
pub fn confirmation_text(action: SocketAction) -> (r: Option<&'static str>)
    ensures
        r == match action {
            SocketAction::ConfirmIpSubscription => Some(
                "{\"status\":\"subscribed\",\"type\":\"ip_events\"}",
            ),
            SocketAction::ConfirmSwapSubscription => Some(
                "{\"status\":\"subscribed\",\"type\":\"swap_events\"}",
            ),
            _ => None::<&'static str>,
        },
{
    match action {
        SocketAction::ConfirmIpSubscription => Some("{\"status\":\"subscribed\",\"type\":\"ip_events\"}"),
        SocketAction::ConfirmSwapSubscription => Some(
            "{\"status\":\"subscribed\",\"type\":\"swap_events\"}",
        ),
        _ => None,
    }
}

/// The connection stops exactly on a close, a read error or the end of the
/// client's stream, and an event is forwarded only to a subscribed connection.
pub proof fn lemma_socket_stops_and_forwards(state: SocketState, input: SocketInput)
    ensures
        (socket_transition(state, input).1 == SocketAction::Stop) <==> (input is Close
            || input is ReceiveError || input is Ended),
        socket_transition(state, input).1 == SocketAction::ForwardEvent ==> (input is IpEventArrived
            && state.subscribed_ip) || (input is SwapEventArrived && state.subscribed_swap),
{
}

/// An arriving event is forwarded exactly when the connection is subscribed to
/// its kind, and never changes what the connection is subscribed to; after a
/// client subscribes to a kind, every event of that kind is forwarded to it
/// (and the subscription is confirmed), after it unsubscribes none is, and
/// neither command touches the other kind's subscription.
pub proof fn lemma_events_forwarded_exactly_when_subscribed(state: SocketState)
    ensures
        (socket_transition(state, SocketInput::IpEventArrived).1 == SocketAction::ForwardEvent)
            <==> state.subscribed_ip,
        (socket_transition(state, SocketInput::SwapEventArrived).1 == SocketAction::ForwardEvent)
            <==> state.subscribed_swap,
        socket_transition(state, SocketInput::IpEventArrived).0 == state,
        socket_transition(state, SocketInput::SwapEventArrived).0 == state,
        socket_transition(command_step(state, "subscribe_ip_events"@).0, SocketInput::IpEventArrived).1
            == SocketAction::ForwardEvent,
        socket_transition(
            command_step(state, "subscribe_swap_events"@).0,
            SocketInput::SwapEventArrived,
        ).1 == SocketAction::ForwardEvent,
        socket_transition(
            command_step(state, "unsubscribe_swap_events"@).0,
            SocketInput::SwapEventArrived,
        ).1 == SocketAction::Nothing,
        socket_transition(
            command_step(state, "unsubscribe_ip_events"@).0,
            SocketInput::IpEventArrived,
        ).1 == SocketAction::Nothing,
        command_step(state, "subscribe_ip_events"@).1 == SocketAction::ConfirmIpSubscription,
        command_step(state, "subscribe_swap_events"@).1 == SocketAction::ConfirmSwapSubscription,
        command_step(state, "subscribe_ip_events"@).0.subscribed_swap == state.subscribed_swap,
        command_step(state, "subscribe_swap_events"@).0.subscribed_ip == state.subscribed_ip,
        command_step(state, "unsubscribe_ip_events"@).0.subscribed_swap == state.subscribed_swap,
        command_step(state, "unsubscribe_swap_events"@).0.subscribed_ip == state.subscribed_ip,
{
    reveal_strlit("subscribe_ip_events");
    reveal_strlit("subscribe_swap_events");
    reveal_strlit("unsubscribe_ip_events");
    reveal_strlit("unsubscribe_swap_events");
    assert("subscribe_swap_events"@ != "subscribe_ip_events"@) by {
        assert("subscribe_swap_events"@[10] != "subscribe_ip_events"@[10]);
    }
    assert("unsubscribe_swap_events"@ != "subscribe_ip_events"@) by {
        assert("unsubscribe_swap_events"@.len() != "subscribe_ip_events"@.len());
    }
    assert("unsubscribe_swap_events"@ != "subscribe_swap_events"@) by {
        assert("unsubscribe_swap_events"@.len() != "subscribe_swap_events"@.len());
    }
    assert("unsubscribe_swap_events"@ != "unsubscribe_ip_events"@) by {
        assert("unsubscribe_swap_events"@.len() != "unsubscribe_ip_events"@.len());
    }
    assert("unsubscribe_ip_events"@ != "subscribe_ip_events"@) by {
        assert("unsubscribe_ip_events"@.len() != "subscribe_ip_events"@.len());
    }
    assert("unsubscribe_ip_events"@ != "subscribe_swap_events"@) by {
        assert("unsubscribe_ip_events"@[0] != "subscribe_swap_events"@[0]);
    }
}

/// Subscribing and then unsubscribing from IP events restores the IP flag and
/// leaves the swap flag as it was.
pub proof fn lemma_unsubscribe_undoes_subscribe(state: SocketState)
    ensures
        ({
            let subscribed = command_step(state, "subscribe_ip_events"@).0;
            let unsubscribed = command_step(subscribed, "unsubscribe_ip_events"@).0;
            &&& subscribed.subscribed_ip
            &&& !unsubscribed.subscribed_ip
            &&& unsubscribed.subscribed_swap == state.subscribed_swap
        }),
{
    reveal_strlit("subscribe_ip_events");
    reveal_strlit("subscribe_swap_events");
    reveal_strlit("unsubscribe_ip_events");
    assert("unsubscribe_ip_events"@ != "subscribe_ip_events"@) by {
        assert("unsubscribe_ip_events"@.len() != "subscribe_ip_events"@.len());
    }
    assert("unsubscribe_ip_events"@ != "subscribe_swap_events"@) by {
        assert("unsubscribe_ip_events"@[0] != "subscribe_swap_events"@[0]);
    }
}

} // verus!
