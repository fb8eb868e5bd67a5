use api_server::websocket::{
    confirmation_text, initial_socket_state, socket_step, SocketAction, SocketInput,
    SubscriptionMessage,
};

fn command(action: &str) -> SocketInput {
    SocketInput::Text(Some(SubscriptionMessage { action: action.to_string(), subscription_type: None }))
}

#[test]
fn subscription_protocol() {
    let s = initial_socket_state();
    let (s, a) = socket_step(s, &SocketInput::IpEventArrived);
    assert_eq!(a, SocketAction::Nothing);
    let (s, a) = socket_step(s, &command("subscribe_ip_events"));
    assert_eq!(a, SocketAction::ConfirmIpSubscription);
    assert_eq!(confirmation_text(a), Some("{\"status\":\"subscribed\",\"type\":\"ip_events\"}"));
    assert!(s.subscribed_ip && !s.subscribed_swap);
    let (s, a) = socket_step(s, &SocketInput::IpEventArrived);
    assert_eq!(a, SocketAction::ForwardEvent);
    let (s, a) = socket_step(s, &SocketInput::SwapEventArrived);
    assert_eq!(a, SocketAction::Nothing);
    let (s, a) = socket_step(s, &command("subscribe_swap_events"));
    assert_eq!(confirmation_text(a), Some("{\"status\":\"subscribed\",\"type\":\"swap_events\"}"));
    let (s, _) = socket_step(s, &command("unsubscribe_ip_events"));
    assert!(!s.subscribed_ip && s.subscribed_swap);
    let (s, a) = socket_step(s, &command("bogus"));
    assert_eq!(a, SocketAction::Nothing);
    let (s, a) = socket_step(s, &SocketInput::Text(None));
    assert_eq!(a, SocketAction::Nothing);
    let (s, _) = socket_step(s, &command("unsubscribe_swap_events"));
    assert!(!s.subscribed_swap);
    for input in [SocketInput::Close, SocketInput::ReceiveError, SocketInput::Ended] {
        assert_eq!(socket_step(s, &input).1, SocketAction::Stop);
    }
    assert_eq!(socket_step(s, &SocketInput::OtherFrame).1, SocketAction::Nothing);
    assert_eq!(socket_step(s, &SocketInput::ChannelError).1, SocketAction::Nothing);
    assert_eq!(confirmation_text(SocketAction::Stop), None);
}
