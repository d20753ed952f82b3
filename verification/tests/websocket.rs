use constraint_mux::websocket::{
    base64_encodable, client_action, consonance_action, output_action, ClientEvent, FeedEvent,
    SessionAction,
};

#[test]
fn output_is_base64_encoded() {
    assert_eq!(
        output_action(FeedEvent::Item(b"hello".to_vec()), true),
        SessionAction::SendOutput("aGVsbG8=".to_string())
    );
    assert_eq!(
        output_action(FeedEvent::Item(vec![1, 2, 3]), false),
        SessionAction::SendOutput("AQID".to_string())
    );
    assert_eq!(
        output_action(FeedEvent::Item(Vec::new()), true),
        SessionAction::SendOutput(String::new())
    );
}

#[test]
fn lagged_feed_tolerated_only_by_server() {
    assert_eq!(output_action(FeedEvent::Lagged(7), true), SessionAction::WarnLagged(7));
    assert_eq!(output_action(FeedEvent::Lagged(7), false), SessionAction::Stop);
    assert_eq!(consonance_action(FeedEvent::Lagged(2), true), SessionAction::WarnLagged(2));
    assert_eq!(consonance_action(FeedEvent::Lagged(2), false), SessionAction::Stop);
}

#[test]
fn closed_feed_ends_session() {
    assert_eq!(output_action(FeedEvent::Closed, true), SessionAction::Stop);
    assert_eq!(consonance_action(FeedEvent::Closed, true), SessionAction::Stop);
    assert_eq!(consonance_action(FeedEvent::Item(()), false), SessionAction::SendEvent);
}

#[test]
fn client_close_or_end_ends_session() {
    assert_eq!(client_action(&ClientEvent::Close), SessionAction::Stop);
    assert_eq!(client_action(&ClientEvent::End), SessionAction::Stop);
    assert_eq!(
        client_action(&ClientEvent::Text("{\"type\":\"hello\"}".to_string())),
        SessionAction::Continue
    );
    assert_eq!(client_action(&ClientEvent::Other), SessionAction::Continue);
}

#[test]
fn base64_length_bound() {
    assert!(base64_encodable(0));
    assert!(base64_encodable(4096));
    assert!(base64_encodable(usize::MAX / 4 * 3));
    assert!(!base64_encodable(usize::MAX));
}
