use eventsub_registry::wire::{subscribe_request_body, subscriptions_url};

#[test]
fn create_request_body_has_the_documented_shape() {
    let body = subscribe_request_body(
        "channel.follow",
        "AgoQgbd8-1",
        "{\"broadcaster_user_id\":\"1337\"}",
    );
    assert_eq!(
        body,
        "{\"type\":\"channel.follow\",\"version\":\"1\",\"condition\":{\"broadcaster_user_id\":\"1337\"},\"transport\":{\"method\":\"websocket\",\"session_id\":\"AgoQgbd8-1\"}}"
    );
}

#[test]
fn event_type_and_session_id_are_json_escaped() {
    let body = subscribe_request_body("a\"b\\c", "s\u{1}d", "null");
    assert_eq!(
        body,
        "{\"type\":\"a\\\"b\\\\c\",\"version\":\"1\",\"condition\":null,\"transport\":{\"method\":\"websocket\",\"session_id\":\"s\\u0001d\"}}"
    );
}

#[test]
fn control_characters_use_two_hex_digits() {
    let body = subscribe_request_body("a\u{1f}b", "s", "null");
    assert!(body.contains("a\\u001fb"));
}

#[test]
fn endpoint_is_the_subscriptions_url() {
    assert_eq!(
        subscriptions_url(),
        "https://api.twitch.tv/helix/eventsub/subscriptions"
    );
}
