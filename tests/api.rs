use quichat_client::api::{
    ApiVersion, GetMessagesRequest, GetMessagesResponse, RequestError, RequestType,
    ResponseStatus, SendMessageRequest, VERSION_HEADER,
};
use quichat_client::model::{Message, Timestamp};

fn message(id: u32) -> Message {
    Message {
        user_id: 1,
        channel_id: 2,
        message_id: id,
        content: format!("message {}", id),
        datetime: Timestamp { secs: 1_700_000_000, nanos: 0 },
    }
}

#[test]
fn too_many_messages_is_refused() {
    assert_eq!(GetMessagesRequest::new(3, 256, None), Err(RequestError::TooManyMessages));
    assert_eq!(GetMessagesRequest::new(3, 1000, Some(5)), Err(RequestError::TooManyMessages));
}

#[test]
fn at_most_255_messages_is_accepted() {
    let r = GetMessagesRequest::new(3, 255, Some(40)).unwrap();
    assert_eq!(r.channel_id(), 3);
    assert_eq!(r.num_messages(), 255);
    assert_eq!(r.before_message_id(), Some(40));
    let r = GetMessagesRequest::new(7, 0, None).unwrap();
    assert_eq!(r.num_messages(), 0);
    assert_eq!(r.before_message_id(), None);
}

#[test]
fn cursor_bounds_the_response() {
    let r = GetMessagesRequest::new(2, 10, Some(40)).unwrap();
    let ok = GetMessagesResponse { status: ResponseStatus::Success, messages: vec![message(1), message(39)] };
    let bad = GetMessagesResponse { status: ResponseStatus::Success, messages: vec![message(1), message(40)] };
    let empty = GetMessagesResponse { status: ResponseStatus::Success, messages: vec![] };
    assert!(r.accepts(&ok));
    assert!(!r.accepts(&bad));
    assert!(r.accepts(&empty));
    let no_cursor = GetMessagesRequest::new(2, 10, None).unwrap();
    assert!(no_cursor.accepts(&bad));
}

#[test]
fn send_request_carries_no_time() {
    let r = RequestType::SendMessage(SendMessageRequest { channel_id: 5, content: "hi".to_string() });
    match r {
        RequestType::SendMessage(s) => {
            assert_eq!(s, SendMessageRequest { channel_id: 5, content: "hi".to_string() });
        }
        _ => unreachable!(),
    }
}

#[test]
fn version_header_values() {
    assert_eq!(VERSION_HEADER, "api-version");
    assert_eq!(ApiVersion::V1.header_value(), "V1");
    assert_eq!(ApiVersion::V2.header_value(), "V2");
    assert_eq!(ApiVersion::from_header(b"V1"), Some(ApiVersion::V1));
    assert_eq!(ApiVersion::from_header(b"V2"), Some(ApiVersion::V2));
    assert_eq!(ApiVersion::from_header(b"V3"), None);
    assert_eq!(ApiVersion::from_header(b"v1"), None);
    assert_eq!(ApiVersion::from_header(b""), None);
}
