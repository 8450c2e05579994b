//! The request and response envelopes of the chat API, and its versions.
use vstd::prelude::*;

use crate::model::Message;

verus! {

/// How the server answered a request.
#[derive(Debug, Clone, PartialEq, Eq)]
pub enum ResponseStatus {
    Success,
    AuthenticationError,
    Error(String),
}

/// The answer to a `SendMessage` request: the message as the server stored it.
#[derive(Debug, Clone, PartialEq, Eq)]
pub struct SendMessageResponse {
    pub status: ResponseStatus,
    pub message: Message,
}

/// The answer to an `EditMessage` request: the message after the edit.
#[derive(Debug, Clone, PartialEq, Eq)]
pub struct EditMessageResponse {
    pub status: ResponseStatus,
    pub message: Message,
}

/// The answer to a `DeleteMessage` request.
#[derive(Debug, Clone, PartialEq, Eq)]
pub struct DeleteMessageResponse {
    pub status: ResponseStatus,
}

/// The answer to a `GetMessages` request. The server may return fewer
/// messages than were asked for.
#[derive(Debug, Clone, PartialEq, Eq)]
pub struct GetMessagesResponse {
    pub status: ResponseStatus,
    pub messages: Vec<Message>,
}

/// Every response the server sends.
#[derive(Debug, Clone, PartialEq, Eq)]
pub enum ResponseTypes {
    SendMessage(SendMessageResponse),
    EditMessage(EditMessageResponse),
    DeleteMessage(DeleteMessageResponse),
    GetMessages(GetMessagesResponse),
    Ping,
}

/// The name the first version of the API gave to the response envelope.
pub type ApiResponseType = ResponseTypes;

/// Asks the server to post a message. It carries no time: the server stamps
/// the message when it receives it.
#[derive(Debug, Clone, PartialEq, Eq)]
pub struct SendMessageRequest {
    pub channel_id: u32,
    pub content: String,
}

/// Asks the server to replace the content of a message.
#[derive(Debug, Clone, PartialEq, Eq)]
pub struct EditMessageRequest {
    pub message_id: u32,
    pub content: String,
}

/// Asks the server to delete a message.
#[derive(Debug, Clone, PartialEq, Eq, Structural)]
pub struct DeleteMessageRequest {
    pub message_id: u32,
}

/// The largest number of messages that one `GetMessages` request may ask for.
pub const MAX_MESSAGES_PER_REQUEST: u32 = 255;

/// Why a request could not be built.
#[derive(Debug, Clone, Copy, PartialEq, Eq, Structural)]
pub enum RequestError {
    /// More than `MAX_MESSAGES_PER_REQUEST` messages were asked for.
    TooManyMessages,
}

/// Asks the server for up to `num_messages` messages of a channel, optionally
/// only those older than the message `before_message_id`.
#[derive(Debug, Clone, PartialEq, Eq, Structural)]
pub struct GetMessagesRequest {
    channel_id: u32,
    num_messages: u8,
    before_message_id: Option<u32>,
}

/// Whether every message of `ms` lies strictly before the cursor, if any.
pub open spec fn within_cursor(cursor: Option<u32>, ms: Seq<Message>) -> bool {
    forall|i: int| #![trigger ms[i]] 0 <= i < ms.len() && cursor is Some ==> ms[i].message_id < cursor->0
}

impl View for GetMessagesRequest {
    /// The channel, the number of messages, the cursor.
    type V = (u32, u8, Option<u32>);

    closed spec fn view(&self) -> (u32, u8, Option<u32>) {
        (self.channel_id, self.num_messages, self.before_message_id)
    }
}

impl GetMessagesRequest {
    /// A request for `num_messages` messages of `channel_id`; refused when it
    /// asks for more than `MAX_MESSAGES_PER_REQUEST`.
    pub fn new(channel_id: u32, num_messages: u32, before_message_id: Option<u32>) -> (r: Result<
        GetMessagesRequest,
        RequestError,
    >)
        ensures
            num_messages <= MAX_MESSAGES_PER_REQUEST <==> r is Ok,
            num_messages <= MAX_MESSAGES_PER_REQUEST ==> r->Ok_0@ == (
                channel_id,
                num_messages as u8,
                before_message_id,
            ),
            num_messages > MAX_MESSAGES_PER_REQUEST ==> r == Err::<GetMessagesRequest, RequestError>(
                RequestError::TooManyMessages,
            ),
    {
        if num_messages > MAX_MESSAGES_PER_REQUEST {
            Err(RequestError::TooManyMessages)
        } else {
            Ok(GetMessagesRequest { channel_id, num_messages: num_messages as u8, before_message_id })
        }
    }

    pub fn channel_id(&self) -> (r: u32)
        ensures
            r == self@.0,
    {
        self.channel_id
    }

    pub fn num_messages(&self) -> (r: u8)
        ensures
            r == self@.1,
    {
        self.num_messages
    }

    pub fn before_message_id(&self) -> (r: Option<u32>)
        ensures
            r == self@.2,
    {
        self.before_message_id
    }

    /// Whether `response` keeps to this request's cursor: with a cursor, every
    /// message returned must be older than it.
    pub fn accepts(&self, response: &GetMessagesResponse) -> (r: bool)
        ensures
            r == within_cursor(self@.2, response.messages@),
    {
        match self.before_message_id {
            None => true,
            Some(cursor) => {
                let mut i: usize = 0;
                while i < response.messages.len()
                    invariant
                        i <= response.messages@.len(),
                        self@.2 == Some(cursor),
                        forall|k: int|
                            #![trigger response.messages@[k]]
                            0 <= k < i ==> response.messages@[k].message_id < cursor,
                    decreases response.messages@.len() - i,
                {
                    if response.messages[i].message_id >= cursor {
                        assert(response.messages@[i as int].message_id >= cursor);
                        return false;
                    }
                    i = i + 1;
                }
                true
            },
        }
    }
}

/// Every request the client may send.
#[derive(Debug, Clone, PartialEq, Eq)]
pub enum RequestType {
    SendMessage(SendMessageRequest),
    EditMessage(EditMessageRequest),
    DeleteMessage(DeleteMessageRequest),
    GetMessages(GetMessagesRequest),
    Ping,
}

/// The name the first version of the API gave to the request envelope.
pub type ApiRequestType = RequestType;

/// The versions of the API. One is chosen when the session is opened and
/// holds for the whole session.
#[derive(Debug, Clone, Copy, PartialEq, Eq, Structural)]
pub enum ApiVersion {
    V1,
    V2,
}

/// The name of the connection header that states the API version.
pub const VERSION_HEADER: &'static str = "api-version";

/// The text of the version header for `v`.
pub open spec fn header_text(v: ApiVersion) -> Seq<char> {
    match v {
        ApiVersion::V1 => seq!['V', '1'],
        ApiVersion::V2 => seq!['V', '2'],
    }
}

/// The bytes of the version header for `v`.
pub open spec fn header_bytes(v: ApiVersion) -> Seq<u8> {
    match v {
        ApiVersion::V1 => seq![86u8, 49u8],
        ApiVersion::V2 => seq![86u8, 50u8],
    }
}

impl ApiVersion {
    /// The value of the version header that asks for this version.
    pub fn header_value(self) -> (r: &'static str)
        ensures
            r@ == header_text(self),
    {
        match self {
            ApiVersion::V1 => {
                proof {
                    reveal_strlit("V1");
                }
                "V1"
            },
            ApiVersion::V2 => {
                proof {
                    reveal_strlit("V2");
                }
                "V2"
            },
        }
    }

    /// The version that a header value names, if any.
    pub fn from_header(value: &[u8]) -> (r: Option<ApiVersion>)
        ensures
            r matches Some(v) ==> value@ == header_bytes(v),
            r is None ==> value@ != header_bytes(ApiVersion::V1) && value@ != header_bytes(
                ApiVersion::V2,
            ),
    {
        if value.len() != 2 || value[0] != 86u8 {
            None
        } else if value[1] == 49u8 {
            assert(value@ =~= header_bytes(ApiVersion::V1));
            Some(ApiVersion::V1)
        } else if value[1] == 50u8 {
            assert(value@ =~= header_bytes(ApiVersion::V2));
            Some(ApiVersion::V2)
        } else {
            None
        }
    }
}

} // verus!
