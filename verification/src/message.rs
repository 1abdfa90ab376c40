//! The JSON-RPC 2.0 messages and how they are written as JSON.
//!
//! Each message type has a view (`RequestValue` for `Request`, and so on)
//! that holds the same fields as sequences and JSON values. The mapping to
//! and from JSON is stated on the views, as spec functions, and the
//! executable functions are proved to compute it.
//!
//! On the wire a request is an object with `jsonrpc`, `method`, `id` and,
//! where it has any, `params`. A notification is the same without `id`. A
//! response has `id` and either `result` or `error`, never both, and an error
//! has `code`, `message` and, where it has any, `data`. A batch is an array of
//! these.

use crate::json::{
    emit_string, items_view, json_parse, json_text, lemma_array_view, lemma_object_view, lookup,
    members_view, option_ref_view, option_view, parse, Json, JsonNumber, JsonValue, ParseFailure,
};
use vstd::string::StringSliceAdditionalSpecFns;
use vstd::prelude::*;

verus! {

/// The code of the reply to a line that is not JSON.
pub const PARSE_ERROR: i64 = -32700;

/// The code of the reply to JSON that is no message.
pub const INVALID_REQUEST: i64 = -32600;

/// The code of the reply to a request that no server takes.
pub const METHOD_NOT_FOUND: i64 = -32601;

/// The code by which a server refuses the parameters of a call.
pub const INVALID_PARAMS: i64 = -32602;

/// The code by which a server reports a failure of its own.
pub const INTERNAL_ERROR: i64 = -32603;

/// The protocol version. It is written as the string `"2.0"` and is read
/// from that string only.
#[derive(Debug, Clone, Copy, PartialEq, Eq)]
pub struct Version;

impl Version {
    /// The JSON that stands for the version.
    pub open spec fn json() -> JsonValue {
        JsonValue::String("2.0"@)
    }

    /// Writes the version.
    pub fn serialize(&self) -> (json: Json)
        ensures
            json@ == Version::json(),
    {
        Json::String("2.0".to_owned())
    }

    /// Reads the version: `Some` for the string `"2.0"`, `None` for every
    /// other value.
    pub fn deserialize(json: &Json) -> (r: Option<Version>)
        ensures
            r is Some <==> json@ == Version::json(),
    {
        match json {
            Json::String(text) => {
                let expected = "2.0".to_owned();
                if *text == expected {
                    Some(Version)
                } else {
                    None
                }
            },
            _ => None,
        }
    }
}

/// A call that expects exactly one response, which carries the same `id`.
#[derive(Debug, PartialEq)]
pub struct Request {
    pub jsonrpc: Version,
    pub method: String,
    pub params: Option<Json>,
    pub id: Json,
}

/// The value of a [`Request`].
pub struct RequestValue {
    pub method: Seq<char>,
    pub params: Option<JsonValue>,
    pub id: JsonValue,
}

impl View for Request {
    type V = RequestValue;

    open spec fn view(&self) -> RequestValue {
        RequestValue { method: self.method@, params: option_view(self.params), id: self.id@ }
    }
}

/// A call that expects no response.
#[derive(Debug, PartialEq)]
pub struct Notification {
    pub jsonrpc: Version,
    pub method: String,
    pub params: Option<Json>,
}

/// The value of a [`Notification`].
pub struct NotificationValue {
    pub method: Seq<char>,
    pub params: Option<JsonValue>,
}

impl View for Notification {
    type V = NotificationValue;

    open spec fn view(&self) -> NotificationValue {
        NotificationValue { method: self.method@, params: option_view(self.params) }
    }
}

/// Why a call failed.
#[derive(Debug, PartialEq)]
pub struct RPCError {
    pub code: i64,
    pub message: String,
    pub data: Option<Json>,
}

/// The value of an [`RPCError`].
pub struct RPCErrorValue {
    pub code: i64,
    pub message: Seq<char>,
    pub data: Option<JsonValue>,
}

impl View for RPCError {
    type V = RPCErrorValue;

    open spec fn view(&self) -> RPCErrorValue {
        RPCErrorValue { code: self.code, message: self.message@, data: option_view(self.data) }
    }
}

/// The answer to a request: what the call returned, or why it failed.
#[derive(Debug, PartialEq)]
pub struct Response {
    pub result: Result<Json, RPCError>,
    pub id: Json,
}

/// The value of a [`Response`].
pub struct ResponseValue {
    pub result: Result<JsonValue, RPCErrorValue>,
    pub id: JsonValue,
}

/// The value of the outcome that a response carries.
pub open spec fn outcome_view(result: Result<Json, RPCError>) -> Result<JsonValue, RPCErrorValue> {
    match result {
        Ok(value) => Ok(value@),
        Err(error) => Err(error@),
    }
}

impl View for Response {
    type V = ResponseValue;

    open spec fn view(&self) -> ResponseValue {
        ResponseValue { result: outcome_view(self.result), id: self.id@ }
    }
}

/// Whatever can arrive in one record, or be sent as one.
#[derive(Debug, PartialEq)]
pub enum Message {
    Request(Request),
    Response(Response),
    Notification(Notification),
    /// Several messages that are handled, and answered, together.
    Batch(Vec<Message>),
    /// JSON that is none of the above, kept as it came.
    Unmatched(Json),
    /// The mark of a record that was not JSON at all. It has no wire form.
    SyntaxError,
}

/// The value of a [`Message`].
pub enum MessageValue {
    Request(RequestValue),
    Response(ResponseValue),
    Notification(NotificationValue),
    Batch(Seq<MessageValue>),
    Unmatched(JsonValue),
    SyntaxError,
}

/// The value of `message`.
pub open spec fn message_view(message: Message) -> MessageValue
    decreases message, 0nat,
{
    match message {
        Message::Request(request) => MessageValue::Request(request@),
        Message::Response(response) => MessageValue::Response(response@),
        Message::Notification(notification) => MessageValue::Notification(notification@),
        Message::Batch(members) => MessageValue::Batch(messages_prefix(members@, members@.len())),
        Message::Unmatched(json) => MessageValue::Unmatched(json@),
        Message::SyntaxError => MessageValue::SyntaxError,
    }
}

/// The values of the first `n` of `messages`.
pub open spec fn messages_prefix(messages: Seq<Message>, n: nat) -> Seq<MessageValue>
    decreases messages, n,
{
    if n == 0 || n > messages.len() {
        Seq::empty()
    } else {
        messages_prefix(messages, (n - 1) as nat).push(message_view(messages[n - 1]))
    }
}

impl View for Message {
    type V = MessageValue;

    open spec fn view(&self) -> MessageValue {
        message_view(*self)
    }
}

/// The values of some messages, in their order.
pub open spec fn messages_view(messages: Seq<Message>) -> Seq<MessageValue> {
    Seq::new(messages.len(), |i: int| messages[i]@)
}

/// The value of a message that may be absent.
pub open spec fn reply_view(message: Option<Message>) -> Option<MessageValue> {
    match message {
        Some(m) => Some(m@),
        None => None,
    }
}

proof fn lemma_messages_prefix(messages: Seq<Message>, n: nat)
    requires
        n <= messages.len(),
    ensures
        messages_prefix(messages, n) == messages_view(messages.take(n as int)),
    decreases n,
{
    if n > 0 {
        lemma_messages_prefix(messages, (n - 1) as nat);
        assert(messages.take(n as int).drop_last() =~= messages.take(n - 1));
    }
    assert(messages_prefix(messages, n) =~= messages_view(messages.take(n as int)));
}

/// A batch's view is the view of its members, one by one.
pub proof fn lemma_batch_view(members: Vec<Message>)
    ensures
        Message::Batch(members)@ == MessageValue::Batch(messages_view(members@)),
{
    lemma_messages_prefix(members@, members@.len());
    assert(members@.take(members@.len() as int) =~= members@);
}

impl Clone for Message {
    /// A copy with the same value.
    fn clone(&self) -> (copy: Message)
        ensures
            copy@ == self@,
        decreases self,
    {
        match self {
            Message::Request(request) => Message::Request(request.clone()),
            Message::Response(response) => Message::Response(response.clone()),
            Message::Notification(notification) => Message::Notification(notification.clone()),
            Message::Batch(members) => {
                let mut copy: Vec<Message> = Vec::new();
                let mut i: usize = 0;
                while i < members.len()
                    invariant
                        *self == Message::Batch(*members),
                        i <= members@.len(),
                        copy@.len() == i,
                        forall|j: int| 0 <= j < i ==> copy@[j]@ == members@[j]@,
                    decreases members@.len() - i,
                {
                    assert(decreases_to!(*self => self->Batch_0));
                    assert(decreases_to!(*members => members[i as int]));
                    copy.push(members[i].clone());
                    i += 1;
                }
                proof {
                    lemma_batch_view(copy);
                    lemma_batch_view(*members);
                    assert(messages_view(copy@) =~= messages_view(members@));
                }
                Message::Batch(copy)
            },
            Message::Unmatched(json) => Message::Unmatched(json.clone()),
            Message::SyntaxError => Message::SyntaxError,
        }
    }
}

/// A copy of a JSON value that may be absent.
fn copy_option(json: &Option<Json>) -> (copy: Option<Json>)
    ensures
        option_view(copy) == option_view(*json),
{
    match json {
        Some(value) => Some(value.clone()),
        None => None,
    }
}

impl Clone for Request {
    /// A copy with the same value.
    fn clone(&self) -> (copy: Request)
        ensures
            copy@ == self@,
    {
        Request {
            jsonrpc: Version,
            method: self.method.clone(),
            params: copy_option(&self.params),
            id: self.id.clone(),
        }
    }
}

impl Clone for Notification {
    /// A copy with the same value.
    fn clone(&self) -> (copy: Notification)
        ensures
            copy@ == self@,
    {
        Notification {
            jsonrpc: Version,
            method: self.method.clone(),
            params: copy_option(&self.params),
        }
    }
}

impl Clone for RPCError {
    /// A copy with the same value.
    fn clone(&self) -> (copy: RPCError)
        ensures
            copy@ == self@,
    {
        RPCError {
            code: self.code,
            message: self.message.clone(),
            data: copy_option(&self.data),
        }
    }
}

impl Clone for Response {
    /// A copy with the same value.
    fn clone(&self) -> (copy: Response)
        ensures
            copy@ == self@,
    {
        let result = match &self.result {
            Ok(value) => Ok(value.clone()),
            Err(error) => Err(error.clone()),
        };
        Response { result, id: self.id.clone() }
    }
}

/// The members of an object with one more that is written only where
/// there is a value for it.
pub open spec fn with_optional(
    members: Seq<(Seq<char>, JsonValue)>,
    name: Seq<char>,
    value: Option<JsonValue>,
) -> Seq<(Seq<char>, JsonValue)> {
    match value {
        Some(v) => members.push((name, v)),
        None => members,
    }
}

/// What a reader makes of an optional member: one that is missing and one
/// that is `null` both stand for no value.
pub open spec fn optional_value(member: Option<JsonValue>) -> Option<JsonValue> {
    match member {
        Some(JsonValue::Null) => None,
        other => other,
    }
}

/// Reads an optional member.
fn optional(member: Option<&Json>) -> (r: Option<Json>)
    ensures
        option_view(r) == optional_value(option_ref_view(member)),
{
    match member {
        Some(value) => {
            if value.is_null() {
                None
            } else {
                Some(value.clone())
            }
        },
        None => None,
    }
}

impl RequestValue {
    /// The object that a request is written as.
    pub open spec fn json(self) -> JsonValue {
        JsonValue::Object(
            with_optional(
                seq![("jsonrpc"@, Version::json()), ("method"@, JsonValue::String(self.method))],
                "params"@,
                self.params,
            ).push(("id"@, self.id)),
        )
    }

    /// The request that `json` is, if it is one: an object whose `jsonrpc` is
    /// the version, whose `method` is a string, and whose `id` is there and
    /// is neither array nor object.
    pub open spec fn read(json: JsonValue) -> Option<RequestValue> {
        match (json.member("jsonrpc"@), json.member("method"@), json.member("id"@)) {
            (Some(version), Some(JsonValue::String(method)), Some(id)) => {
                if version == Version::json() && id.is_scalar() {
                    Some(
                        RequestValue {
                            method,
                            params: optional_value(json.member("params"@)),
                            id,
                        },
                    )
                } else {
                    None
                }
            },
            _ => None,
        }
    }
}

impl NotificationValue {
    /// The object that a notification is written as.
    pub open spec fn json(self) -> JsonValue {
        JsonValue::Object(
            with_optional(
                seq![("jsonrpc"@, Version::json()), ("method"@, JsonValue::String(self.method))],
                "params"@,
                self.params,
            ),
        )
    }

    /// The notification that `json` is, if it is one: an object whose
    /// `jsonrpc` is the version and whose `method` is a string.
    pub open spec fn read(json: JsonValue) -> Option<NotificationValue> {
        match (json.member("jsonrpc"@), json.member("method"@)) {
            (Some(version), Some(JsonValue::String(method))) => {
                if version == Version::json() {
                    Some(
                        NotificationValue {
                            method,
                            params: optional_value(json.member("params"@)),
                        },
                    )
                } else {
                    None
                }
            },
            _ => None,
        }
    }
}

impl RPCErrorValue {
    /// The object that an error is written as.
    pub open spec fn json(self) -> JsonValue {
        JsonValue::Object(
            with_optional(
                seq![
                    ("code"@, JsonValue::Number(JsonNumber::integer(self.code))),
                    ("message"@, JsonValue::String(self.message)),
                ],
                "data"@,
                self.data,
            ),
        )
    }

    /// The error that `json` is, if it is one: an object whose `code` is an
    /// integer of 64 bits and whose `message` is a string.
    pub open spec fn read(json: JsonValue) -> Option<RPCErrorValue> {
        match (json.member("code"@), json.member("message"@)) {
            (Some(JsonValue::Number(number)), Some(JsonValue::String(message))) => {
                match number.spec_i64() {
                    Some(code) => Some(
                        RPCErrorValue {
                            code,
                            message,
                            data: optional_value(json.member("data"@)),
                        },
                    ),
                    None => None,
                }
            },
            _ => None,
        }
    }
}

impl ResponseValue {
    /// The object that a response is written as: `id`, then `result` or
    /// `error`.
    pub open spec fn json(self) -> JsonValue {
        JsonValue::Object(
            seq![
                ("id"@, self.id),
                match self.result {
                    Ok(value) => ("result"@, value),
                    Err(error) => ("error"@, error.json()),
                },
            ],
        )
    }

    /// The response that `json` is, if it is one: an object with an `id` and
    /// with exactly one of `result` and `error`, the latter an error.
    pub open spec fn read(json: JsonValue) -> Option<ResponseValue> {
        match (json.member("id"@), json.member("result"@), json.member("error"@)) {
            (Some(id), Some(value), None) => Some(ResponseValue { result: Ok(value), id }),
            (Some(id), None, Some(error)) => match RPCErrorValue::read(error) {
                Some(e) => Some(ResponseValue { result: Err(e), id }),
                None => None,
            },
            _ => None,
        }
    }
}

impl Request {
    /// Writes the request as JSON.
    pub fn serialize(&self) -> (json: Json)
        ensures
            json@ == self@.json(),
    {
        let mut members: Vec<(String, Json)> = Vec::new();
        members.push(("jsonrpc".to_owned(), self.jsonrpc.serialize()));
        members.push(("method".to_owned(), Json::String(self.method.clone())));
        if let Some(params) = &self.params {
            members.push(("params".to_owned(), params.clone()));
        }
        members.push(("id".to_owned(), self.id.clone()));
        proof {
            lemma_object_view(members);
            assert(members_view(members@) =~= self@.json()->Object_0);
        }
        Json::Object(members)
    }

    /// Reads a request from JSON; `None` where `json` is no request.
    pub fn deserialize(json: &Json) -> (r: Option<Request>)
        ensures
            match r {
                Some(request) => RequestValue::read(json@) == Some(request@),
                None => RequestValue::read(json@) is None,
            },
    {
        let version = match json.member("jsonrpc") {
            Some(value) => Version::deserialize(value),
            None => None,
        };
        if version.is_none() {
            return None;
        }
        let method = match json.member("method") {
            Some(Json::String(name)) => name.clone(),
            _ => {
                return None;
            },
        };
        let id = match json.member("id") {
            Some(value) => {
                if !value.is_scalar() {
                    return None;
                }
                value.clone()
            },
            None => {
                return None;
            },
        };
        let params = optional(json.member("params"));
        Some(Request { jsonrpc: Version, method, params, id })
    }
}

impl Notification {
    /// Writes the notification as JSON.
    pub fn serialize(&self) -> (json: Json)
        ensures
            json@ == self@.json(),
    {
        let mut members: Vec<(String, Json)> = Vec::new();
        members.push(("jsonrpc".to_owned(), self.jsonrpc.serialize()));
        members.push(("method".to_owned(), Json::String(self.method.clone())));
        if let Some(params) = &self.params {
            members.push(("params".to_owned(), params.clone()));
        }
        proof {
            lemma_object_view(members);
            assert(members_view(members@) =~= self@.json()->Object_0);
        }
        Json::Object(members)
    }

    /// Reads a notification from JSON; `None` where `json` is none.
    pub fn deserialize(json: &Json) -> (r: Option<Notification>)
        ensures
            match r {
                Some(notification) => NotificationValue::read(json@) == Some(notification@),
                None => NotificationValue::read(json@) is None,
            },
    {
        let version = match json.member("jsonrpc") {
            Some(value) => Version::deserialize(value),
            None => None,
        };
        if version.is_none() {
            return None;
        }
        let method = match json.member("method") {
            Some(Json::String(name)) => name.clone(),
            _ => {
                return None;
            },
        };
        let params = optional(json.member("params"));
        Some(Notification { jsonrpc: Version, method, params })
    }
}

impl RPCError {
    /// Writes the error as JSON.
    pub fn serialize(&self) -> (json: Json)
        ensures
            json@ == self@.json(),
    {
        let mut members: Vec<(String, Json)> = Vec::new();
        members.push(("code".to_owned(), Json::Number(JsonNumber::from_i64(self.code))));
        members.push(("message".to_owned(), Json::String(self.message.clone())));
        if let Some(data) = &self.data {
            members.push(("data".to_owned(), data.clone()));
        }
        proof {
            lemma_object_view(members);
            assert(members_view(members@) =~= self@.json()->Object_0);
        }
        Json::Object(members)
    }

    /// Reads an error from JSON; `None` where `json` is none.
    pub fn deserialize(json: &Json) -> (r: Option<RPCError>)
        ensures
            match r {
                Some(error) => RPCErrorValue::read(json@) == Some(error@),
                None => RPCErrorValue::read(json@) is None,
            },
    {
        let code = match json.member("code") {
            Some(Json::Number(number)) => match number.as_i64() {
                Some(code) => code,
                None => {
                    return None;
                },
            },
            _ => {
                return None;
            },
        };
        let message = match json.member("message") {
            Some(Json::String(text)) => text.clone(),
            _ => {
                return None;
            },
        };
        let data = optional(json.member("data"));
        Some(RPCError { code, message, data })
    }
}

impl Response {
    /// Writes the response as JSON: `id`, then `result` or `error`.
    pub fn serialize(&self) -> (json: Json)
        ensures
            json@ == self@.json(),
    {
        let mut members: Vec<(String, Json)> = Vec::new();
        members.push(("id".to_owned(), self.id.clone()));
        match &self.result {
            Ok(value) => {
                members.push(("result".to_owned(), value.clone()));
            },
            Err(error) => {
                members.push(("error".to_owned(), error.serialize()));
            },
        }
        proof {
            lemma_object_view(members);
            assert(members_view(members@) =~= self@.json()->Object_0);
        }
        Json::Object(members)
    }

    /// Reads a response from JSON; `None` where `json` is none.
    pub fn deserialize(json: &Json) -> (r: Option<Response>)
        ensures
            match r {
                Some(response) => ResponseValue::read(json@) == Some(response@),
                None => ResponseValue::read(json@) is None,
            },
    {
        let id = match json.member("id") {
            Some(value) => value.clone(),
            None => {
                return None;
            },
        };
        match (json.member("result"), json.member("error")) {
            (Some(value), None) => Some(Response { result: Ok(value.clone()), id }),
            (None, Some(error)) => match RPCError::deserialize(error) {
                Some(e) => Some(Response { result: Err(e), id }),
                None => None,
            },
            _ => None,
        }
    }
}

impl MessageValue {
    /// The message that `json` is, where `json` is no array: a request, else
    /// a response, else a notification, else nothing that is known.
    pub open spec fn single(json: JsonValue) -> MessageValue {
        if let Some(request) = RequestValue::read(json) {
            MessageValue::Request(request)
        } else if let Some(response) = ResponseValue::read(json) {
            MessageValue::Response(response)
        } else if let Some(notification) = NotificationValue::read(json) {
            MessageValue::Notification(notification)
        } else {
            MessageValue::Unmatched(json)
        }
    }

    /// The message that `json` is. An array is a batch, and each of its items
    /// is read as a single message: an array inside an array matches nothing.
    pub open spec fn read(json: JsonValue) -> MessageValue {
        match json {
            JsonValue::Array(items) => MessageValue::Batch(
                items.map_values(|item: JsonValue| MessageValue::single(item)),
            ),
            _ => MessageValue::single(json),
        }
    }

    /// The JSON that the message is written as. The mark of a syntax error
    /// has none, nor has a batch that holds one.
    pub open spec fn json(self) -> Option<JsonValue>
        decreases self, 0nat,
    {
        match self {
            MessageValue::Request(request) => Some(request.json()),
            MessageValue::Response(response) => Some(response.json()),
            MessageValue::Notification(notification) => Some(notification.json()),
            MessageValue::Batch(members) => match MessageValue::batch_json(
                members,
                members.len(),
            ) {
                Some(items) => Some(JsonValue::Array(items)),
                None => None,
            },
            MessageValue::Unmatched(json) => Some(json),
            MessageValue::SyntaxError => None,
        }
    }

    /// The JSON of the first `n` of `members`, if each of them has one.
    pub open spec fn batch_json(members: Seq<MessageValue>, n: nat) -> Option<Seq<JsonValue>>
        decreases members, n,
    {
        if n == 0 || n > members.len() {
            Some(Seq::empty())
        } else {
            match (MessageValue::batch_json(members, (n - 1) as nat), members[n - 1].json()) {
                (Some(items), Some(item)) => Some(items.push(item)),
                _ => None,
            }
        }
    }
}

/// Once a member of a batch has no JSON, no longer prefix has one.
proof fn lemma_batch_json_stays_none(members: Seq<MessageValue>, k: nat, n: nat)
    requires
        k <= n <= members.len(),
        MessageValue::batch_json(members, k) is None,
    ensures
        MessageValue::batch_json(members, n) is None,
    decreases n,
{
    if k < n {
        lemma_batch_json_stays_none(members, k, (n - 1) as nat);
    }
}

impl Message {
    /// A request for `method`. It carries the id `null` until a client gives
    /// it one of its own.
    pub fn request(method: String, params: Option<Json>) -> (message: Message)
        ensures
            message@ == MessageValue::Request(
                RequestValue { method: method@, params: option_view(params), id: JsonValue::Null },
            ),
    {
        Message::Request(Request { jsonrpc: Version, method, params, id: Json::Null })
    }

    /// A notification of `method`.
    pub fn notification(method: String, params: Option<Json>) -> (message: Message)
        ensures
            message@ == MessageValue::Notification(
                NotificationValue { method: method@, params: option_view(params) },
            ),
    {
        Message::Notification(Notification { jsonrpc: Version, method, params })
    }

    /// An error response that answers no request in particular: its id is
    /// `null`.
    pub fn error(code: i64, message: String, data: Option<Json>) -> (reply: Message)
        ensures
            reply@ == MessageValue::Response(
                ResponseValue {
                    result: Err(
                        RPCErrorValue { code, message: message@, data: option_view(data) },
                    ),
                    id: JsonValue::Null,
                },
            ),
    {
        Message::Response(Response { result: Err(RPCError { code, message, data }), id: Json::Null })
    }

    /// Reads one message that is no batch.
    pub fn single(json: Json) -> (message: Message)
        ensures
            message@ == MessageValue::single(json@),
    {
        if let Some(request) = Request::deserialize(&json) {
            Message::Request(request)
        } else if let Some(response) = Response::deserialize(&json) {
            Message::Response(response)
        } else if let Some(notification) = Notification::deserialize(&json) {
            Message::Notification(notification)
        } else {
            Message::Unmatched(json)
        }
    }

    /// Reads a message from JSON. Every value is some message: what matches
    /// nothing is kept whole as `Unmatched`.
    pub fn from_json(json: Json) -> (message: Message)
        ensures
            message@ == MessageValue::read(json@),
    {
        match json {
            Json::Array(items) => {
                let mut members: Vec<Message> = Vec::new();
                let mut i: usize = 0;
                while i < items.len()
                    invariant
                        i <= items@.len(),
                        members@.len() == i,
                        forall|j: int|
                            0 <= j < i ==> members@[j]@ == MessageValue::single(items@[j]@),
                    decreases items@.len() - i,
                {
                    members.push(Message::single(items[i].clone()));
                    i += 1;
                }
                proof {
                    lemma_array_view(items);
                    lemma_batch_view(members);
                    assert(messages_view(members@) =~= items_view(items@).map_values(
                        |item: JsonValue| MessageValue::single(item),
                    ));
                }
                Message::Batch(members)
            },
            other => Message::single(other),
        }
    }

    /// Writes the message as JSON. `None` for the mark of a syntax error and
    /// for a batch that holds it: they have no wire form.
    pub fn serialize(&self) -> (json: Option<Json>)
        ensures
            option_view(json) == self@.json(),
        decreases self,
    {
        match self {
            Message::Request(request) => Some(request.serialize()),
            Message::Response(response) => Some(response.serialize()),
            Message::Notification(notification) => Some(notification.serialize()),
            Message::Batch(members) => {
                proof {
                    lemma_batch_view(*members);
                }
                let ghost values = messages_view(members@);
                let mut items: Vec<Json> = Vec::new();
                let mut i: usize = 0;
                while i < members.len()
                    invariant
                        *self == Message::Batch(*members),
                        values == messages_view(members@),
                        self@ == MessageValue::Batch(values),
                        i <= members@.len(),
                        MessageValue::batch_json(values, i as nat) == Some(items_view(items@)),
                    decreases members@.len() - i,
                {
                    assert(decreases_to!(*self => self->Batch_0));
                    assert(decreases_to!(*members => members[i as int]));
                    let ghost before = items_view(items@);
                    match members[i].serialize() {
                        Some(item) => {
                            items.push(item);
                            assert(items_view(items@) =~= before.push(item@));
                        },
                        None => {
                            proof {
                                assert(values[i as int] == members@[i as int]@);
                                assert(MessageValue::batch_json(values, (i + 1) as nat) is None);
                                lemma_batch_json_stays_none(
                                    values,
                                    (i + 1) as nat,
                                    values.len(),
                                );
                            }
                            return None;
                        },
                    }
                    i += 1;
                }
                proof {
                    lemma_array_view(items);
                }
                Some(Json::Array(items))
            },
            Message::Unmatched(json) => Some(json.clone()),
            Message::SyntaxError => None,
        }
    }
}

impl Message {
    /// Reads a message from a string that holds one JSON value and nothing
    /// else. Text that is not JSON is an error here; JSON that is no message
    /// is not.
    pub fn from_str(text: &str) -> (read: Result<Message, ParseFailure>)
        ensures
            match json_parse(text.spec_bytes()) {
                Ok(json) => read matches Ok(message) && message@ == MessageValue::read(json),
                Err(failure) => read == Err::<Message, ParseFailure>(failure),
            },
    {
        match parse(text.as_bytes()) {
            Ok(json) => Ok(Message::from_json(json)),
            Err(failure) => Err(failure),
        }
    }

    /// Writes the message as compact JSON text. `None` for a message
    /// without a wire form, and where the JSON writer reports an error.
    pub fn into_string(self) -> (text: Option<String>)
        ensures
            match self@.json() {
                Some(json) => match json_text(json) {
                    Some(bytes) => text matches Some(written) && vstd::utf8::encode_utf8(
                        written@,
                    ) == bytes,
                    None => text is None,
                },
                None => text is None,
            },
    {
        match self.serialize() {
            Some(json) => emit_string(&json),
            None => None,
        }
    }
}

/// What is wrong with a record that is no message.
#[derive(Debug, PartialEq)]
pub enum Broken {
    /// It is JSON, and no message: the value is kept.
    Unmatched(Json),
    /// It is not JSON.
    SyntaxError,
}

/// The value of a [`Broken`].
pub enum BrokenValue {
    Unmatched(JsonValue),
    SyntaxError,
}

impl View for Broken {
    type V = BrokenValue;

    open spec fn view(&self) -> BrokenValue {
        match self {
            Broken::Unmatched(json) => BrokenValue::Unmatched(json@),
            Broken::SyntaxError => BrokenValue::SyntaxError,
        }
    }
}

/// A record as the dispatch engine takes it: a message, or what is wrong
/// with it.
pub type Parsed = Result<Message, Broken>;

/// The value of a [`Parsed`].
pub open spec fn parsed_view(parsed: Parsed) -> Result<MessageValue, BrokenValue> {
    match parsed {
        Ok(message) => Ok(message@),
        Err(broken) => Err(broken@),
    }
}

impl MessageValue {
    /// The record as the dispatch engine takes it: the two recovery marks
    /// become the two kinds of broken record, every other message is itself.
    pub open spec fn parsed(self) -> Result<MessageValue, BrokenValue> {
        match self {
            MessageValue::Unmatched(json) => Err(BrokenValue::Unmatched(json)),
            MessageValue::SyntaxError => Err(BrokenValue::SyntaxError),
            other => Ok(other),
        }
    }
}

impl Message {
    /// Hands a decoded record on to the dispatch engine.
    pub fn into_parsed(self) -> (parsed: Parsed)
        ensures
            parsed_view(parsed) == self@.parsed(),
    {
        match self {
            Message::Unmatched(json) => Err(Broken::Unmatched(json)),
            Message::SyntaxError => Err(Broken::SyntaxError),
            other => Ok(other),
        }
    }
}

impl BrokenValue {
    /// The reply to a broken record: a parse error for what is not JSON, an
    /// invalid request for what is no message. Its id is `null`.
    pub open spec fn reply(self) -> MessageValue {
        MessageValue::Response(
            ResponseValue {
                result: Err(
                    match self {
                        BrokenValue::SyntaxError => RPCErrorValue {
                            code: PARSE_ERROR,
                            message: "Parse error"@,
                            data: None,
                        },
                        BrokenValue::Unmatched(_) => RPCErrorValue {
                            code: INVALID_REQUEST,
                            message: "Invalid Request"@,
                            data: None,
                        },
                    },
                ),
                id: JsonValue::Null,
            },
        )
    }
}

impl Broken {
    /// The error response that a broken record is answered with.
    pub fn reply(&self) -> (reply: Message)
        ensures
            reply@ == self@.reply(),
    {
        match self {
            Broken::SyntaxError => Message::error(PARSE_ERROR, "Parse error".to_owned(), None),
            Broken::Unmatched(_) => Message::error(
                INVALID_REQUEST,
                "Invalid Request".to_owned(),
                None,
            ),
        }
    }
}

impl RequestValue {
    /// The response that carries `result` back to the caller.
    pub open spec fn reply(self, result: JsonValue) -> MessageValue {
        MessageValue::Response(ResponseValue { result: Ok(result), id: self.id })
    }

    /// The response that tells the caller why the call failed.
    pub open spec fn error(
        self,
        code: i64,
        message: Seq<char>,
        data: Option<JsonValue>,
    ) -> MessageValue {
        MessageValue::Response(
            ResponseValue { result: Err(RPCErrorValue { code, message, data }), id: self.id },
        )
    }

    /// The response to a request that no server takes: the data of the
    /// error is the name of the method.
    pub open spec fn not_found(self) -> MessageValue {
        self.error(METHOD_NOT_FOUND, "Method not found"@, Some(JsonValue::String(self.method)))
    }
}

impl Request {
    /// Answers the request with the result of the call. The response
    /// carries the id of the request.
    pub fn reply(&self, result: Json) -> (reply: Message)
        ensures
            reply@ == self@.reply(result@),
    {
        Message::Response(Response { result: Ok(result), id: self.id.clone() })
    }

    /// Answers the request with an error. The response carries the id of
    /// the request.
    pub fn error(&self, code: i64, message: String, data: Option<Json>) -> (reply: Message)
        ensures
            reply@ == self@.error(code, message@, option_view(data)),
    {
        Message::Response(
            Response { result: Err(RPCError { code, message, data }), id: self.id.clone() },
        )
    }

    /// Answers a request that no server takes.
    pub fn not_found(&self) -> (reply: Message)
        ensures
            reply@ == self@.not_found(),
    {
        self.error(
            METHOD_NOT_FOUND,
            "Method not found".to_owned(),
            Some(Json::String(self.method.clone())),
        )
    }
}

/// What a lookup finds in a list of members that grew by one.
proof fn lemma_lookup_push(
    members: Seq<(Seq<char>, JsonValue)>,
    name: Seq<char>,
    value: JsonValue,
    key: Seq<char>,
)
    ensures
        lookup(members.push((name, value)), key) == if name == key {
            Some(value)
        } else {
            lookup(members, key)
        },
{
    assert(members.push((name, value)).drop_last() =~= members);
}

/// What a lookup finds among two members.
proof fn lemma_lookup_pair(
    first: (Seq<char>, JsonValue),
    second: (Seq<char>, JsonValue),
    key: Seq<char>,
)
    ensures
        lookup(seq![first, second], key) == if second.0 == key {
            Some(second.1)
        } else if first.0 == key {
            Some(first.1)
        } else {
            None
        },
{
    let none = Seq::<(Seq<char>, JsonValue)>::empty();
    assert(seq![first, second] =~= none.push(first).push(second));
    lemma_lookup_push(none.push(first), second.0, second.1, key);
    lemma_lookup_push(none, first.0, first.1, key);
}

/// What a lookup finds in a list of members that grew by an optional one.
proof fn lemma_lookup_optional(
    members: Seq<(Seq<char>, JsonValue)>,
    name: Seq<char>,
    value: Option<JsonValue>,
    key: Seq<char>,
)
    ensures
        lookup(with_optional(members, name, value), key) == if name == key && value is Some {
            value
        } else {
            lookup(members, key)
        },
{
    if let Some(v) = value {
        lemma_lookup_push(members, name, v, key);
    }
}

/// The names of the members are all different.
proof fn lemma_names()
    ensures
        "jsonrpc"@ != "method"@,
        "jsonrpc"@ != "params"@,
        "jsonrpc"@ != "id"@,
        "method"@ != "params"@,
        "method"@ != "id"@,
        "params"@ != "id"@,
        "id"@ != "result"@,
        "id"@ != "error"@,
        "result"@ != "error"@,
        "jsonrpc"@ != "result"@,
        "jsonrpc"@ != "error"@,
        "code"@ != "message"@,
        "code"@ != "data"@,
        "message"@ != "data"@,
{
    reveal_strlit("jsonrpc");
    reveal_strlit("method");
    reveal_strlit("params");
    reveal_strlit("id");
    reveal_strlit("result");
    reveal_strlit("error");
    reveal_strlit("code");
    reveal_strlit("message");
    reveal_strlit("data");
    assert("jsonrpc"@.len() == 7 && "message"@.len() == 7);
    assert("method"@.len() == 6 && "params"@.len() == 6 && "result"@.len() == 6);
    assert("error"@.len() == 5);
    assert("code"@.len() == 4 && "data"@.len() == 4);
    assert("id"@.len() == 2);
    assert("method"@[0] != "params"@[0]);
    assert("code"@[0] != "data"@[0]);
}

impl RequestValue {
    /// Whether the request is read back as it was written: its id is
    /// neither array nor object, and its parameters are not `null`.
    pub open spec fn faithful(self) -> bool {
        self.id.is_scalar() && self.params != Some(JsonValue::Null)
    }
}

impl NotificationValue {
    /// Whether the notification is read back as it was written: its
    /// parameters are not `null`.
    pub open spec fn faithful(self) -> bool {
        self.params != Some(JsonValue::Null)
    }
}

impl RPCErrorValue {
    /// Whether the error is read back as it was written: its data is not
    /// `null`.
    pub open spec fn faithful(self) -> bool {
        self.data != Some(JsonValue::Null)
    }
}

impl ResponseValue {
    /// Whether the response is read back as it was written.
    pub open spec fn faithful(self) -> bool {
        match self.result {
            Ok(_) => true,
            Err(error) => error.faithful(),
        }
    }
}

impl MessageValue {
    /// A request, a response or a notification that is read back as it was
    /// written.
    pub open spec fn plain(self) -> bool {
        match self {
            MessageValue::Request(request) => request.faithful(),
            MessageValue::Response(response) => response.faithful(),
            MessageValue::Notification(notification) => notification.faithful(),
            _ => false,
        }
    }

    /// Whether the message is read back as it was written: it is plain, or
    /// a batch of plain messages.
    pub open spec fn faithful(self) -> bool {
        match self {
            MessageValue::Batch(members) => forall|i: int|
                0 <= i < members.len() ==> (#[trigger] members[i]).plain(),
            _ => self.plain(),
        }
    }
}

/// A request that is written and read again is the same request.
pub proof fn lemma_request_round_trip(request: RequestValue)
    requires
        request.faithful(),
    ensures
        RequestValue::read(request.json()) == Some(request),
{
    lemma_names();
    let head = seq![("jsonrpc"@, Version::json()), ("method"@, JsonValue::String(request.method))];
    let middle = with_optional(head, "params"@, request.params);
    assert forall|key: Seq<char>|
        lookup(middle.push(("id"@, request.id)), key) == if key == "id"@ {
            Some(request.id)
        } else if key == "params"@ && request.params is Some {
            request.params
        } else {
            #[trigger] lookup(head, key)
        } by {
        lemma_lookup_push(middle, "id"@, request.id, key);
        lemma_lookup_optional(head, "params"@, request.params, key);
    }
    lemma_lookup_pair(head[0], head[1], "jsonrpc"@);
    lemma_lookup_pair(head[0], head[1], "method"@);
    lemma_lookup_pair(head[0], head[1], "params"@);
    lemma_lookup_pair(head[0], head[1], "id"@);
}

/// A notification that is written and read again is the same
/// notification, and is taken for nothing else.
pub proof fn lemma_notification_round_trip(notification: NotificationValue)
    requires
        notification.faithful(),
    ensures
        NotificationValue::read(notification.json()) == Some(notification),
        RequestValue::read(notification.json()) is None,
        ResponseValue::read(notification.json()) is None,
{
    lemma_names();
    let head = seq![
        ("jsonrpc"@, Version::json()),
        ("method"@, JsonValue::String(notification.method)),
    ];
    lemma_lookup_optional(head, "params"@, notification.params, "jsonrpc"@);
    lemma_lookup_optional(head, "params"@, notification.params, "method"@);
    lemma_lookup_optional(head, "params"@, notification.params, "params"@);
    lemma_lookup_optional(head, "params"@, notification.params, "id"@);
    lemma_lookup_pair(head[0], head[1], "jsonrpc"@);
    lemma_lookup_pair(head[0], head[1], "method"@);
    lemma_lookup_pair(head[0], head[1], "params"@);
    lemma_lookup_pair(head[0], head[1], "id"@);
}

/// An error that is written and read again is the same error.
pub proof fn lemma_error_round_trip(error: RPCErrorValue)
    requires
        error.faithful(),
    ensures
        RPCErrorValue::read(error.json()) == Some(error),
{
    lemma_names();
    let head = seq![
        ("code"@, JsonValue::Number(JsonNumber::integer(error.code))),
        ("message"@, JsonValue::String(error.message)),
    ];
    lemma_lookup_optional(head, "data"@, error.data, "code"@);
    lemma_lookup_optional(head, "data"@, error.data, "message"@);
    lemma_lookup_optional(head, "data"@, error.data, "data"@);
    lemma_lookup_pair(head[0], head[1], "code"@);
    lemma_lookup_pair(head[0], head[1], "message"@);
    lemma_lookup_pair(head[0], head[1], "data"@);
}

/// A response that is written and read again is the same response, and is
/// not taken for a request.
pub proof fn lemma_response_round_trip(response: ResponseValue)
    requires
        response.faithful(),
    ensures
        ResponseValue::read(response.json()) == Some(response),
        RequestValue::read(response.json()) is None,
{
    lemma_names();
    let first = ("id"@, response.id);
    let second = match response.result {
        Ok(value) => ("result"@, value),
        Err(error) => ("error"@, error.json()),
    };
    lemma_lookup_pair(first, second, "id"@);
    lemma_lookup_pair(first, second, "result"@);
    lemma_lookup_pair(first, second, "error"@);
    lemma_lookup_pair(first, second, "jsonrpc"@);
    if let Err(error) = response.result {
        lemma_error_round_trip(error);
    }
    assert(response.json()->Object_0 =~= seq![first, second]);
}

/// A plain message that is written and read again is the same message.
pub proof fn lemma_plain_round_trip(message: MessageValue)
    requires
        message.plain(),
    ensures
        message.json() is Some,
        !(message.json()->0 is Array),
        MessageValue::single(message.json()->0) == message,
{
    match message {
        MessageValue::Request(request) => {
            lemma_request_round_trip(request);
        },
        MessageValue::Response(response) => {
            lemma_response_round_trip(response);
        },
        MessageValue::Notification(notification) => {
            lemma_notification_round_trip(notification);
        },
        _ => {},
    }
}

proof fn lemma_batch_round_trip(members: Seq<MessageValue>, n: nat)
    requires
        n <= members.len(),
        forall|i: int| 0 <= i < members.len() ==> (#[trigger] members[i]).plain(),
    ensures
        MessageValue::batch_json(members, n) is Some,
        MessageValue::batch_json(members, n)->0.len() == n,
        MessageValue::batch_json(members, n)->0.map_values(
            |item: JsonValue| MessageValue::single(item),
        ) == members.take(n as int),
    decreases n,
{
    let read = |item: JsonValue| MessageValue::single(item);
    if n > 0 {
        lemma_batch_round_trip(members, (n - 1) as nat);
        lemma_plain_round_trip(members[n - 1]);
        let earlier = MessageValue::batch_json(members, (n - 1) as nat)->0;
        let last = members[n - 1].json()->0;
        assert(MessageValue::batch_json(members, n) == Some(earlier.push(last)));
        assert(earlier.map_values(read) == members.take(n - 1));
        assert forall|i: int| 0 <= i < n implies earlier.push(last).map_values(read)[i]
            == members.take(n as int)[i] by {
            if i < n - 1 {
                assert(earlier.map_values(read)[i] == members.take(n - 1)[i]);
            }
        }
        assert(earlier.push(last).map_values(read) =~= members.take(n as int));
    } else {
        assert(Seq::<JsonValue>::empty().map_values(read) =~= members.take(0));
    }
}

/// Writing and reading are inverse: a message that is written as JSON and
/// read again is the message that was written. This holds of every request,
/// response and notification that is faithful, and of every batch of
/// them.
pub proof fn lemma_round_trip(message: MessageValue)
    requires
        message.faithful(),
    ensures
        message.json() is Some,
        MessageValue::read(message.json()->0) == message,
{
    match message {
        MessageValue::Batch(members) => {
            lemma_batch_round_trip(members, members.len());
            assert(members.take(members.len() as int) =~= members);
        },
        _ => {
            lemma_plain_round_trip(message);
        },
    }
}

} // verus!
