//! CoAP messages.

use crate::wire::bytes::{be16, be16_bytes};
use coap_lite::error::MessageError;
use coap_lite::{MessageClass, ResponseType as Status};
use vstd::prelude::*;
use vstd::utf8::{decode_utf8, valid_utf8};

verus! {

/// What can be wrong with a message, `coap_lite::error::MessageError`.
#[verifier::external_type_specification]
#[verifier::external_body]
pub struct ExMessageError(MessageError);

/// How a message is delivered.
#[derive(Clone, Copy, Debug, PartialEq, Eq, Structural)]
pub enum MessageType {
    /// It is to be acknowledged.
    Confirmable,
    /// It is not to be acknowledged.
    NonConfirmable,
    /// It acknowledges another message.
    Acknowledgement,
    /// It says that another message could not be processed.
    Reset,
}

/// What a request asks for.
#[derive(Clone, Copy, Debug, PartialEq, Eq, Structural)]
pub enum RequestType {
    Get,
    Post,
    Put,
    Delete,
    Fetch,
    Patch,
    IPatch,
    UnKnown,
}

/// The ways in which a request can succeed.
#[derive(Clone, Copy, Debug, PartialEq, Eq, Structural)]
pub enum Success {
    Created,
    Deleted,
    Valid,
    Changed,
    Content,
    Continue,
}

/// What can be wrong with a request.
#[derive(Clone, Copy, Debug, PartialEq, Eq, Structural)]
pub enum ClientError {
    BadRequest,
    Unauthorized,
    BadOption,
    Forbidden,
    NotFound,
    MethodNotAllowed,
    NotAcceptable,
    Conflict,
    PreconditionFailed,
    RequestEntityTooLarge,
    UnsupportedContentFormat,
    RequestEntityIncomplete,
    UnprocessableEntity,
    TooManyRequests,
}

/// What can be wrong with the answering of a request.
#[derive(Clone, Copy, Debug, PartialEq, Eq, Structural)]
pub enum ServerError {
    InternalServerError,
    NotImplemented,
    BadGateway,
    ServiceUnavailable,
    GatewayTimeout,
    ProxyingNotSupported,
    HopLimitReached,
}

/// How a request went.
#[derive(Clone, Copy, Debug, PartialEq, Eq, Structural)]
pub enum ResponseType {
    /// Well.
    Success(Success),
    /// It was refused for what it is.
    ClientError(ClientError),
    /// It could not be answered.
    ServerError(ServerError),
    /// Not as anything known.
    UnKnown,
}

/// The code of a success in a message.
pub open spec fn success_code(status: Success) -> u8 {
    match status {
        Success::Created => 0x41,
        Success::Deleted => 0x42,
        Success::Valid => 0x43,
        Success::Changed => 0x44,
        Success::Content => 0x45,
        Success::Continue => 0x5f,
    }
}

/// The code of a wrong request in a message.
pub open spec fn client_error_code(status: ClientError) -> u8 {
    match status {
        ClientError::BadRequest => 0x80,
        ClientError::Unauthorized => 0x81,
        ClientError::BadOption => 0x82,
        ClientError::Forbidden => 0x83,
        ClientError::NotFound => 0x84,
        ClientError::MethodNotAllowed => 0x85,
        ClientError::NotAcceptable => 0x86,
        ClientError::Conflict => 0x89,
        ClientError::PreconditionFailed => 0x8c,
        ClientError::RequestEntityTooLarge => 0x8d,
        ClientError::UnsupportedContentFormat => 0x8f,
        ClientError::RequestEntityIncomplete => 0x88,
        ClientError::UnprocessableEntity => 0x96,
        ClientError::TooManyRequests => 0x9d,
    }
}

/// The code of a failed answer in a message.
pub open spec fn server_error_code(status: ServerError) -> u8 {
    match status {
        ServerError::InternalServerError => 0xa0,
        ServerError::NotImplemented => 0xa1,
        ServerError::BadGateway => 0xa2,
        ServerError::ServiceUnavailable => 0xa3,
        ServerError::GatewayTimeout => 0xa4,
        ServerError::ProxyingNotSupported => 0xa5,
        ServerError::HopLimitReached => 0xa8,
    }
}

/// The code of a response in a message.
pub open spec fn status_code(status: ResponseType) -> u8 {
    match status {
        ResponseType::Success(status) => success_code(status),
        ResponseType::ClientError(status) => client_error_code(status),
        ResponseType::ServerError(status) => server_error_code(status),
        ResponseType::UnKnown => 0xff,
    }
}

/// The code of a success: `coap_lite`'s conversion of a `MessageClass` to a number.
#[verifier::external_body]
fn code_of_success(status: Success) -> (code: u8)
    ensures
        code == success_code(status),
{
    u8::from(MessageClass::Response(match status {
        Success::Created => Status::Created,
        Success::Deleted => Status::Deleted,
        Success::Valid => Status::Valid,
        Success::Changed => Status::Changed,
        Success::Content => Status::Content,
        Success::Continue => Status::Continue,
    }))
}

/// The code of a wrong request: `coap_lite`'s conversion of a `MessageClass` to a number.
#[verifier::external_body]
fn code_of_client_error(status: ClientError) -> (code: u8)
    ensures
        code == client_error_code(status),
{
    u8::from(MessageClass::Response(match status {
        ClientError::BadRequest => Status::BadRequest, ClientError::Unauthorized => Status::Unauthorized,
        ClientError::BadOption => Status::BadOption, ClientError::Forbidden => Status::Forbidden,
        ClientError::NotFound => Status::NotFound, ClientError::MethodNotAllowed => Status::MethodNotAllowed,
        ClientError::NotAcceptable => Status::NotAcceptable, ClientError::Conflict => Status::Conflict,
        ClientError::PreconditionFailed => Status::PreconditionFailed, ClientError::RequestEntityTooLarge => Status::RequestEntityTooLarge,
        ClientError::UnsupportedContentFormat => Status::UnsupportedContentFormat, ClientError::RequestEntityIncomplete => Status::RequestEntityIncomplete,
        ClientError::UnprocessableEntity => Status::UnprocessableEntity, ClientError::TooManyRequests => Status::TooManyRequests,
    }))
}

/// The code of a failed answer: `coap_lite`'s conversion of a `MessageClass` to a number.
#[verifier::external_body]
fn code_of_server_error(status: ServerError) -> (code: u8)
    ensures
        code == server_error_code(status),
{
    u8::from(MessageClass::Response(match status {
        ServerError::InternalServerError => Status::InternalServerError,
        ServerError::NotImplemented => Status::NotImplemented,
        ServerError::BadGateway => Status::BadGateway,
        ServerError::ServiceUnavailable => Status::ServiceUnavailable,
        ServerError::GatewayTimeout => Status::GatewayTimeout,
        ServerError::ProxyingNotSupported => Status::ProxyingNotSupported,
        ServerError::HopLimitReached => Status::HopLimitReached,
    }))
}

/// The code of a response that is not known: `coap_lite`'s conversion of a `MessageClass` to a
/// number.
#[verifier::external_body]
fn code_of_unknown() -> (code: u8)
    ensures
        code == status_code(ResponseType::UnKnown),
{
    u8::from(MessageClass::Response(Status::UnKnown))
}

impl ResponseType {
    /// The code of the response in a message.
    pub fn code(self) -> (code: u8)
        ensures
            code == status_code(self),
    {
        match self {
            ResponseType::Success(status) => code_of_success(status),
            ResponseType::ClientError(status) => code_of_client_error(status),
            ResponseType::ServerError(status) => code_of_server_error(status),
            ResponseType::UnKnown => code_of_unknown(),
        }
    }
}

/// The option that holds the segments of a request's path.
pub const URI_PATH: u16 = 11;

/// The longest message that is written.
pub const MAX_MESSAGE_SIZE: usize = 1280;

/// The longest token that a message has room for.
pub const MAX_TOKEN_LEN: usize = 15;

/// The values of one option.
#[derive(Clone, Debug, PartialEq, Eq)]
pub struct OptionValues {
    /// The number of the option.
    pub number: u16,
    /// Its values, in order.
    pub values: Vec<Vec<u8>>,
}

/// A message.
#[derive(Clone, Debug, PartialEq, Eq)]
pub struct Packet {
    /// How the message is delivered.
    pub kind: MessageType,
    /// What the message asks for, or how that went.
    pub code: u8,
    /// The number that an acknowledgement repeats.
    pub message_id: u16,
    /// The bytes that a response repeats.
    pub token: Vec<u8>,
    /// The options, each number once.
    pub options: Vec<OptionValues>,
    /// What the message carries.
    pub payload: Vec<u8>,
}

/// A message as a mathematical value.
#[verifier::ext_equal]
pub struct Message {
    /// How the message is delivered.
    pub kind: MessageType,
    /// What the message asks for, or how that went.
    pub code: u8,
    /// The number that an acknowledgement repeats.
    pub message_id: u16,
    /// The bytes that a response repeats.
    pub token: Seq<u8>,
    /// The options and their values.
    pub options: Seq<(u16, Seq<Seq<u8>>)>,
    /// What the message carries.
    pub payload: Seq<u8>,
}

/// Byte strings as mathematical values.
pub open spec fn byte_strings(values: Seq<Vec<u8>>) -> Seq<Seq<u8>> {
    values.map_values(|value: Vec<u8>| value@)
}

impl View for Packet {
    type V = Message;

    open spec fn view(&self) -> Message {
        Message {
            kind: self.kind,
            code: self.code,
            message_id: self.message_id,
            token: self.token@,
            options: self.options@.map_values(
                |option: OptionValues| (option.number, byte_strings(option.values@)),
            ),
            payload: self.payload@,
        }
    }
}

impl Message {
    /// Whether the token fits into a message.
    pub open spec fn wf(self) -> bool {
        self.token.len() <= MAX_TOKEN_LEN
    }
}

/// The message that bytes hold, if they hold one.
pub uninterp spec fn decoded(bytes: Seq<u8>) -> Option<Message>;

/// The bytes of a message, if it is not too long.
pub uninterp spec fn encoded(message: Message) -> Option<Seq<u8>>;

/// Reads a message: `coap_lite`'s `Packet::from_bytes`. What it makes of the bytes has a name;
/// said of it beside that is where the fields of the header and the token, of at most eight bytes,
/// come from. (It reads long options right on little-endian machines only, and the adapter runs on
/// no others.)
#[verifier::external_body]
pub(crate) fn from_bytes(bytes: &[u8]) -> (packet: Result<Packet, MessageError>)
    ensures
        packet is Ok <==> decoded(bytes@) is Some,
        packet matches Ok(packet) ==> {
            &&& decoded(bytes@) == Some(packet@)
            &&& bytes@.len() >= 4 + packet.token@.len()
            &&& packet.kind == kind_of((bytes@[0] / 16) % 4)
            &&& packet.code == bytes@[1]
            &&& packet.message_id == be16(bytes@, 2)
            &&& packet.token@.len() == bytes@[0] % 16 <= 8
            &&& packet.token@ == bytes@.subrange(4, 4 + bytes@[0] % 16)
        },
{
    let packet = coap_lite::Packet::from_bytes(bytes)?;
    Ok(Packet {
        kind: match packet.header.get_type() {
            coap_lite::MessageType::Confirmable => MessageType::Confirmable,
            coap_lite::MessageType::NonConfirmable => MessageType::NonConfirmable,
            coap_lite::MessageType::Acknowledgement => MessageType::Acknowledgement,
            coap_lite::MessageType::Reset => MessageType::Reset,
        },
        code: u8::from(packet.header.code),
        message_id: packet.header.message_id,
        token: packet.get_token().to_vec(),
        options: packet.options().map(|(number, values)| OptionValues { number: *number, values: values.iter().cloned().collect() }).collect(),
        payload: packet.payload,
    })
}

/// The kind of message that a number in its header stands for.
pub open spec fn kind_of(number: u8) -> MessageType {
    if number == 0 {
        MessageType::Confirmable
    } else if number == 1 {
        MessageType::NonConfirmable
    } else if number == 2 {
        MessageType::Acknowledgement
    } else {
        MessageType::Reset
    }
}

/// The number that stands for a kind of message in its header.
pub open spec fn kind_number(kind: MessageType) -> int {
    match kind {
        MessageType::Confirmable => 0,
        MessageType::NonConfirmable => 1,
        MessageType::Acknowledgement => 2,
        MessageType::Reset => 3,
    }
}

/// The bytes of a message without options that is not empty: header, token, and the payload, if
/// there is one, after a marker.
pub open spec fn plain_bytes(message: Message) -> Seq<u8> {
    let first = (0x40 + kind_number(message.kind) * 16 + message.token.len()) as u8;
    seq![first, message.code] + be16_bytes(message.message_id) + message.token
        + if message.payload.len() > 0 {
        seq![0xffu8] + message.payload
    } else {
        Seq::empty()
    }
}

/// Writes a message: `coap_lite`'s `Packet::to_bytes`. What it makes of a message has a name; of a
/// message without options that is not empty it is said in full, and it fails if that is too long.
#[verifier::external_body]
pub(crate) fn to_bytes(packet: &Packet) -> (bytes: Result<Vec<u8>, MessageError>)
    requires
        packet@.wf(),
    ensures
        bytes is Ok <==> encoded(packet@) is Some,
        bytes matches Ok(bytes) ==> encoded(packet@) == Some(bytes@),
        packet.options@.len() == 0 && packet.code != 0 ==> (bytes is Ok <==> plain_bytes(
            packet@,
        ).len() <= MAX_MESSAGE_SIZE),
        packet.options@.len() == 0 && packet.code != 0 ==> (bytes matches Ok(bytes) ==> bytes@
            == plain_bytes(packet@)),
{
    let mut message = coap_lite::Packet::new();
    message.header.set_type(match packet.kind {
        MessageType::Confirmable => coap_lite::MessageType::Confirmable,
        MessageType::NonConfirmable => coap_lite::MessageType::NonConfirmable,
        MessageType::Acknowledgement => coap_lite::MessageType::Acknowledgement,
        MessageType::Reset => coap_lite::MessageType::Reset,
    });
    message.header.code = MessageClass::from(packet.code);
    message.header.message_id = packet.message_id;
    message.set_token(packet.token.clone());
    packet.options.iter().for_each(|option| message.set_option(option.number.into(), option.values.iter().cloned().collect()));
    message.payload = packet.payload.clone();
    message.to_bytes()
}

/// The path that segments make up: those that are text, with slashes between them.
pub open spec fn path_of(segments: Seq<Seq<u8>>) -> Seq<char>
    decreases segments.len(),
{
    if segments.len() == 0 {
        Seq::empty()
    } else {
        let before = segments.drop_last();
        if !valid_utf8(segments.last()) {
            path_of(before)
        } else if forall|i: int| 0 <= i < before.len() ==> !valid_utf8(#[trigger] before[i]) {
            decode_utf8(segments.last())
        } else {
            path_of(before).push('/') + decode_utf8(segments.last())
        }
    }
}

/// The path that segments make up: `coap_lite`'s `CoapRequest::get_path` on a request with these
/// segments, which leaves out what is not UTF-8 and joins the rest.
#[verifier::external_body]
fn join_path(segments: &Vec<Vec<u8>>) -> (path: String)
    ensures
        path@ == path_of(byte_strings(segments@)),
{
    let mut packet = coap_lite::Packet::new();
    packet.set_option(coap_lite::CoapOption::UriPath, segments.iter().cloned().collect());
    coap_lite::CoapRequest::from_packet(packet, ()).get_path()
}

/// The values of an option, if the message has it.
pub open spec fn option_values(options: Seq<(u16, Seq<Seq<u8>>)>, number: u16) -> Seq<Seq<u8>>
    decreases options.len(),
{
    if options.len() == 0 {
        Seq::empty()
    } else if options[0].0 == number {
        options[0].1
    } else {
        option_values(options.skip(1), number)
    }
}

/// What a request with this code asks for.
pub open spec fn method_of(code: u8) -> RequestType {
    if code == 1 {
        RequestType::Get
    } else if code == 2 {
        RequestType::Post
    } else if code == 3 {
        RequestType::Put
    } else if code == 4 {
        RequestType::Delete
    } else if code == 5 {
        RequestType::Fetch
    } else if code == 6 {
        RequestType::Patch
    } else if code == 7 {
        RequestType::IPatch
    } else {
        RequestType::UnKnown
    }
}

/// What a request with this code asks for: `coap_lite`'s `CoapRequest::get_method`. Codes that are
/// not those of requests ask for nothing known.
#[verifier::external_body]
fn request_method(code: u8) -> (method: RequestType)
    ensures
        method == method_of(code),
{
    let mut packet = coap_lite::Packet::new();
    packet.header.code = MessageClass::from(code);
    match coap_lite::CoapRequest::from_packet(packet, ()).get_method() {
        coap_lite::RequestType::Get => RequestType::Get,
        coap_lite::RequestType::Post => RequestType::Post,
        coap_lite::RequestType::Put => RequestType::Put,
        coap_lite::RequestType::Delete => RequestType::Delete,
        coap_lite::RequestType::Fetch => RequestType::Fetch,
        coap_lite::RequestType::Patch => RequestType::Patch,
        coap_lite::RequestType::IPatch => RequestType::IPatch,
        coap_lite::RequestType::UnKnown => RequestType::UnKnown,
    }
}

/// The name of a method.
pub open spec fn method_name(method: RequestType) -> Seq<char> {
    match method {
        RequestType::Get => "Get"@,
        RequestType::Post => "Post"@,
        RequestType::Put => "Put"@,
        RequestType::Delete => "Delete"@,
        RequestType::Fetch => "Fetch"@,
        RequestType::Patch => "Patch"@,
        RequestType::IPatch => "IPatch"@,
        RequestType::UnKnown => "UnKnown"@,
    }
}

/// The name of a method: what `coap_lite`'s `RequestType` writes for debugging, which is the name
/// of the variant.
#[verifier::external_body]
pub(crate) fn name_of_method(method: RequestType) -> (name: String)
    ensures
        name@ == method_name(method),
{
    let method = match method {
        RequestType::Get => coap_lite::RequestType::Get,
        RequestType::Post => coap_lite::RequestType::Post,
        RequestType::Put => coap_lite::RequestType::Put,
        RequestType::Delete => coap_lite::RequestType::Delete,
        RequestType::Fetch => coap_lite::RequestType::Fetch,
        RequestType::Patch => coap_lite::RequestType::Patch,
        RequestType::IPatch => coap_lite::RequestType::IPatch,
        RequestType::UnKnown => coap_lite::RequestType::UnKnown,
    };
    format!("{:?}", method)
}

impl Message {
    /// The path that a request asks about.
    pub open spec fn path(self) -> Seq<char> {
        path_of(option_values(self.options, URI_PATH))
    }
}

/// A request.
#[derive(Clone, Debug, PartialEq, Eq)]
pub struct CoapRequest {
    /// The message that it came in.
    pub message: Packet,
}

impl View for CoapRequest {
    type V = Message;

    open spec fn view(&self) -> Message {
        self.message@
    }
}

impl CoapRequest {
    /// The request that a message is.
    pub fn from_packet(packet: Packet) -> (request: CoapRequest)
        ensures
            request.message == packet,
    {
        CoapRequest { message: packet }
    }

    /// What the request asks for.
    pub fn get_method(&self) -> (method: RequestType)
        ensures
            method == method_of(self.message.code),
    {
        request_method(self.message.code)
    }

    /// The path that the request asks about.
    pub fn get_path(&self) -> (path: String)
        ensures
            path@ == self@.path(),
    {
        let ghost options = self@.options;
        let mut at: usize = 0;
        assert(options.skip(0) =~= options);
        while at < self.message.options.len()
            invariant
                at <= self.message.options@.len(),
                options == self@.options,
                option_values(options.skip(at as int), URI_PATH) == option_values(
                    options,
                    URI_PATH,
                ),
            decreases self.message.options.len() - at,
        {
            let option = &self.message.options[at];
            assert(options.skip(at as int)[0] == (option.number, byte_strings(option.values@)));
            if option.number == URI_PATH {
                return join_path(&option.values);
            }
            assert(options.skip(at as int).skip(1) =~= options.skip(at + 1));
            at += 1;
        }
        let none: Vec<Vec<u8>> = Vec::new();
        assert(byte_strings(none@) =~= Seq::<Seq<u8>>::empty());
        join_path(&none)
    }
}

/// A response.
#[derive(Clone, Debug, PartialEq, Eq)]
pub struct CoapResponse {
    /// The message that it goes out in.
    pub message: Packet,
}

impl View for CoapResponse {
    type V = Message;

    open spec fn view(&self) -> Message {
        self.message@
    }
}

/// The kind of message that answers a message of this kind, if it is to be answered.
pub open spec fn response_kind(kind: MessageType) -> Option<MessageType> {
    match kind {
        MessageType::Confirmable => Some(MessageType::Acknowledgement),
        MessageType::NonConfirmable => Some(MessageType::NonConfirmable),
        _ => None,
    }
}

/// The response to a request before anything is said in it: it repeats the number and the token.
pub open spec fn fresh_response(request: Message, kind: MessageType) -> Message {
    Message {
        kind,
        code: status_code(ResponseType::Success(Success::Content)),
        message_id: request.message_id,
        token: request.token,
        options: Seq::empty(),
        payload: Seq::empty(),
    }
}

impl CoapResponse {
    /// The response to a request before anything is said in it, if the request is to be answered.
    pub fn new(request: &Packet) -> (response: Option<CoapResponse>)
        ensures
            match (response, response_kind(request.kind)) {
                (Some(response), Some(kind)) => response@ == fresh_response(request@, kind),
                (None, None) => true,
                _ => false,
            },
    {
        let kind = match request.kind {
            MessageType::Confirmable => MessageType::Acknowledgement,
            MessageType::NonConfirmable => MessageType::NonConfirmable,
            _ => {
                return None;
            },
        };
        let message = Packet {
            kind,
            code: ResponseType::Success(Success::Content).code(),
            message_id: request.message_id,
            token: vstd::slice::slice_to_vec(request.token.as_slice()),
            options: Vec::new(),
            payload: Vec::new(),
        };
        assert(message@ =~= fresh_response(request@, kind));
        Some(CoapResponse { message })
    }

    /// Says how the request went.
    pub fn set_status(&mut self, status: ResponseType)
        ensures
            final(self)@ == (Message { code: status_code(status), ..old(self)@ }),
    {
        self.message.code = status.code();
    }
}

/// The path of a message is made of the values of its first path option, number 11, and of no
/// others, and is empty if there is none.
pub proof fn path_is_that_of_the_path_option(message: Message, at: int)
    requires
        0 <= at <= message.options.len(),
        forall|i: int| 0 <= i < at ==> (#[trigger] message.options[i]).0 != 11,
        at < message.options.len() ==> message.options[at].0 == 11,
    ensures
        message.path() == if at < message.options.len() {
            path_of(message.options[at].1)
        } else {
            Seq::<char>::empty()
        },
{
    values_are_those_of_the_option(message.options, at);
}

/// The values of the path option are those of the first option with its number.
proof fn values_are_those_of_the_option(options: Seq<(u16, Seq<Seq<u8>>)>, at: int)
    requires
        0 <= at <= options.len(),
        forall|i: int| 0 <= i < at ==> (#[trigger] options[i]).0 != 11,
        at < options.len() ==> options[at].0 == 11,
    ensures
        option_values(options, URI_PATH) == if at < options.len() {
            options[at].1
        } else {
            Seq::<Seq<u8>>::empty()
        },
    decreases options.len(),
{
    if options.len() > 0 && at > 0 {
        let rest = options.skip(1);
        assert(options[0].0 != 11);
        assert forall|i: int| 0 <= i < at - 1 implies (#[trigger] rest[i]).0 != 11 by {
            assert(rest[i] == options[i + 1]);
        }
        values_are_those_of_the_option(rest, at - 1);
    }
}

/// A path is its segments with slashes between them, in order, where a segment that is not text is
/// left out.
pub proof fn path_joins_the_segments(segments: Seq<Seq<u8>>, last: Seq<u8>)
    ensures
        path_of(Seq::empty()) == Seq::<char>::empty(),
        valid_utf8(last) ==> path_of(seq![last]) == decode_utf8(last),
        !valid_utf8(last) ==> path_of(segments.push(last)) == path_of(segments),
        valid_utf8(last) && (exists|i: int|
            0 <= i < segments.len() && valid_utf8(#[trigger] segments[i])) ==> path_of(
            segments.push(last),
        ) == path_of(segments) + seq!['/'] + decode_utf8(last),
{
    assert(segments.push(last).drop_last() =~= segments);
    assert(seq![last].drop_last() =~= Seq::<Seq<u8>>::empty());
    assert(path_of(segments).push('/') + decode_utf8(last) =~= path_of(segments) + seq!['/']
        + decode_utf8(last));
}

} // verus!
