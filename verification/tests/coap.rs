use coap_lite::MessageClass;
use ibus_adapter::coap::{
    not_found, not_implemented, CoapAnswer, CoapStateManager, Decision, InfoResource, Resource,
};
use ibus_adapter::coap_message::{
    ClientError, CoapRequest, CoapResponse, MessageType, OptionValues, Packet, RequestType,
    ResponseType, ServerError, Success,
};

fn info_server() -> CoapStateManager<InfoResource> {
    let mut manager = CoapStateManager::new();
    manager.add_resource(InfoResource {});
    manager
}

/// A message with one path segment of less than 13 bytes.
fn message(first: u8, code: u8, token: &[u8], segment: &[u8]) -> Vec<u8> {
    let mut bytes = vec![first + token.len() as u8, code, 0x12, 0x34];
    bytes.extend_from_slice(token);
    bytes.push(0xb0 + segment.len() as u8);
    bytes.extend_from_slice(segment);
    bytes
}

fn reply(manager: &mut CoapStateManager<InfoResource>, datagram: &[u8]) -> Vec<u8> {
    match manager.answer_datagram(datagram) {
        CoapAnswer::Reply(bytes) => bytes,
        _ => panic!("no reply"),
    }
}

fn expected(first: u8, code: u8, token: &[u8], text: &str) -> Vec<u8> {
    let mut bytes = vec![first + token.len() as u8, code, 0x12, 0x34];
    bytes.extend_from_slice(token);
    bytes.push(0xff);
    bytes.extend_from_slice(text.as_bytes());
    bytes
}

fn request(code: u8, segments: &[&[u8]]) -> CoapRequest {
    CoapRequest::from_packet(Packet {
        kind: MessageType::Confirmable,
        code,
        message_id: 7,
        token: vec![1],
        options: vec![
            OptionValues { number: 3, values: vec![b"host".to_vec()] },
            OptionValues { number: 11, values: segments.iter().map(|s| s.to_vec()).collect() },
        ],
        payload: vec![],
    })
}

#[test]
fn info_is_got() {
    let mut manager = info_server();
    assert_eq!(
        reply(&mut manager, &message(0x40, 1, &[0xaa, 0xbb], b"info")),
        expected(0x60, 0x43, &[0xaa, 0xbb], "this is written in rust :P")
    );
}

#[test]
fn unconfirmed_requests_are_answered_likewise() {
    let mut manager = info_server();
    assert_eq!(
        reply(&mut manager, &message(0x50, 1, &[], b"info")),
        expected(0x50, 0x43, &[], "this is written in rust :P")
    );
}

#[test]
fn other_methods_of_info_are_not_implemented() {
    let mut manager = info_server();
    for (code, name) in
        [(2, "Post"), (3, "Put"), (4, "Delete"), (5, "Fetch"), (6, "Patch"), (7, "IPatch")]
    {
        let text = format!("method not implemented: {} -> info", name);
        assert_eq!(
            reply(&mut manager, &message(0x40, code, &[9], b"info")),
            expected(0x60, 0xa1, &[9], &text)
        );
    }
    assert_eq!(
        reply(&mut manager, &message(0x40, 0x1f, &[9], b"info")),
        expected(0x60, 0xa1, &[9], "method not implemented: UnKnown -> info")
    );
}

#[test]
fn unknown_paths_are_not_found() {
    let mut manager = info_server();
    assert_eq!(
        reply(&mut manager, &message(0x40, 1, &[9], b"nope")),
        expected(0x60, 0x84, &[9], "resource not found:  nope")
    );
    assert_eq!(
        reply(&mut manager, &[0x40, 1, 0x12, 0x34]),
        expected(0x60, 0x84, &[], "resource not found:  ")
    );
    let nested = [0x40, 1, 0x12, 0x34, 0xb1, b'a', 0x01, 0xff, 0x01, b'b'];
    assert_eq!(
        reply(&mut manager, &nested),
        expected(0x60, 0x84, &[], "resource not found:  a/b")
    );
}

#[test]
fn acknowledgements_and_resets_are_not_answered() {
    let mut manager = info_server();
    for first in [0x60, 0x70] {
        let answer = manager.answer_datagram(&message(first, 1, &[], b"info"));
        assert!(matches!(answer, CoapAnswer::NoResponse));
    }
}

#[test]
fn malformed_datagrams_are_told_apart() {
    let mut manager = info_server();
    assert!(matches!(manager.answer_datagram(&[]), CoapAnswer::Malformed(_)));
    assert!(matches!(manager.answer_datagram(&[0x44, 1, 0, 0, 1]), CoapAnswer::Malformed(_)));
    assert!(matches!(manager.answer_datagram(&[0x49, 1, 0, 0]), CoapAnswer::Malformed(_)));
}

#[test]
fn answer_that_is_too_long_cannot_be_sent() {
    let mut manager = info_server();
    let mut datagram = vec![0x40, 1, 0x12, 0x34];
    for delta in [0xb0, 0, 0, 0, 0, 0] {
        datagram.extend_from_slice(&[delta + 13, 237]);
        datagram.extend_from_slice(&[b'x'; 250]);
    }
    assert!(matches!(manager.answer_datagram(&datagram), CoapAnswer::Unsendable(_)));
}

#[test]
fn requests_are_decided() {
    let manager = info_server();
    assert!(matches!(
        manager.decide(&request(1, &[b"info"])),
        Decision::Handle(RequestType::Get, response) if response.message.code == 0x45
    ));
    assert!(matches!(
        manager.decide(&request(4, &[b"info"])),
        Decision::Respond(response) if response.message.code == 0xa1
    ));
    assert!(matches!(
        manager.decide(&request(1, &[b"other"])),
        Decision::Respond(response) if response.message.code == 0x84
    ));
    let mut reset = request(1, &[b"info"]);
    reset.message.kind = MessageType::Reset;
    assert!(matches!(manager.decide(&reset), Decision::NoResponse));
}

#[test]
fn request_is_handled() {
    let mut manager = info_server();
    let response = manager.handle_request(&request(1, &[b"info"])).unwrap();
    assert_eq!(
        response.message,
        Packet {
            kind: MessageType::Acknowledgement,
            code: 0x43,
            message_id: 7,
            token: vec![1],
            options: vec![],
            payload: b"this is written in rust :P".to_vec(),
        }
    );
}

#[test]
fn paths_and_methods_are_read() {
    let nested = request(3, &[b"a", b"b c", b""]);
    assert_eq!(nested.get_path(), "a/b c/");
    assert_eq!(nested.get_method(), RequestType::Put);
    assert_eq!(request(1, &[b"a", &[0xff], b"b"]).get_path(), "a/b");
    assert_eq!(request(1, &[]).get_path(), "");
    assert_eq!(request(0x45, &[]).get_method(), RequestType::UnKnown);
    assert_eq!(request(0, &[]).get_method(), RequestType::UnKnown);
}

#[test]
fn refusals_are_written() {
    let put = request(3, &[b"a", b"b"]);
    let mut response = CoapResponse::new(&put.message).unwrap();
    not_implemented(&put, &mut response);
    assert_eq!(response.message.code, 0xa1);
    assert_eq!(response.message.payload, b"method not implemented: Put -> a/b");
    not_found(&put, &mut response);
    assert_eq!(response.message.code, 0x84);
    assert_eq!(response.message.payload, b"resource not found:  a/b");
    assert_eq!(response.message.token, vec![1]);
}

#[test]
fn resources_of_different_types_stand_in_one_server() {
    let mut manager: CoapStateManager<Box<dyn Resource>> = CoapStateManager::new();
    assert!(!manager.add_dyn_resource(Box::new(InfoResource {})));
    assert!(manager.add_resource(Box::new(InfoResource {})));
    let answer = manager.answer_datagram(&message(0x40, 1, &[], b"info"));
    match answer {
        CoapAnswer::Reply(bytes) => {
            assert_eq!(bytes, expected(0x60, 0x43, &[], "this is written in rust :P"))
        }
        _ => panic!("no reply"),
    }
    assert_eq!(InfoResource {}.name(), "info");
}

#[test]
fn fresh_responses_are_those_of_coap_lite() {
    let kinds = [
        (MessageType::Confirmable, coap_lite::MessageType::Confirmable),
        (MessageType::NonConfirmable, coap_lite::MessageType::NonConfirmable),
        (MessageType::Acknowledgement, coap_lite::MessageType::Acknowledgement),
        (MessageType::Reset, coap_lite::MessageType::Reset),
    ];
    for (kind, theirs) in kinds {
        let mut ours = request(1, &[b"info"]).message;
        ours.kind = kind;
        let mut packet = coap_lite::Packet::new();
        packet.header.set_type(theirs);
        packet.header.code = MessageClass::from(1);
        packet.header.message_id = 7;
        packet.set_token(vec![1]);
        let response = CoapResponse::new(&ours);
        let reference = coap_lite::CoapResponse::new(&packet);
        assert_eq!(response.is_some(), reference.is_some());
        if let (Some(response), Some(reference)) = (response, reference) {
            let message = response.message;
            assert_eq!(message.code, u8::from(reference.message.header.code));
            assert_eq!(message.message_id, reference.message.header.message_id);
            assert_eq!(message.token, reference.message.get_token());
            assert_eq!(message.payload, reference.message.payload);
            assert_eq!(reference.message.options().count(), 0);
            let answered = kinds.iter().find(|(_, t)| *t == reference.message.header.get_type());
            assert_eq!(Some(message.kind), answered.map(|(kind, _)| *kind));
        }
    }
}

#[test]
fn status_codes_are_those_of_coap_lite() {
    let codes = [
        (ResponseType::Success(Success::Created), coap_lite::ResponseType::Created),
        (ResponseType::Success(Success::Deleted), coap_lite::ResponseType::Deleted),
        (ResponseType::Success(Success::Valid), coap_lite::ResponseType::Valid),
        (ResponseType::Success(Success::Changed), coap_lite::ResponseType::Changed),
        (ResponseType::Success(Success::Content), coap_lite::ResponseType::Content),
        (ResponseType::Success(Success::Continue), coap_lite::ResponseType::Continue),
        (ResponseType::ClientError(ClientError::BadRequest), coap_lite::ResponseType::BadRequest),
        (ResponseType::ClientError(ClientError::Unauthorized), coap_lite::ResponseType::Unauthorized),
        (ResponseType::ClientError(ClientError::BadOption), coap_lite::ResponseType::BadOption),
        (ResponseType::ClientError(ClientError::Forbidden), coap_lite::ResponseType::Forbidden),
        (ResponseType::ClientError(ClientError::NotFound), coap_lite::ResponseType::NotFound),
        (ResponseType::ClientError(ClientError::MethodNotAllowed), coap_lite::ResponseType::MethodNotAllowed),
        (ResponseType::ClientError(ClientError::NotAcceptable), coap_lite::ResponseType::NotAcceptable),
        (ResponseType::ClientError(ClientError::Conflict), coap_lite::ResponseType::Conflict),
        (ResponseType::ClientError(ClientError::PreconditionFailed), coap_lite::ResponseType::PreconditionFailed),
        (ResponseType::ClientError(ClientError::RequestEntityTooLarge), coap_lite::ResponseType::RequestEntityTooLarge),
        (ResponseType::ClientError(ClientError::UnsupportedContentFormat), coap_lite::ResponseType::UnsupportedContentFormat),
        (ResponseType::ClientError(ClientError::RequestEntityIncomplete), coap_lite::ResponseType::RequestEntityIncomplete),
        (ResponseType::ClientError(ClientError::UnprocessableEntity), coap_lite::ResponseType::UnprocessableEntity),
        (ResponseType::ClientError(ClientError::TooManyRequests), coap_lite::ResponseType::TooManyRequests),
        (ResponseType::ServerError(ServerError::InternalServerError), coap_lite::ResponseType::InternalServerError),
        (ResponseType::ServerError(ServerError::NotImplemented), coap_lite::ResponseType::NotImplemented),
        (ResponseType::ServerError(ServerError::BadGateway), coap_lite::ResponseType::BadGateway),
        (ResponseType::ServerError(ServerError::ServiceUnavailable), coap_lite::ResponseType::ServiceUnavailable),
        (ResponseType::ServerError(ServerError::GatewayTimeout), coap_lite::ResponseType::GatewayTimeout),
        (ResponseType::ServerError(ServerError::ProxyingNotSupported), coap_lite::ResponseType::ProxyingNotSupported),
        (ResponseType::ServerError(ServerError::HopLimitReached), coap_lite::ResponseType::HopLimitReached),
        (ResponseType::UnKnown, coap_lite::ResponseType::UnKnown),
    ];
    for (ours, theirs) in codes {
        assert_eq!(ours.code(), u8::from(MessageClass::Response(theirs)));
        let mut response = CoapResponse::new(&request(1, &[]).message).unwrap();
        response.set_status(ours);
        assert_eq!(response.message.code, ours.code());
    }
}

#[test]
fn status_codes() {
    assert_eq!(ResponseType::Success(Success::Valid).code(), 0x43);
    assert_eq!(ResponseType::ClientError(ClientError::NotFound).code(), 0x84);
    assert_eq!(ResponseType::ServerError(ServerError::NotImplemented).code(), 0xa1);
    assert_eq!(ResponseType::UnKnown.code(), 0xff);
}
