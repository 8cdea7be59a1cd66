use embedded_recruitment_task::codec::{ClientMessageWrapper, CodecError, ServerMessageWrapper};
use embedded_recruitment_task::message::{
    add_wrapping, client_message, respond, server_message, AddRequest, AddResponse, EchoMessage,
};

fn echo_request(text: &str) -> ClientMessageWrapper {
    ClientMessageWrapper {
        message: Some(client_message::Message::EchoMessage(EchoMessage {
            content: text.to_string(),
        })),
    }
}

fn add_request(a: i32, b: i32) -> ClientMessageWrapper {
    ClientMessageWrapper {
        message: Some(client_message::Message::AddRequest(AddRequest { a, b })),
    }
}

#[test]
fn add_wrapping_sums_and_wraps() {
    assert_eq!(add_wrapping(10, 20), 30);
    assert_eq!(add_wrapping(5, 15), 20);
    assert_eq!(add_wrapping(-7, 3), -4);
    assert_eq!(add_wrapping(i32::MAX, 1), i32::MIN);
    assert_eq!(add_wrapping(i32::MIN, -1), i32::MAX);
}

#[test]
fn respond_echoes_text() {
    let req = client_message::Message::EchoMessage(EchoMessage {
        content: "Hello, World!".to_string(),
    });
    match respond(req) {
        server_message::Message::EchoMessage(e) => assert_eq!(e.content, "Hello, World!"),
        other => panic!("unexpected response {:?}", other),
    }
}

#[test]
fn respond_adds() {
    match respond(client_message::Message::AddRequest(AddRequest { a: 10, b: 20 })) {
        server_message::Message::AddResponse(r) => assert_eq!(r.result, 30),
        other => panic!("unexpected response {:?}", other),
    }
    match respond(client_message::Message::AddRequest(AddRequest { a: 5, b: 15 })) {
        server_message::Message::AddResponse(r) => assert_eq!(r.result, 20),
        other => panic!("unexpected response {:?}", other),
    }
}

#[test]
fn encode_add_request_bytes() {
    assert_eq!(add_request(10, 20).encode_to_vec(), vec![0x12, 0x04, 0x08, 0x0a, 0x10, 0x14]);
    // zero fields are left out
    assert_eq!(add_request(0, 20).encode_to_vec(), vec![0x12, 0x02, 0x10, 0x14]);
    assert_eq!(add_request(0, 0).encode_to_vec(), vec![0x12, 0x00]);
    // a two-byte varint
    assert_eq!(add_request(300, 0).encode_to_vec(), vec![0x12, 0x03, 0x08, 0xac, 0x02]);
}

#[test]
fn encode_negative_is_ten_byte_varint() {
    let bytes = add_request(-1, 0).encode_to_vec();
    let mut expected = vec![0x12, 0x0b, 0x08];
    expected.extend_from_slice(&[0xff; 9]);
    expected.push(0x01);
    assert_eq!(bytes, expected);
}

#[test]
fn encode_echo_request_bytes() {
    let bytes = echo_request("Hi").encode_to_vec();
    assert_eq!(bytes, vec![0x0a, 0x04, 0x0a, 0x02, b'H', b'i']);
    assert_eq!(echo_request("").encode_to_vec(), vec![0x0a, 0x00]);
    assert_eq!(ClientMessageWrapper { message: None }.encode_to_vec(), Vec::<u8>::new());
}

#[test]
fn encode_server_envelopes() {
    let sum = ServerMessageWrapper {
        message: Some(server_message::Message::AddResponse(AddResponse { result: 30 })),
    };
    assert_eq!(sum.encode_to_vec(), vec![0x12, 0x02, 0x08, 0x1e]);
    let echo = ServerMessageWrapper {
        message: Some(server_message::Message::EchoMessage(EchoMessage { content: "ok".to_string() })),
    };
    assert_eq!(echo.encode_to_vec(), vec![0x0a, 0x04, 0x0a, 0x02, b'o', b'k']);
}

#[test]
fn encoding_matches_prost_primitives() {
    let mut expected = Vec::new();
    prost::encoding::encode_varint(0x12, &mut expected);
    let mut body = Vec::new();
    prost::encoding::int32::encode(1, &-5, &mut body);
    prost::encoding::int32::encode(2, &70000, &mut body);
    prost::encoding::encode_varint(body.len() as u64, &mut expected);
    expected.extend_from_slice(&body);
    assert_eq!(add_request(-5, 70000).encode_to_vec(), expected);
}

fn decoded_echo(bytes: &[u8]) -> String {
    match ClientMessageWrapper::decode(bytes) {
        Ok(ClientMessageWrapper { message: Some(client_message::Message::EchoMessage(e)) }) => e.content,
        other => panic!("expected an echo request, got {:?}", other),
    }
}

fn decoded_add(bytes: &[u8]) -> (i32, i32) {
    match ClientMessageWrapper::decode(bytes) {
        Ok(ClientMessageWrapper { message: Some(client_message::Message::AddRequest(r)) }) => (r.a, r.b),
        other => panic!("expected an add request, got {:?}", other),
    }
}

#[test]
fn decode_round_trips() {
    assert_eq!(decoded_echo(&echo_request("Hello, World!").encode_to_vec()), "Hello, World!");
    assert_eq!(decoded_echo(&echo_request("").encode_to_vec()), "");
    assert_eq!(decoded_echo(&echo_request("grüße, 世界").encode_to_vec()), "grüße, 世界");
    assert_eq!(decoded_add(&add_request(10, 20).encode_to_vec()), (10, 20));
    assert_eq!(decoded_add(&add_request(i32::MIN, i32::MAX).encode_to_vec()), (i32::MIN, i32::MAX));
    assert_eq!(decoded_add(&add_request(0, 0).encode_to_vec()), (0, 0));
}

#[test]
fn decode_large_echo() {
    let text = "a".repeat(10000);
    assert_eq!(decoded_echo(&echo_request(&text).encode_to_vec()), text);
}

#[test]
fn decode_empty_and_unknown_fields() {
    match ClientMessageWrapper::decode(&[]) {
        Ok(w) => assert!(w.message.is_none()),
        Err(e) => panic!("unexpected error {:?}", e),
    }
    // field 3, varint 5: passed over
    match ClientMessageWrapper::decode(&[0x18, 0x05]) {
        Ok(w) => assert!(w.message.is_none()),
        Err(e) => panic!("unexpected error {:?}", e),
    }
    // an unknown field inside the request is passed over too
    assert_eq!(decoded_add(&[0x12, 0x06, 0x08, 0x01, 0x18, 0x07, 0x10, 0x02]), (1, 2));
}

#[test]
fn decode_merges_repeated_requests() {
    // two AddRequest fields, one with a, the next with b
    assert_eq!(decoded_add(&[0x12, 0x02, 0x08, 0x01, 0x12, 0x02, 0x10, 0x02]), (1, 2));
    // an echo after an add replaces it
    assert_eq!(decoded_echo(&[0x12, 0x02, 0x08, 0x01, 0x0a, 0x03, 0x0a, 0x01, b'z']), "z");
    // an echo without content keeps the content before it
    assert_eq!(decoded_echo(&[0x0a, 0x03, 0x0a, 0x01, b'z', 0x0a, 0x00]), "z");
}

#[test]
fn decode_malformed_inputs() {
    let cases: Vec<Vec<u8>> = vec![
        vec![0xff],
        vec![0x0a, 0x05, 0x01],
        vec![0x0a, 0x03, 0x0a, 0x01, 0xff],
        vec![0x08, 0x01],
        vec![0x12, 0x02, 0x0a, 0x00],
        vec![0x00],
        vec![0x0c],
        vec![0x12, 0x01, 0x08, 0x01],
    ];
    for bytes in cases {
        assert_eq!(ClientMessageWrapper::decode(&bytes).err(), Some(CodecError::Malformed), "{:?}", bytes);
    }
}

#[test]
fn decode_server_envelopes() {
    match ServerMessageWrapper::decode(&[0x12, 0x02, 0x08, 0x1e]) {
        Ok(ServerMessageWrapper { message: Some(server_message::Message::AddResponse(r)) }) => {
            assert_eq!(r.result, 30)
        }
        other => panic!("expected an add response, got {:?}", other),
    }
    match ServerMessageWrapper::decode(&[0x0a, 0x04, 0x0a, 0x02, b'o', b'k']) {
        Ok(ServerMessageWrapper { message: Some(server_message::Message::EchoMessage(e)) }) => {
            assert_eq!(e.content, "ok")
        }
        other => panic!("expected an echo response, got {:?}", other),
    }
    match ServerMessageWrapper::decode(&[]) {
        Ok(w) => assert!(w.message.is_none()),
        Err(e) => panic!("unexpected error {:?}", e),
    }
    // field 2 of an AddResponse is unknown and passed over
    match ServerMessageWrapper::decode(&[0x12, 0x04, 0x10, 0x07, 0x08, 0x02]) {
        Ok(ServerMessageWrapper { message: Some(server_message::Message::AddResponse(r)) }) => {
            assert_eq!(r.result, 2)
        }
        other => panic!("expected an add response, got {:?}", other),
    }
    assert_eq!(ServerMessageWrapper::decode(&[0x12, 0x05, 0x08]).err(), Some(CodecError::Malformed));
}
