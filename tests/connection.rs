use embedded_recruitment_task::codec::{ClientMessageWrapper, ServerMessageWrapper};
use embedded_recruitment_task::connection::{handle_bytes, on_read, ReadOutcome, Step, READ_BUFFER_SIZE};
use embedded_recruitment_task::message::{client_message, server_message, AddRequest, EchoMessage};

fn echo_bytes(text: &str) -> Vec<u8> {
    ClientMessageWrapper {
        message: Some(client_message::Message::EchoMessage(EchoMessage { content: text.to_string() })),
    }
    .encode_to_vec()
}

fn add_bytes(a: i32, b: i32) -> Vec<u8> {
    ClientMessageWrapper {
        message: Some(client_message::Message::AddRequest(AddRequest { a, b })),
    }
    .encode_to_vec()
}

fn reply_of(step: Step) -> Vec<u8> {
    match step {
        Step::Reply(bytes) => bytes,
        other => panic!("expected a reply, got {:?}", other),
    }
}

fn echoed_text(step: Step) -> String {
    match ServerMessageWrapper::decode(&reply_of(step)) {
        Ok(ServerMessageWrapper { message: Some(server_message::Message::EchoMessage(e)) }) => e.content,
        other => panic!("Expected EchoMessage, but received {:?}", other),
    }
}

fn sum_of(step: Step) -> i32 {
    match ServerMessageWrapper::decode(&reply_of(step)) {
        Ok(ServerMessageWrapper { message: Some(server_message::Message::AddResponse(r)) }) => r.result,
        other => panic!("Expected AddResponse, but received {:?}", other),
    }
}

#[test]
fn echo_is_answered_with_same_text() {
    assert_eq!(echoed_text(on_read(ReadOutcome::Bytes(echo_bytes("Hello, World!")))), "Hello, World!");
}

#[test]
fn add_is_answered_with_sum() {
    assert_eq!(reply_of(handle_bytes(&add_bytes(10, 20))), vec![0x12, 0x02, 0x08, 30]);
    assert_eq!(reply_of(handle_bytes(&add_bytes(5, 15))), vec![0x12, 0x02, 0x08, 20]);
    // a sum of zero is left out of the response body
    assert_eq!(reply_of(handle_bytes(&add_bytes(-3, 3))), vec![0x12, 0x00]);
    assert_eq!(sum_of(handle_bytes(&add_bytes(-3, 3))), 0);
    assert_eq!(sum_of(handle_bytes(&add_bytes(-40, 2))), -38);
    assert_eq!(sum_of(handle_bytes(&add_bytes(i32::MAX, 1))), i32::MIN);
}

#[test]
fn large_echo_is_answered_byte_for_byte() {
    let text = "x".repeat(10000);
    let request = echo_bytes(&text);
    let reply = reply_of(handle_bytes(&request));
    let expected = ServerMessageWrapper {
        message: Some(server_message::Message::EchoMessage(EchoMessage { content: text })),
    };
    assert_eq!(reply, expected.encode_to_vec());
    assert_eq!(echoed_text(Step::Reply(reply)), "x".repeat(10000));
}

#[test]
fn empty_echo_is_answered() {
    assert_eq!(reply_of(handle_bytes(&echo_bytes(""))), vec![0x0a, 0x00]);
}

#[test]
fn zero_byte_read_closes() {
    assert!(matches!(on_read(ReadOutcome::Bytes(Vec::new())), Step::Close));
}

#[test]
fn would_block_waits_and_failure_closes() {
    assert!(matches!(on_read(ReadOutcome::WouldBlock), Step::Wait));
    assert!(matches!(on_read(ReadOutcome::Failed), Step::Close));
}

#[test]
fn envelope_without_request_is_ignored() {
    assert!(matches!(on_read(ReadOutcome::Bytes(vec![0x18, 0x05])), Step::IgnoreEmpty));
}

#[test]
fn malformed_read_keeps_connection_then_answers() {
    assert!(matches!(on_read(ReadOutcome::Bytes(vec![0xff, 0xff, 0xff])), Step::IgnoreMalformed));
    assert_eq!(echoed_text(on_read(ReadOutcome::Bytes(echo_bytes("after")))), "after");
}

#[test]
fn sequential_requests_answered_in_order() {
    let texts = ["Hello, World!", "How are you?", "Goodbye!"];
    for t in texts.iter() {
        assert_eq!(echoed_text(handle_bytes(&echo_bytes(t))), *t);
    }
}

#[test]
fn independent_connections_get_their_own_sums() {
    let requests: Vec<Vec<u8>> = (0..10).map(|i| add_bytes(10 + i, 20)).collect();
    let replies: Vec<Vec<u8>> = requests.iter().map(|r| reply_of(handle_bytes(r))).collect();
    for (i, reply) in replies.iter().enumerate() {
        assert_eq!(*reply, vec![0x12, 0x02, 0x08, (30 + i) as u8]);
    }
}

#[test]
fn read_buffer_size_is_512() {
    assert_eq!(READ_BUFFER_SIZE, 512);
}
