//! The message types carried in the envelopes, and the dispatcher.

pub mod client_message;
pub mod server_message;

use vstd::prelude::*;

verus! {

/// Text sent to the server and echoed back unchanged.
#[derive(Clone, Debug, Default)]
pub struct EchoMessage {
    pub content: String,
}

/// Two integers whose sum is requested.
#[derive(Clone, Copy, Debug, Default, PartialEq, Eq)]
pub struct AddRequest {
    pub a: i32,
    pub b: i32,
}

/// The sum of an `AddRequest`.
#[derive(Clone, Copy, Debug, Default, PartialEq, Eq)]
pub struct AddResponse {
    pub result: i32,
}

/// The value of a request, as the contracts see it.
pub enum RequestV {
    Echo(Seq<char>),
    Add(i32, i32),
}

/// The value of a response, as the contracts see it.
pub enum ResponseV {
    Echo(Seq<char>),
    Add(i32),
}

/// The sum of two `i32` in the width of the wire type, wrapping on overflow.
pub open spec fn sum_i32(a: i32, b: i32) -> i32 {
    let s = a as int + b as int;
    if s > i32::MAX as int {
        (s - 0x1_0000_0000) as i32
    } else if s < i32::MIN as int {
        (s + 0x1_0000_0000) as i32
    } else {
        s as i32
    }
}

/// What the dispatcher answers to a request.
pub open spec fn response_to(req: RequestV) -> ResponseV {
    match req {
        RequestV::Echo(s) => ResponseV::Echo(s),
        RequestV::Add(a, b) => ResponseV::Add(sum_i32(a, b)),
    }
}

/// Adds two `i32` the way the wire type does, wrapping on overflow.
pub fn add_wrapping(a: i32, b: i32) -> (r: i32)
    ensures
        r == sum_i32(a, b),
        i32::MIN <= a + b <= i32::MAX ==> r == a + b,
{
    let s: i64 = a as i64 + b as i64;
    if s > i32::MAX as i64 {
        (s - 0x1_0000_0000) as i32
    } else if s < i32::MIN as i64 {
        (s + 0x1_0000_0000) as i32
    } else {
        s as i32
    }
}

/// Answers one request: an echo returns its text unchanged, an addition
/// returns the sum of its two operands.
pub fn respond(req: client_message::Message) -> (r: server_message::Message)
    ensures
        r@ == response_to(req@),
{
    match req {
        client_message::Message::EchoMessage(e) => server_message::Message::EchoMessage(e),
        client_message::Message::AddRequest(q) => server_message::Message::AddResponse(
            AddResponse { result: add_wrapping(q.a, q.b) },
        ),
    }
}

} // verus!
