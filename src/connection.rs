//! What a connection does with each read: answer, ignore, wait or close.
//! The reads and writes themselves belong to the caller, which runs the
//! loop: read, ask `on_read`, carry out the step, until it says `Close`.
//!
//! Each read is taken as exactly one envelope: a message split over two
//! reads, or two messages joined in one, are not reassembled. The wire
//! format has no framing of its own to do it with.

use vstd::prelude::*;
use crate::codec::{
    client_bytes, client_decode, lemma_client_round_trip, lemma_server_round_trip, request_fits,
    server_bytes, server_decode,
    ClientMessageWrapper, ServerMessageWrapper,
};
use crate::message::{respond, response_to, RequestV, ResponseV};
use vstd::utf8::encode_utf8;

verus! {

/// The most bytes one read takes from a connection.
pub const READ_BUFFER_SIZE: usize = 512;

/// What one read from a connection gave.
#[derive(Debug)]
pub enum ReadOutcome {
    /// Bytes arrived; none at all means the peer closed the connection.
    Bytes(Vec<u8>),
    /// Nothing to read yet.
    WouldBlock,
    /// The read failed.
    Failed,
}

/// What the connection does next.
#[derive(Debug)]
pub enum Step {
    /// Write these bytes back, then read again.
    Reply(Vec<u8>),
    /// The envelope held no request: warn, then read again.
    IgnoreEmpty,
    /// The bytes were not an envelope: report it, then read again.
    IgnoreMalformed,
    /// Sleep one polling interval, then read again.
    Wait,
    /// Stop serving this connection.
    Close,
}

/// The step, as the contracts see it.
pub enum StepV {
    Reply(Seq<u8>),
    IgnoreEmpty,
    IgnoreMalformed,
    Wait,
    Close,
}

impl View for Step {
    type V = StepV;

    open spec fn view(&self) -> StepV {
        match self {
            Step::Reply(b) => StepV::Reply(b@),
            Step::IgnoreEmpty => StepV::IgnoreEmpty,
            Step::IgnoreMalformed => StepV::IgnoreMalformed,
            Step::Wait => StepV::Wait,
            Step::Close => StepV::Close,
        }
    }
}

/// The step for a read that gave the bytes `b`, none of them the last.
pub open spec fn step_for_bytes(b: Seq<u8>) -> StepV {
    match client_decode(b) {
        None => StepV::IgnoreMalformed,
        Some(None) => StepV::IgnoreEmpty,
        Some(Some(req)) => StepV::Reply(server_bytes(Some(response_to(req)))),
    }
}

/// The step for what one read gave.
pub open spec fn step_for(bytes: Option<Seq<u8>>, would_block: bool) -> StepV {
    match bytes {
        Some(b) => if b.len() == 0 { StepV::Close } else { step_for_bytes(b) },
        None => if would_block { StepV::Wait } else { StepV::Close },
    }
}

/// Answers the bytes of one non-empty read: the encoded response to the
/// request they hold, or why there is none.
pub fn handle_bytes(bytes: &[u8]) -> (r: Step)
    ensures
        r@ == step_for_bytes(bytes@),
{
    match ClientMessageWrapper::decode(bytes) {
        Err(_) => Step::IgnoreMalformed,
        Ok(w) => match w.message {
            None => Step::IgnoreEmpty,
            Some(req) => {
                let resp = ServerMessageWrapper { message: Some(respond(req)) };
                Step::Reply(resp.encode_to_vec())
            },
        },
    }
}

/// Decides what a connection does after one read.
pub fn on_read(outcome: ReadOutcome) -> (r: Step)
    ensures
        r@ == match outcome {
            ReadOutcome::Bytes(b) => step_for(Some(b@), false),
            ReadOutcome::WouldBlock => step_for(None, true),
            ReadOutcome::Failed => step_for(None, false),
        },
{
    match outcome {
        ReadOutcome::Bytes(b) => if b.len() == 0 {
            Step::Close
        } else {
            handle_bytes(b.as_slice())
        },
        ReadOutcome::WouldBlock => Step::Wait,
        ReadOutcome::Failed => Step::Close,
    }
}

/// A read that holds one encoded request is answered with the encoded
/// response to it, which the client decodes back to that response.
pub proof fn lemma_request_answered(req: RequestV)
    requires
        request_fits(req),
    ensures
        step_for(Some(client_bytes(Some(req))), false) == StepV::Reply(server_bytes(Some(response_to(req)))),
        server_decode(server_bytes(Some(response_to(req)))) == Some(Some(response_to(req))),
{
    lemma_client_round_trip(req);
    lemma_server_round_trip(response_to(req));
}

/// An echo request is answered with an echo response holding the same
/// text, byte for byte.
pub proof fn lemma_echo_answered(s: Seq<char>)
    requires
        encode_utf8(s).len() <= isize::MAX,
    ensures
        step_for(Some(client_bytes(Some(RequestV::Echo(s)))), false)
            == StepV::Reply(server_bytes(Some(ResponseV::Echo(s)))),
        server_decode(server_bytes(Some(ResponseV::Echo(s)))) == Some(Some(ResponseV::Echo(s))),
{
    lemma_request_answered(RequestV::Echo(s));
}

/// An addition whose sum fits an `i32` is answered with that sum.
pub proof fn lemma_add_answered(a: i32, b: i32)
    requires
        i32::MIN <= a + b <= i32::MAX,
    ensures
        step_for(Some(client_bytes(Some(RequestV::Add(a, b)))), false)
            == StepV::Reply(server_bytes(Some(ResponseV::Add((a + b) as i32)))),
        server_decode(server_bytes(Some(ResponseV::Add((a + b) as i32))))
            == Some(Some(ResponseV::Add((a + b) as i32))),
{
    lemma_request_answered(RequestV::Add(a, b));
}

/// Requests sent one after another on a connection, one per read, are
/// answered in the order they were sent: the i-th reply answers the i-th
/// request.
pub proof fn lemma_replies_in_order(reqs: Seq<RequestV>)
    requires
        forall|i: int| 0 <= i < reqs.len() ==> request_fits(#[trigger] reqs[i]),
    ensures
        reqs.map_values(|r: RequestV| step_for(Some(client_bytes(Some(r))), false))
            == reqs.map_values(|r: RequestV| StepV::Reply(server_bytes(Some(response_to(r))))),
{
    assert forall|i: int| 0 <= i < reqs.len() implies
        step_for(Some(client_bytes(Some(#[trigger] reqs[i]))), false)
            == StepV::Reply(server_bytes(Some(response_to(reqs[i])))) by {
        lemma_request_answered(reqs[i]);
    }
    assert(reqs.map_values(|r: RequestV| step_for(Some(client_bytes(Some(r))), false))
        =~= reqs.map_values(|r: RequestV| StepV::Reply(server_bytes(Some(response_to(r))))));
}

/// Malformed bytes do not close the connection, and a well-formed request
/// read after them is still answered.
pub proof fn lemma_malformed_then_answered(bad: Seq<u8>, req: RequestV)
    requires
        bad.len() > 0,
        client_decode(bad) is None,
        request_fits(req),
    ensures
        step_for(Some(bad), false) == StepV::IgnoreMalformed,
        step_for(Some(client_bytes(Some(req))), false) == StepV::Reply(server_bytes(Some(response_to(req)))),
{
    lemma_request_answered(req);
}

} // verus!
