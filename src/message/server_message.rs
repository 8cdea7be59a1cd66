//! The variants of the envelope the server sends back.

use vstd::prelude::*;
use crate::message::{AddResponse, EchoMessage, ResponseV};

verus! {

/// A response: exactly one of the two results.
#[derive(Clone, Debug)]
pub enum Message {
    EchoMessage(EchoMessage),
    AddResponse(AddResponse),
}

impl View for Message {
    type V = ResponseV;

    open spec fn view(&self) -> ResponseV {
        match self {
            Message::EchoMessage(e) => ResponseV::Echo(e.content@),
            Message::AddResponse(r) => ResponseV::Add(r.result),
        }
    }
}

} // verus!
