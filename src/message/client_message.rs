//! The variants of the envelope a client sends.

use vstd::prelude::*;
use crate::message::{AddRequest, EchoMessage, RequestV};

verus! {

/// A request: exactly one of the two operations.
#[derive(Clone, Debug)]
pub enum Message {
    EchoMessage(EchoMessage),
    AddRequest(AddRequest),
}

impl View for Message {
    type V = RequestV;

    open spec fn view(&self) -> RequestV {
        match self {
            Message::EchoMessage(e) => RequestV::Echo(e.content@),
            Message::AddRequest(r) => RequestV::Add(r.a, r.b),
        }
    }
}

} // verus!
