//! The two envelopes and their protobuf encoding. A client envelope holds
//! an `EchoMessage` as field 1 or an `AddRequest` as field 2; a server
//! envelope an `EchoMessage` as field 1 or an `AddResponse` as field 2.
//! Inside them `EchoMessage.content` is field 1, `AddRequest.a` and `.b`
//! are fields 1 and 2, `AddResponse.result` is field 1. Fields holding
//! their default value are left out, as proto3 does.

use vstd::prelude::*;
use vstd::utf8::{decode_utf8, encode_utf8, encode_utf8_decode_utf8, encode_utf8_valid_utf8, valid_utf8};
use crate::message::{client_message, server_message, AddRequest, AddResponse, EchoMessage, RequestV, ResponseV};
use crate::varint::{lemma_varint_len, lemma_varint_round_trip, put_varint, read_varint, varint_at, varint_bytes};
use crate::wire::{
    delimited_at, int32_at, key_at, key_bytes, merge_int32, merge_string, put_int32, put_string,
    i32_of_u64, read_key, skip_at, skip_value, string_at, u64_of_i32, WIRE_LEN,
};

verus! {

/// What a client sends: one request, or none.
#[derive(Clone, Debug)]
pub struct ClientMessageWrapper {
    pub message: Option<client_message::Message>,
}

/// What the server sends back: one response, or none.
#[derive(Clone, Debug)]
pub struct ServerMessageWrapper {
    pub message: Option<server_message::Message>,
}

impl View for ClientMessageWrapper {
    type V = Option<RequestV>;

    open spec fn view(&self) -> Option<RequestV> {
        match self.message {
            Some(m) => Some(m@),
            None => None,
        }
    }
}

impl View for ServerMessageWrapper {
    type V = Option<ResponseV>;

    open spec fn view(&self) -> Option<ResponseV> {
        match self.message {
            Some(m) => Some(m@),
            None => None,
        }
    }
}

/// Why bytes could not be read as an envelope.
#[derive(Clone, Copy, Debug, PartialEq, Eq)]
pub enum CodecError {
    Malformed,
}

/// An `int32` field, left out when zero.
pub open spec fn int_field(tag: nat, x: i32) -> Seq<u8> {
    if x == 0 {
        Seq::empty()
    } else {
        key_bytes(tag, 0) + varint_bytes(u64_of_i32(x))
    }
}

/// A `string` field, left out when empty.
pub open spec fn string_field(tag: nat, s: Seq<char>) -> Seq<u8> {
    if s.len() == 0 {
        Seq::empty()
    } else {
        key_bytes(tag, 2) + varint_bytes(encode_utf8(s).len()) + encode_utf8(s)
    }
}

/// A nested message as field `tag`: key, length, body.
pub open spec fn nested_field(tag: nat, body: Seq<u8>) -> Seq<u8> {
    key_bytes(tag, 2) + varint_bytes(body.len()) + body
}

/// The encoding of a client envelope.
pub open spec fn client_bytes(m: Option<RequestV>) -> Seq<u8> {
    match m {
        None => Seq::empty(),
        Some(RequestV::Echo(s)) => nested_field(1, string_field(1, s)),
        Some(RequestV::Add(a, b)) => nested_field(2, int_field(1, a) + int_field(2, b)),
    }
}

/// The encoding of a server envelope.
pub open spec fn server_bytes(m: Option<ResponseV>) -> Seq<u8> {
    match m {
        None => Seq::empty(),
        Some(ResponseV::Echo(s)) => nested_field(1, string_field(1, s)),
        Some(ResponseV::Add(r)) => nested_field(2, int_field(1, r)),
    }
}

fn put_echo_body(e: &EchoMessage, buf: &mut Vec<u8>)
    ensures
        final(buf)@ == old(buf)@ + string_field(1, e.content@),
{
    if !e.content.as_str().is_empty() {
        put_string(1, &e.content, buf);
    } else {
        assert(old(buf)@ + Seq::empty() =~= old(buf)@);
    }
}

fn put_int_field(tag: u32, x: i32, buf: &mut Vec<u8>)
    requires
        1 <= tag <= 2,
    ensures
        final(buf)@ == old(buf)@ + int_field(tag as nat, x),
{
    if x != 0 {
        put_int32(tag, x, buf);
    } else {
        assert(old(buf)@ + Seq::empty() =~= old(buf)@);
    }
}

fn put_nested(tag: u32, body: Vec<u8>, buf: &mut Vec<u8>)
    requires
        1 <= tag <= 2,
    ensures
        final(buf)@ == old(buf)@ + nested_field(tag as nat, body@),
{
    let mut body = body;
    put_varint(tag as u64 * 8 + 2, buf);
    put_varint(body.len() as u64, buf);
    let ghost b = body@;
    buf.append(&mut body);
    assert(final(buf)@ =~= old(buf)@ + nested_field(tag as nat, b));
}


/// The fields of an `EchoMessage` from `pos` up to `end`, merged into
/// `content`: the last `content` field wins, unknown fields are passed
/// over. Gives the content and where reading stopped, which must be `end`.
pub open spec fn echo_fields(s: Seq<u8>, pos: nat, end: nat, content: Seq<char>) -> Option<(Seq<char>, nat)>
    decreases s.len() - pos,
{
    if pos >= end {
        if pos == end { Some((content, pos)) } else { None }
    } else {
        match key_at(s.skip(pos as int)) {
            None => None,
            Some((tag, wt, n)) => {
                let p = pos + n;
                let step: Option<(Seq<char>, nat)> = if tag == 1 {
                    match string_at(wt, s.skip(p as int)) {
                        Some((c, m)) => Some((c, p + m)),
                        None => None,
                    }
                } else {
                    match skip_at(wt, tag, s.skip(p as int)) {
                        Some(m) => Some((content, p + m)),
                        None => None,
                    }
                };
                match step {
                    Some((c, q)) => if pos < q && q <= s.len() {
                        echo_fields(s, q, end, c)
                    } else {
                        None
                    },
                    None => None,
                }
            },
        }
    }
}

/// The fields of an `AddRequest` from `pos` up to `end`, merged into
/// `(a, b)`, as `echo_fields` does.
pub open spec fn add_fields(s: Seq<u8>, pos: nat, end: nat, ab: (i32, i32)) -> Option<((i32, i32), nat)>
    decreases s.len() - pos,
{
    if pos >= end {
        if pos == end { Some((ab, pos)) } else { None }
    } else {
        match key_at(s.skip(pos as int)) {
            None => None,
            Some((tag, wt, n)) => {
                let p = pos + n;
                let step: Option<((i32, i32), nat)> = if tag == 1 {
                    match int32_at(wt, s.skip(p as int)) {
                        Some((v, m)) => Some(((v, ab.1), p + m)),
                        None => None,
                    }
                } else if tag == 2 {
                    match int32_at(wt, s.skip(p as int)) {
                        Some((v, m)) => Some(((ab.0, v), p + m)),
                        None => None,
                    }
                } else {
                    match skip_at(wt, tag, s.skip(p as int)) {
                        Some(m) => Some((ab, p + m)),
                        None => None,
                    }
                };
                match step {
                    Some((c, q)) => if pos < q && q <= s.len() {
                        add_fields(s, q, end, c)
                    } else {
                        None
                    },
                    None => None,
                }
            },
        }
    }
}

/// The span of a nested message with wire type `wt` at `p`.
pub open spec fn nested_span(wt: u8, s: Seq<u8>, p: nat) -> Option<(nat, nat)> {
    if wt != WIRE_LEN {
        None
    } else {
        match delimited_at(s.skip(p as int)) {
            Some((b, e)) => Some((p + b, p + e)),
            None => None,
        }
    }
}

/// The request that field `tag` at `p` leaves, merged into `cur`, and
/// where it ends; `cur` itself for a field the envelope does not know.
pub open spec fn client_step(tag: u32, wt: u8, s: Seq<u8>, p: nat, cur: Option<RequestV>) -> Option<(Option<RequestV>, nat)> {
    if tag == 1 {
        let init = match cur {
            Some(RequestV::Echo(c)) => c,
            _ => Seq::empty(),
        };
        match nested_span(wt, s, p) {
            Some((b, e)) => match echo_fields(s, b, e, init) {
                Some((c, q)) => Some((Some(RequestV::Echo(c)), q)),
                None => None,
            },
            None => None,
        }
    } else if tag == 2 {
        let init: (i32, i32) = match cur {
            Some(RequestV::Add(a, b)) => (a, b),
            _ => (0, 0),
        };
        match nested_span(wt, s, p) {
            Some((b, e)) => match add_fields(s, b, e, init) {
                Some((ab, q)) => Some((Some(RequestV::Add(ab.0, ab.1)), q)),
                None => None,
            },
            None => None,
        }
    } else {
        match skip_at(wt, tag, s.skip(p as int)) {
            Some(m) => Some((cur, p + m)),
            None => None,
        }
    }
}

/// The client envelope's fields from `pos` to the end of `s`, merged into
/// `cur`: a request field of the kind already held merges into it, one of
/// the other kind replaces it.
pub open spec fn client_fields(s: Seq<u8>, pos: nat, cur: Option<RequestV>) -> Option<Option<RequestV>>
    decreases s.len() - pos,
{
    if pos >= s.len() {
        Some(cur)
    } else {
        match key_at(s.skip(pos as int)) {
            None => None,
            Some((tag, wt, n)) => match client_step(tag, wt, s, pos + n, cur) {
                Some((c, q)) => if pos < q && q <= s.len() {
                    client_fields(s, q, c)
                } else {
                    None
                },
                None => None,
            },
        }
    }
}

/// The client envelope that `s` decodes to, or `None` for malformed bytes.
pub open spec fn client_decode(s: Seq<u8>) -> Option<Option<RequestV>> {
    client_fields(s, 0, None)
}

fn read_echo_fields(buf: &[u8], pos: usize, end: usize, content: String) -> (r: Result<(String, usize), CodecError>)
    requires
        pos <= buf@.len(),
        end <= buf@.len(),
    ensures
        match r {
            Ok((c, q)) => echo_fields(buf@, pos as nat, end as nat, content@) == Some((c@, q as nat)),
            Err(_) => echo_fields(buf@, pos as nat, end as nat, content@) is None,
        },
    decreases buf@.len() - pos,
{
    if pos >= end {
        return if pos == end { Ok((content, pos)) } else { Err(CodecError::Malformed) };
    }
    let (tag, wt, left) = match read_key(buf, pos) {
        Ok(k) => k,
        Err(_) => return Err(CodecError::Malformed),
    };
    let p = buf.len() - left;
    let mut c = content;
    let q: usize;
    if tag == 1 {
        match merge_string(wt, &mut c, buf, p) {
            Ok(l) => q = buf.len() - l,
            Err(_) => return Err(CodecError::Malformed),
        }
    } else {
        match skip_value(wt, tag, buf, p) {
            Ok(l) => q = buf.len() - l,
            Err(_) => return Err(CodecError::Malformed),
        }
    }
    if pos < q {
        read_echo_fields(buf, q, end, c)
    } else {
        Err(CodecError::Malformed)
    }
}

fn read_add_fields(buf: &[u8], pos: usize, end: usize, a: i32, b: i32) -> (r: Result<(i32, i32, usize), CodecError>)
    requires
        pos <= buf@.len(),
        end <= buf@.len(),
    ensures
        match r {
            Ok((ra, rb, q)) => add_fields(buf@, pos as nat, end as nat, (a, b)) == Some(((ra, rb), q as nat)),
            Err(_) => add_fields(buf@, pos as nat, end as nat, (a, b)) is None,
        },
    decreases buf@.len() - pos,
{
    if pos >= end {
        return if pos == end { Ok((a, b, pos)) } else { Err(CodecError::Malformed) };
    }
    let (tag, wt, left) = match read_key(buf, pos) {
        Ok(k) => k,
        Err(_) => return Err(CodecError::Malformed),
    };
    let p = buf.len() - left;
    let mut na = a;
    let mut nb = b;
    let q: usize;
    if tag == 1 {
        match merge_int32(wt, &mut na, buf, p) {
            Ok(l) => q = buf.len() - l,
            Err(_) => return Err(CodecError::Malformed),
        }
    } else if tag == 2 {
        match merge_int32(wt, &mut nb, buf, p) {
            Ok(l) => q = buf.len() - l,
            Err(_) => return Err(CodecError::Malformed),
        }
    } else {
        match skip_value(wt, tag, buf, p) {
            Ok(l) => q = buf.len() - l,
            Err(_) => return Err(CodecError::Malformed),
        }
    }
    if pos < q {
        read_add_fields(buf, q, end, na, nb)
    } else {
        Err(CodecError::Malformed)
    }
}

fn read_nested_span(wt: u8, buf: &[u8], p: usize) -> (r: Result<(usize, usize), CodecError>)
    requires
        p <= buf@.len(),
    ensures
        match r {
            Ok((b, e)) => nested_span(wt, buf@, p as nat) == Some((b as nat, e as nat)) && b <= e <= buf@.len(),
            Err(_) => nested_span(wt, buf@, p as nat) is None,
        },
{
    if wt != WIRE_LEN {
        return Err(CodecError::Malformed);
    }
    match read_varint(buf, p) {
        Ok((len, left)) => {
            if len > left as u64 {
                Err(CodecError::Malformed)
            } else {
                let b = buf.len() - left;
                Ok((b, b + len as usize))
            }
        },
        Err(_) => Err(CodecError::Malformed),
    }
}

fn read_client_step(tag: u32, wt: u8, buf: &[u8], p: usize, cur: Option<client_message::Message>) -> (r: Result<(Option<client_message::Message>, usize), CodecError>)
    requires
        p <= buf@.len(),
        wt <= 5,
    ensures
        match r {
            Ok((c, q)) => client_step(tag, wt, buf@, p as nat, opt_view(cur)) == Some((opt_view(c), q as nat)),
            Err(_) => client_step(tag, wt, buf@, p as nat, opt_view(cur)) is None,
        },
{
    if tag == 1 {
        let init = match cur {
            Some(client_message::Message::EchoMessage(e)) => e.content,
            _ => String::new(),
        };
        let (b, e) = read_nested_span(wt, buf, p)?;
        let (c, q) = read_echo_fields(buf, b, e, init)?;
        Ok((Some(client_message::Message::EchoMessage(EchoMessage { content: c })), q))
    } else if tag == 2 {
        let (a0, b0) = match cur {
            Some(client_message::Message::AddRequest(r)) => (r.a, r.b),
            _ => (0i32, 0i32),
        };
        let (b, e) = read_nested_span(wt, buf, p)?;
        let (ra, rb, q) = read_add_fields(buf, b, e, a0, b0)?;
        Ok((Some(client_message::Message::AddRequest(AddRequest { a: ra, b: rb })), q))
    } else {
        match skip_value(wt, tag, buf, p) {
            Ok(l) => Ok((cur, buf.len() - l)),
            Err(_) => Err(CodecError::Malformed),
        }
    }
}

/// The view of an optional request.
pub open spec fn opt_view(m: Option<client_message::Message>) -> Option<RequestV> {
    match m {
        Some(x) => Some(x@),
        None => None,
    }
}

fn read_client_fields(buf: &[u8], pos: usize, cur: Option<client_message::Message>) -> (r: Result<Option<client_message::Message>, CodecError>)
    requires
        pos <= buf@.len(),
    ensures
        match r {
            Ok(c) => client_fields(buf@, pos as nat, opt_view(cur)) == Some(opt_view(c)),
            Err(_) => client_fields(buf@, pos as nat, opt_view(cur)) is None,
        },
    decreases buf@.len() - pos,
{
    if pos >= buf.len() {
        return Ok(cur);
    }
    let (tag, wt, left) = match read_key(buf, pos) {
        Ok(k) => k,
        Err(_) => return Err(CodecError::Malformed),
    };
    let p = buf.len() - left;
    let (c, q) = read_client_step(tag, wt, buf, p, cur)?;
    if pos < q && q <= buf.len() {
        read_client_fields(buf, q, c)
    } else {
        Err(CodecError::Malformed)
    }
}

impl ClientMessageWrapper {
    /// Reads a client envelope from the whole of `buf`.
    pub fn decode(buf: &[u8]) -> (r: Result<ClientMessageWrapper, CodecError>)
        ensures
            match r {
                Ok(w) => client_decode(buf@) == Some(w@),
                Err(_) => client_decode(buf@) is None,
            },
    {
        match read_client_fields(buf, 0, None) {
            Ok(m) => Ok(ClientMessageWrapper { message: m }),
            Err(e) => Err(e),
        }
    }
}

/// The fields of an `AddResponse` from `pos` up to `end`, merged into
/// `result`, as `echo_fields` does.
pub open spec fn result_fields(s: Seq<u8>, pos: nat, end: nat, result: i32) -> Option<(i32, nat)>
    decreases s.len() - pos,
{
    if pos >= end {
        if pos == end { Some((result, pos)) } else { None }
    } else {
        match key_at(s.skip(pos as int)) {
            None => None,
            Some((tag, wt, n)) => {
                let p = pos + n;
                let step: Option<(i32, nat)> = if tag == 1 {
                    match int32_at(wt, s.skip(p as int)) {
                        Some((v, m)) => Some((v, p + m)),
                        None => None,
                    }
                } else {
                    match skip_at(wt, tag, s.skip(p as int)) {
                        Some(m) => Some((result, p + m)),
                        None => None,
                    }
                };
                match step {
                    Some((c, q)) => if pos < q && q <= s.len() {
                        result_fields(s, q, end, c)
                    } else {
                        None
                    },
                    None => None,
                }
            },
        }
    }
}

/// The response that field `tag` at `p` leaves, merged into `cur`, and
/// where it ends, as `client_step` does for requests.
pub open spec fn server_step(tag: u32, wt: u8, s: Seq<u8>, p: nat, cur: Option<ResponseV>) -> Option<(Option<ResponseV>, nat)> {
    if tag == 1 {
        let init = match cur {
            Some(ResponseV::Echo(c)) => c,
            _ => Seq::empty(),
        };
        match nested_span(wt, s, p) {
            Some((b, e)) => match echo_fields(s, b, e, init) {
                Some((c, q)) => Some((Some(ResponseV::Echo(c)), q)),
                None => None,
            },
            None => None,
        }
    } else if tag == 2 {
        let init: i32 = match cur {
            Some(ResponseV::Add(r)) => r,
            _ => 0,
        };
        match nested_span(wt, s, p) {
            Some((b, e)) => match result_fields(s, b, e, init) {
                Some((r, q)) => Some((Some(ResponseV::Add(r)), q)),
                None => None,
            },
            None => None,
        }
    } else {
        match skip_at(wt, tag, s.skip(p as int)) {
            Some(m) => Some((cur, p + m)),
            None => None,
        }
    }
}

/// The server envelope's fields from `pos` to the end of `s`, merged into
/// `cur`, as `client_fields` does.
pub open spec fn server_fields(s: Seq<u8>, pos: nat, cur: Option<ResponseV>) -> Option<Option<ResponseV>>
    decreases s.len() - pos,
{
    if pos >= s.len() {
        Some(cur)
    } else {
        match key_at(s.skip(pos as int)) {
            None => None,
            Some((tag, wt, n)) => match server_step(tag, wt, s, pos + n, cur) {
                Some((c, q)) => if pos < q && q <= s.len() {
                    server_fields(s, q, c)
                } else {
                    None
                },
                None => None,
            },
        }
    }
}

/// The server envelope that `s` decodes to, or `None` for malformed bytes.
pub open spec fn server_decode(s: Seq<u8>) -> Option<Option<ResponseV>> {
    server_fields(s, 0, None)
}

/// The view of an optional response.
pub open spec fn opt_response_view(m: Option<server_message::Message>) -> Option<ResponseV> {
    match m {
        Some(x) => Some(x@),
        None => None,
    }
}

fn read_result_fields(buf: &[u8], pos: usize, end: usize, result: i32) -> (r: Result<(i32, usize), CodecError>)
    requires
        pos <= buf@.len(),
        end <= buf@.len(),
    ensures
        match r {
            Ok((v, q)) => result_fields(buf@, pos as nat, end as nat, result) == Some((v, q as nat)),
            Err(_) => result_fields(buf@, pos as nat, end as nat, result) is None,
        },
    decreases buf@.len() - pos,
{
    if pos >= end {
        return if pos == end { Ok((result, pos)) } else { Err(CodecError::Malformed) };
    }
    let (tag, wt, left) = match read_key(buf, pos) {
        Ok(k) => k,
        Err(_) => return Err(CodecError::Malformed),
    };
    let p = buf.len() - left;
    let mut v = result;
    let q: usize;
    if tag == 1 {
        match merge_int32(wt, &mut v, buf, p) {
            Ok(l) => q = buf.len() - l,
            Err(_) => return Err(CodecError::Malformed),
        }
    } else {
        match skip_value(wt, tag, buf, p) {
            Ok(l) => q = buf.len() - l,
            Err(_) => return Err(CodecError::Malformed),
        }
    }
    if pos < q {
        read_result_fields(buf, q, end, v)
    } else {
        Err(CodecError::Malformed)
    }
}

fn read_server_step(tag: u32, wt: u8, buf: &[u8], p: usize, cur: Option<server_message::Message>) -> (r: Result<(Option<server_message::Message>, usize), CodecError>)
    requires
        p <= buf@.len(),
        wt <= 5,
    ensures
        match r {
            Ok((c, q)) => server_step(tag, wt, buf@, p as nat, opt_response_view(cur)) == Some((opt_response_view(c), q as nat)),
            Err(_) => server_step(tag, wt, buf@, p as nat, opt_response_view(cur)) is None,
        },
{
    if tag == 1 {
        let init = match cur {
            Some(server_message::Message::EchoMessage(e)) => e.content,
            _ => String::new(),
        };
        let (b, e) = read_nested_span(wt, buf, p)?;
        let (c, q) = read_echo_fields(buf, b, e, init)?;
        Ok((Some(server_message::Message::EchoMessage(EchoMessage { content: c })), q))
    } else if tag == 2 {
        let r0 = match cur {
            Some(server_message::Message::AddResponse(r)) => r.result,
            _ => 0i32,
        };
        let (b, e) = read_nested_span(wt, buf, p)?;
        let (r, q) = read_result_fields(buf, b, e, r0)?;
        Ok((Some(server_message::Message::AddResponse(AddResponse { result: r })), q))
    } else {
        match skip_value(wt, tag, buf, p) {
            Ok(l) => Ok((cur, buf.len() - l)),
            Err(_) => Err(CodecError::Malformed),
        }
    }
}

fn read_server_fields(buf: &[u8], pos: usize, cur: Option<server_message::Message>) -> (r: Result<Option<server_message::Message>, CodecError>)
    requires
        pos <= buf@.len(),
    ensures
        match r {
            Ok(c) => server_fields(buf@, pos as nat, opt_response_view(cur)) == Some(opt_response_view(c)),
            Err(_) => server_fields(buf@, pos as nat, opt_response_view(cur)) is None,
        },
    decreases buf@.len() - pos,
{
    if pos >= buf.len() {
        return Ok(cur);
    }
    let (tag, wt, left) = match read_key(buf, pos) {
        Ok(k) => k,
        Err(_) => return Err(CodecError::Malformed),
    };
    let p = buf.len() - left;
    let (c, q) = read_server_step(tag, wt, buf, p, cur)?;
    if pos < q && q <= buf.len() {
        read_server_fields(buf, q, c)
    } else {
        Err(CodecError::Malformed)
    }
}

impl ServerMessageWrapper {
    /// Reads a server envelope from the whole of `buf`.
    pub fn decode(buf: &[u8]) -> (r: Result<ServerMessageWrapper, CodecError>)
        ensures
            match r {
                Ok(w) => server_decode(buf@) == Some(w@),
                Err(_) => server_decode(buf@) is None,
            },
    {
        match read_server_fields(buf, 0, None) {
            Ok(m) => Ok(ServerMessageWrapper { message: m }),
            Err(e) => Err(e),
        }
    }
}

impl ClientMessageWrapper {
    /// The protobuf encoding of this envelope.
    pub fn encode_to_vec(&self) -> (r: Vec<u8>)
        ensures
            r@ == client_bytes(self@),
    {
        let mut buf: Vec<u8> = Vec::new();
        match &self.message {
            None => {},
            Some(client_message::Message::EchoMessage(e)) => {
                let mut body: Vec<u8> = Vec::new();
                put_echo_body(e, &mut body);
                put_nested(1, body, &mut buf);
            },
            Some(client_message::Message::AddRequest(q)) => {
                let mut body: Vec<u8> = Vec::new();
                put_int_field(1, q.a, &mut body);
                put_int_field(2, q.b, &mut body);
                put_nested(2, body, &mut buf);
            },
        }
        assert(buf@ =~= client_bytes(self@));
        buf
    }
}

impl ServerMessageWrapper {
    /// The protobuf encoding of this envelope.
    pub fn encode_to_vec(&self) -> (r: Vec<u8>)
        ensures
            r@ == server_bytes(self@),
    {
        let mut buf: Vec<u8> = Vec::new();
        match &self.message {
            None => {},
            Some(server_message::Message::EchoMessage(e)) => {
                let mut body: Vec<u8> = Vec::new();
                put_echo_body(e, &mut body);
                put_nested(1, body, &mut buf);
            },
            Some(server_message::Message::AddResponse(a)) => {
                let mut body: Vec<u8> = Vec::new();
                put_int_field(1, a.result, &mut body);
                put_nested(2, body, &mut buf);
            },
        }
        assert(buf@ =~= server_bytes(self@));
        buf
    }
}

proof fn lemma_varint_front(v: nat, rest: Seq<u8>)
    requires
        v < 0x1_0000_0000_0000_0000,
    ensures
        varint_at(varint_bytes(v) + rest) == Some((v as int, varint_bytes(v).len())),
        varint_bytes(v).len() >= 1,
{
    lemma_varint_round_trip(v as u64, rest);
}

proof fn lemma_i32_round_trip(x: i32)
    ensures
        i32_of_u64(u64_of_i32(x) as int) == x,
{
    if x < 0 {
        assert((x + 0x1_0000_0000_0000_0000) % 0x1_0000_0000 == x + 0x1_0000_0000) by (nonlinear_arith)
            requires -0x8000_0000 <= x < 0;
    }
}

proof fn lemma_echo_body(s: Seq<u8>, start: nat, c: Seq<char>)
    requires
        encode_utf8(c).len() <= isize::MAX,
        start + string_field(1, c).len() <= s.len(),
        s.subrange(start as int, (start + string_field(1, c).len()) as int) == string_field(1, c),
    ensures
        echo_fields(s, start, start + string_field(1, c).len(), Seq::empty())
            == Some((c, start + string_field(1, c).len())),
{
    let body = string_field(1, c);
    let end = start + body.len();
    if c.len() == 0 {
        assert(c =~= Seq::<char>::empty());
    } else {
        let u = encode_utf8(c);
        let after = s.skip(end as int);
        assert(s.skip(start as int) =~= s.subrange(start as int, end as int) + after);
        assert(varint_bytes(10) == seq![10u8]);
        lemma_varint_front(10, varint_bytes(u.len()) + u + after);
        assert(s.skip(start as int) =~= varint_bytes(10) + (varint_bytes(u.len()) + u + after));
        let p = start + 1;
        lemma_varint_front(u.len(), u + after);
        assert(s.skip(p as int) =~= s.skip(start as int).skip(1));
        assert(s.skip(p as int) =~= varint_bytes(u.len()) + (u + after));
        let k = varint_bytes(u.len()).len();
        assert(s.skip(p as int).subrange(k as int, (k + u.len()) as int) =~= u);
        encode_utf8_valid_utf8(c);
        encode_utf8_decode_utf8(c);
        assert(string_at(2, s.skip(p as int)) == Some((c, k + u.len())));
        assert(echo_fields(s, end, end, c) == Some((c, end)));
    }
}

proof fn lemma_int_field(s: Seq<u8>, start: nat, tag: nat, x: i32, rest: Seq<u8>)
    requires
        1 <= tag <= 2,
        x != 0,
        start <= s.len(),
        s.skip(start as int) == int_field(tag, x) + rest,
    ensures
        key_at(s.skip(start as int)) == Some((tag as u32, 0u8, 1nat)),
        int32_at(0, s.skip(start + 1int)) == Some((x, (int_field(tag, x).len() - 1) as nat)),
{
    let u = u64_of_i32(x);
    assert(varint_bytes(tag * 8) == seq![(tag * 8) as u8]);
    lemma_varint_front(tag * 8, varint_bytes(u) + rest);
    assert(s.skip(start as int) =~= varint_bytes(tag * 8) + (varint_bytes(u) + rest));
    assert(s.skip(start + 1int) =~= s.skip(start as int).skip(1));
    lemma_varint_front(u, rest);
    assert(s.skip(start + 1int) =~= varint_bytes(u) + rest);
    lemma_i32_round_trip(x);
}

proof fn lemma_add_body(s: Seq<u8>, start: nat, a: i32, b: i32)
    requires
        start + (int_field(1, a) + int_field(2, b)).len() <= s.len(),
        s.subrange(start as int, (start + (int_field(1, a) + int_field(2, b)).len()) as int)
            == int_field(1, a) + int_field(2, b),
    ensures
        add_fields(s, start, start + (int_field(1, a) + int_field(2, b)).len(), (0i32, 0i32))
            == Some(((a, b), start + (int_field(1, a) + int_field(2, b)).len())),
{
    let fa = int_field(1, a);
    let fb = int_field(2, b);
    let mid = start + fa.len();
    let end = mid + fb.len();
    let after = s.skip(end as int);
    let ab = if a == 0 { (0i32, 0i32) } else { (a, 0i32) };
    assert(s.skip(start as int) =~= fa + (fb + after));
    assert(s.skip(mid as int) =~= s.skip(start as int).skip(fa.len() as int));
    assert(s.skip(mid as int) =~= fb + after);
    if b != 0 {
        lemma_int_field(s, mid, 2, b, after);
        assert(add_fields(s, end, end, (ab.0, b)) == Some(((ab.0, b), end)));
        assert(add_fields(s, mid, end, ab) == Some(((ab.0, b), end)));
    } else {
        assert(fb =~= Seq::<u8>::empty());
        assert(add_fields(s, mid, end, ab) == Some(((ab.0, b), end)));
    }
    if a != 0 {
        assert(s.skip(start as int) =~= fa + (fb + after));
        lemma_int_field(s, start, 1, a, fb + after);
    } else {
        assert(fa =~= Seq::<u8>::empty());
    }
}

/// A request whose text, if any, fits in memory: its UTF-8 bytes number
/// at most `isize::MAX`, as for any `String`.
pub open spec fn request_fits(req: RequestV) -> bool {
    match req {
        RequestV::Echo(c) => encode_utf8(c).len() <= isize::MAX,
        RequestV::Add(_, _) => true,
    }
}

proof fn lemma_frame(tag: nat, body: Seq<u8>)
    requires
        1 <= tag <= 2,
        body.len() < 0x1_0000_0000_0000_0000,
    ensures
        key_at(nested_field(tag, body).skip(0)) == Some((tag as u32, 2u8, 1nat)),
        nested_span(2, nested_field(tag, body), 1) == Some(
            ((1 + varint_bytes(body.len()).len()) as nat, nested_field(tag, body).len()),
        ),
        nested_field(tag, body).subrange(
            (1 + varint_bytes(body.len()).len()) as int,
            nested_field(tag, body).len() as int,
        ) == body,
{
    let bytes = nested_field(tag, body);
    let l = body.len();
    assert(varint_bytes(tag * 8 + 2) == seq![(tag * 8 + 2) as u8]);
    lemma_varint_front(tag * 8 + 2, varint_bytes(l) + body);
    assert(bytes =~= varint_bytes(tag * 8 + 2) + (varint_bytes(l) + body));
    assert(bytes.skip(0) =~= bytes);
    lemma_varint_front(l, body);
    assert(bytes.skip(1) =~= varint_bytes(l) + body);
    let k = varint_bytes(l).len();
    assert(bytes.subrange((1 + k) as int, bytes.len() as int) =~= body);
}

/// Decoding the encoding of a client envelope that holds a request gives
/// that request back.
pub proof fn lemma_client_round_trip(req: RequestV)
    requires
        request_fits(req),
    ensures
        client_decode(client_bytes(Some(req))) == Some(Some(req)),
        client_bytes(Some(req)).len() > 0,
{
    let bytes = client_bytes(Some(req));
    match req {
        RequestV::Echo(c) => {
            let body = string_field(1, c);
            if c.len() > 0 {
                lemma_varint_len(encode_utf8(c).len() as u64);
                assert(varint_bytes(10) == seq![10u8]);
            }
            lemma_frame(1, body);
            let start = 1 + varint_bytes(body.len()).len();
            lemma_echo_body(bytes, start as nat, c);
            assert(client_fields(bytes, bytes.len(), Some(req)) == Some(Some(req)));
        },
        RequestV::Add(a, b) => {
            let body = int_field(1, a) + int_field(2, b);
            lemma_varint_len(u64_of_i32(a) as u64);
            lemma_varint_len(u64_of_i32(b) as u64);
            assert(varint_bytes(8) == seq![8u8]);
            assert(varint_bytes(16) == seq![16u8]);
            lemma_frame(2, body);
            let start = 1 + varint_bytes(body.len()).len();
            lemma_add_body(bytes, start as nat, a, b);
            assert(client_fields(bytes, bytes.len(), Some(req)) == Some(Some(req)));
        },
    }
}

proof fn lemma_result_body(s: Seq<u8>, start: nat, r: i32)
    requires
        start + int_field(1, r).len() <= s.len(),
        s.subrange(start as int, (start + int_field(1, r).len()) as int) == int_field(1, r),
    ensures
        result_fields(s, start, start + int_field(1, r).len(), 0i32) == Some((r, start + int_field(1, r).len())),
{
    let f = int_field(1, r);
    let end = start + f.len();
    let after = s.skip(end as int);
    assert(s.skip(start as int) =~= f + after);
    if r != 0 {
        lemma_int_field(s, start, 1, r, after);
        assert(result_fields(s, end, end, r) == Some((r, end)));
    } else {
        assert(f =~= Seq::<u8>::empty());
    }
}

/// A response whose text, if any, fits in memory, as for any `String`.
pub open spec fn response_fits(resp: ResponseV) -> bool {
    match resp {
        ResponseV::Echo(c) => encode_utf8(c).len() <= isize::MAX,
        ResponseV::Add(_) => true,
    }
}

/// Decoding the encoding of a server envelope that holds a response gives
/// that response back.
pub proof fn lemma_server_round_trip(resp: ResponseV)
    requires
        response_fits(resp),
    ensures
        server_decode(server_bytes(Some(resp))) == Some(Some(resp)),
        server_bytes(Some(resp)).len() > 0,
{
    let bytes = server_bytes(Some(resp));
    match resp {
        ResponseV::Echo(c) => {
            let body = string_field(1, c);
            if c.len() > 0 {
                lemma_varint_len(encode_utf8(c).len() as u64);
                assert(varint_bytes(10) == seq![10u8]);
            }
            lemma_frame(1, body);
            let start = 1 + varint_bytes(body.len()).len();
            lemma_echo_body(bytes, start as nat, c);
            assert(server_fields(bytes, bytes.len(), Some(resp)) == Some(Some(resp)));
        },
        ResponseV::Add(r) => {
            let body = int_field(1, r);
            lemma_varint_len(u64_of_i32(r) as u64);
            assert(varint_bytes(8) == seq![8u8]);
            lemma_frame(2, body);
            let start = 1 + varint_bytes(body.len()).len();
            lemma_result_body(bytes, start as nat, r);
            assert(server_fields(bytes, bytes.len(), Some(resp)) == Some(Some(resp)));
        },
    }
}

} // verus!
