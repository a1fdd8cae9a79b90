//! The bus wire-protocol server.
//!
//! Third-party bus tooling reads and writes the target without a debugger in
//! the loop.  A request frame is nine bytes: one direction byte (0 read, 1
//! write), the address, and the value (sent but ignored for a read), words
//! travelling most significant byte first.  A response frame is five bytes:
//! one status byte (0 for success, else a code naming the bridge failure)
//! and the value.  The server keeps no state between requests; each request
//! becomes exactly one bus transaction, in arrival order.

use crate::bridge::{word_of, Bridge, BridgeError};
use crate::config::Config;
use crate::words::{be_bytes, get_byte, word_from_be_bytes, word_of_be_bytes};
use vstd::prelude::*;

verus! {

/// The length of a request frame.
pub const REQUEST_LEN: usize = 9;

/// A typed failure of the bus protocol layer.
#[derive(Clone, Copy, Debug, PartialEq, Eq, Structural)]
pub enum WishboneServerError {
    /// The request frame is not one of the two shapes the protocol has.
    ProtocolError,
    /// The client went away.
    ConnectionClosed,
    /// A bus transaction underneath a request failed.
    BridgeError(BridgeError),
}

/// One decoded request.
#[derive(Clone, Copy, Debug, PartialEq, Eq, Structural)]
pub struct WishboneRequest {
    /// Write the value (true) or read the address (false).
    pub is_write: bool,
    /// The bus address.
    pub addr: u32,
    /// The value to write; carried but ignored for a read.
    pub value: u32,
}

/// What a byte string decodes to as a request frame, if anything.
pub open spec fn spec_parse_request(f: Seq<u8>) -> Option<WishboneRequest> {
    if f.len() == 9 && (f[0] == 0 || f[0] == 1) {
        Some(
            WishboneRequest {
                is_write: f[0] == 1,
                addr: word_from_be_bytes(f[1], f[2], f[3], f[4]),
                value: word_from_be_bytes(f[5], f[6], f[7], f[8]),
            },
        )
    } else {
        None
    }
}

/// The status byte that names a bridge failure in a response frame.
pub open spec fn spec_status_code(e: BridgeError) -> u8 {
    match e {
        BridgeError::NotConnected => 1,
        BridgeError::Timeout => 2,
        BridgeError::Disconnected => 3,
        BridgeError::MalformedResponse => 4,
        BridgeError::TransportNotFound => 5,
        BridgeError::ClaimFailed => 6,
        BridgeError::NegotiationFailed => 7,
    }
}

/// A response frame: the status byte, then the value most significant byte
/// first.
pub open spec fn spec_response(status: u8, value: u32) -> Seq<u8> {
    seq![status] + be_bytes(value)
}

/// Decode one request frame.
pub fn parse_request(frame: &Vec<u8>) -> (r: Result<WishboneRequest, WishboneServerError>)
    ensures
        match spec_parse_request(frame@) {
            Some(q) => r == Ok::<WishboneRequest, WishboneServerError>(q),
            None => r == Err::<WishboneRequest, WishboneServerError>(
                WishboneServerError::ProtocolError,
            ),
        },
{
    if frame.len() != 9 {
        return Err(WishboneServerError::ProtocolError);
    }
    let dir = frame[0];
    if dir != 0 && dir != 1 {
        return Err(WishboneServerError::ProtocolError);
    }
    let addr = word_of_be_bytes(frame[1], frame[2], frame[3], frame[4]);
    let value = word_of_be_bytes(frame[5], frame[6], frame[7], frame[8]);
    Ok(WishboneRequest { is_write: dir == 1, addr, value })
}

/// Encode one response frame.
fn encode_response(status: u8, value: u32) -> (r: Vec<u8>)
    ensures
        r@ == spec_response(status, value),
{
    let mut out: Vec<u8> = Vec::new();
    out.push(status);
    out.push(get_byte(value, 3));
    out.push(get_byte(value, 2));
    out.push(get_byte(value, 1));
    out.push(get_byte(value, 0));
    proof {
        assert(out@ =~= spec_response(status, value));
    }
    out
}

/// The bus protocol server.  It holds no session state: every request
/// carries its own direction, address and value.
pub struct WishboneServer {}

impl WishboneServer {
    /// A fresh server.  The bind address and port in the configuration
    /// belong to the socket code around the library.
    pub fn new(cfg: &Config) -> (r: Result<WishboneServer, WishboneServerError>)
        ensures
            r.is_ok(),
    {
        let _ = cfg;
        Ok(WishboneServer {})
    }

    /// Serve one request frame: exactly one bus transaction, answered with
    /// a response frame.  A malformed frame is a protocol error that ends
    /// the connection; a failed bus transaction is answered in the status
    /// byte and leaves the session up.
    pub fn process(&mut self, frame: &Vec<u8>, bridge: &mut Bridge) -> (r: Result<
        Vec<u8>,
        WishboneServerError,
    >)
        ensures
            spec_parse_request(frame@) is None ==> r == Err::<Vec<u8>, WishboneServerError>(
                WishboneServerError::ProtocolError,
            ) && *final (bridge) == *old(bridge),
            spec_parse_request(frame@) matches Some(q) ==> ({
                &&& !old(bridge).is_connected() ==> *final (bridge) == *old(bridge) && (
                r matches Ok(resp) && resp@ == spec_response(
                    spec_status_code(BridgeError::NotConnected),
                    0,
                ))
                &&& old(bridge).is_connected() && q.is_write ==> final (bridge).is_connected()
                    && final (bridge).mem() == old(bridge).mem().insert(q.addr, q.value) && (
                r matches Ok(resp) && resp@ == spec_response(0, q.value))
                &&& old(bridge).is_connected() && !q.is_write ==> *final (bridge) == *old(bridge)
                    && (r matches Ok(resp) && resp@ == spec_response(
                    0,
                    word_of(old(bridge).mem(), q.addr),
                ))
            }),
    {
        let req = match parse_request(frame) {
            Ok(q) => q,
            Err(e) => {
                return Err(e);
            },
        };
        if req.is_write {
            match bridge.poke(req.addr, req.value) {
                Ok(_) => Ok(encode_response(0, req.value)),
                Err(e) => Ok(encode_response(status_code(e), 0)),
            }
        } else {
            match bridge.peek(req.addr) {
                Ok(w) => Ok(encode_response(0, w)),
                Err(e) => Ok(encode_response(status_code(e), 0)),
            }
        }
    }
}

/// The status byte for a bridge failure, executable form.
fn status_code(e: BridgeError) -> (r: u8)
    ensures
        r == spec_status_code(e),
{
    match e {
        BridgeError::NotConnected => 1,
        BridgeError::Timeout => 2,
        BridgeError::Disconnected => 3,
        BridgeError::MalformedResponse => 4,
        BridgeError::TransportNotFound => 5,
        BridgeError::ClaimFailed => 6,
        BridgeError::NegotiationFailed => 7,
    }
}

/// Serving a write request for `(a, v)` and then a read request for `a`
/// yields a response frame that carries `v`: the write's effect on the bus
/// memory is exactly what the read reports.
pub proof fn lemma_write_then_read(mem: Map<u32, u32>, a: u32, v: u32)
    ensures
        spec_response(0, word_of(mem.insert(a, v), a)) == spec_response(0, v),
{
}

} // verus!
