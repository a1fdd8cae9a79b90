//! The transport-agnostic 32-bit bus primitive.
//!
//! A `Bridge` answers exactly two questions about the target: "what word is
//! at this address" (`peek`) and "put this word at this address" (`poke`).
//! This crate models the target as the map from bus address to the word most
//! recently written there; an address never written reads as zero.  A
//! physical transport that forwards the same two calls to real hardware can
//! sit outside the library; everything above the bridge is specified purely
//! over this memory model.

use vstd::prelude::*;

verus! {

/// A typed failure of the transport under the bridge.
#[derive(Clone, Copy, Debug, PartialEq, Eq, Structural)]
pub enum BridgeError {
    /// No transaction can be issued before `connect` has succeeded.
    NotConnected,
    /// The transport stopped answering inside its bounded timeout.
    Timeout,
    /// The transport dropped the link mid-transaction.
    Disconnected,
    /// The transport answered with bytes that do not form a response.
    MalformedResponse,
    /// No matching transport device was found while connecting.
    TransportNotFound,
    /// A matching device was found but could not be claimed.
    ClaimFailed,
    /// The connection handshake was answered incorrectly.
    NegotiationFailed,
}

/// The word recorded for `addr`, zero where nothing was ever written.
pub open spec fn word_of(mem: Map<u32, u32>, addr: u32) -> u32 {
    if mem.contains_key(addr) {
        mem[addr]
    } else {
        0
    }
}

/// The memory that a log of (address, word) writes builds up, last write wins.
pub open spec fn log_map(log: Seq<(u32, u32)>) -> Map<u32, u32>
    decreases log.len(),
{
    if log.len() == 0 {
        Map::empty()
    } else {
        log_map(log.drop_last()).insert(log.last().0, log.last().1)
    }
}

/// If no entry from index `i` on writes `addr`, the first `i` entries already
/// decide what `addr` reads as.
proof fn lemma_log_map_take(log: Seq<(u32, u32)>, i: int, addr: u32)
    requires
        0 <= i <= log.len(),
        forall|j: int| i <= j < log.len() ==> (#[trigger] log[j]).0 != addr,
    ensures
        word_of(log_map(log), addr) == word_of(log_map(log.take(i)), addr),
    decreases log.len() - i,
{
    if i == log.len() {
        assert(log.take(i) =~= log);
    } else {
        lemma_log_map_take(log, i + 1, addr);
        assert(log.take(i + 1).drop_last() =~= log.take(i));
        assert(log.take(i + 1).last() == log[i]);
    }
}

/// One open connection to the bus, together with the model of what the bus
/// remembers.  The log grows by one entry per `poke`; `peek` answers from the
/// latest entry for the address.
pub struct Bridge {
    connected: bool,
    log: Vec<(u32, u32)>,
}

impl Bridge {
    /// Whether `connect` has succeeded on this handle.
    pub closed spec fn is_connected(self) -> bool {
        self.connected
    }

    /// The bus memory this bridge has built up: address to last word written.
    pub closed spec fn mem(self) -> Map<u32, u32> {
        log_map(self.log@)
    }

    /// What `peek(addr)` answers on a healthy connection.
    pub open spec fn word_at(self, addr: u32) -> u32 {
        word_of(self.mem(), addr)
    }

    /// A fresh, not yet connected bridge over an all-zero bus.
    pub fn new() -> (r: Bridge)
        ensures
            !r.is_connected(),
            r.mem() == Map::<u32, u32>::empty(),
    {
        Bridge { connected: false, log: Vec::new() }
    }

    /// Whether this handle can issue transactions yet.
    pub fn connected(&self) -> (r: bool)
        ensures
            r == self.is_connected(),
    {
        self.connected
    }

    /// Establish the connection.  The model transport is always present, so
    /// this cannot fail; a physical transport reports its typed connect
    /// failures (`TransportNotFound`, `ClaimFailed`, `NegotiationFailed`)
    /// before any bridge exists.
    pub fn connect(&mut self) -> (r: Result<(), BridgeError>)
        ensures
            r.is_ok(),
            final (self).is_connected(),
            final (self).mem() == old(self).mem(),
    {
        self.connected = true;
        Ok(())
    }

    /// One bus read: the word last written at `addr`, zero if none, or
    /// `NotConnected` before `connect`.
    pub fn peek(&self, addr: u32) -> (r: Result<u32, BridgeError>)
        ensures
            self.is_connected() ==> r == Ok::<u32, BridgeError>(self.word_at(addr)),
            !self.is_connected() ==> r == Err::<u32, BridgeError>(BridgeError::NotConnected),
    {
        if !self.connected {
            return Err(BridgeError::NotConnected);
        }
        let mut i: usize = self.log.len();
        while i > 0
            invariant
                self.is_connected(),
                i <= self.log@.len(),
                forall|j: int| i <= j < self.log@.len() ==> (#[trigger] self.log@[j]).0 != addr,
            decreases i,
        {
            i = i - 1;
            let entry = self.log[i];
            if entry.0 == addr {
                proof {
                    lemma_log_map_take(self.log@, i + 1, addr);
                    assert(self.log@.take(i + 1).drop_last() =~= self.log@.take(i as int));
                    assert(self.log@.take(i + 1).last() == self.log@[i as int]);
                }
                return Ok(entry.1);
            }
        }
        proof {
            lemma_log_map_take(self.log@, 0, addr);
            assert(self.log@.take(0) =~= Seq::<(u32, u32)>::empty());
        }
        Ok(0)
    }

    /// One bus write: afterwards `addr` reads as `value` and every other
    /// address reads as before; `NotConnected` before `connect`.
    pub fn poke(&mut self, addr: u32, value: u32) -> (r: Result<(), BridgeError>)
        ensures
            old(self).is_connected() ==> r.is_ok() && final (self).is_connected()
                && final (self).mem() == old(self).mem().insert(addr, value),
            !old(self).is_connected() ==> r == Err::<(), BridgeError>(BridgeError::NotConnected)
                && *final (self) == *old(self),
    {
        if !self.connected {
            return Err(BridgeError::NotConnected);
        }
        self.log.push((addr, value));
        proof {
            assert(self.log@.drop_last() =~= old(self).log@);
        }
        Ok(())
    }
}

/// Round-trip law: on a healthy connection, `poke(a, v)` followed immediately
/// by `peek(a)` returns `v`.  `b1` is the bridge as `poke`'s contract leaves
/// it; no address of the model is side-effecting.
pub proof fn lemma_poke_then_peek(b0: Bridge, b1: Bridge, a: u32, v: u32)
    requires
        b0.is_connected(),
        b1.is_connected(),
        b1.mem() == b0.mem().insert(a, v),
    ensures
        b1.word_at(a) == v,
{
}

} // verus!
