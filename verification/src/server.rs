//! Choosing and running a server, and the error taxonomy above all layers.
//!
//! The kind of server is a closed choice made once at startup.  The loops
//! that accept sockets and spawn the poller thread live outside the
//! library; the decisions inside them — one stress iteration, one one-shot
//! access, one dispatched command — are here, each with its contract.

use crate::bridge::{word_of, Bridge, BridgeError};
use crate::config::{Config, ConfigError};
use crate::gdb::GdbServerError;
use crate::riscv::RiscvCpuError;
use crate::wishbone::WishboneServerError;
use vstd::prelude::*;

verus! {

/// Which top-level loop to run; no runtime mutation of this choice.
#[derive(Clone, Copy, Debug, PartialEq, Eq, Structural)]
pub enum ServerKind {
    /// No server: at most a one-shot memory access.
    NoServer,
    /// The bus wire-protocol server.
    Wishbone,
    /// The debugger wire-protocol server.
    GDB,
    /// Write and read back pseudo-random values in a loop.
    RandomTest,
}

/// The top-level error: every layer's typed failure, wrapped without losing
/// its kind.
#[derive(Debug)]
pub enum ServerError {
    /// A socket or stream failure in the transport code around the library,
    /// by its message.
    IoError(String),
    /// The bus protocol layer failed.
    WishboneError(WishboneServerError),
    /// The debugger session layer failed.
    GdbError(GdbServerError),
    /// A bus transaction failed.
    BridgeError(BridgeError),
    /// The CPU debug controller refused or timed out.
    RiscvCpuError(RiscvCpuError),
    /// A stress readback differed: loop counter, expected, observed.
    RandomValueError(u32, u32, u32),
}

impl core::convert::From<WishboneServerError> for ServerError {
    /// Wrap a bus protocol failure.
    fn from(e: WishboneServerError) -> (r: ServerError) {
        ServerError::WishboneError(e)
    }
}

impl vstd::std_specs::convert::FromSpecImpl<WishboneServerError> for ServerError {
    open spec fn obeys_from_spec() -> bool {
        true
    }

    open spec fn from_spec(e: WishboneServerError) -> ServerError {
        ServerError::WishboneError(e)
    }
}

impl core::convert::From<GdbServerError> for ServerError {
    /// Wrap a debugger session failure.
    fn from(e: GdbServerError) -> (r: ServerError) {
        ServerError::GdbError(e)
    }
}

impl vstd::std_specs::convert::FromSpecImpl<GdbServerError> for ServerError {
    open spec fn obeys_from_spec() -> bool {
        true
    }

    open spec fn from_spec(e: GdbServerError) -> ServerError {
        ServerError::GdbError(e)
    }
}

impl core::convert::From<BridgeError> for ServerError {
    /// Wrap a bus transaction failure.
    fn from(e: BridgeError) -> (r: ServerError) {
        ServerError::BridgeError(e)
    }
}

impl vstd::std_specs::convert::FromSpecImpl<BridgeError> for ServerError {
    open spec fn obeys_from_spec() -> bool {
        true
    }

    open spec fn from_spec(e: BridgeError) -> ServerError {
        ServerError::BridgeError(e)
    }
}

impl core::convert::From<RiscvCpuError> for ServerError {
    /// Wrap a controller failure.
    fn from(e: RiscvCpuError) -> (r: ServerError) {
        ServerError::RiscvCpuError(e)
    }
}

impl vstd::std_specs::convert::FromSpecImpl<RiscvCpuError> for ServerError {
    open spec fn obeys_from_spec() -> bool {
        true
    }

    open spec fn from_spec(e: RiscvCpuError) -> ServerError {
        ServerError::RiscvCpuError(e)
    }
}

impl ServerKind {
    /// Map the command-line server name onto a kind.  No name at all means
    /// no server; an unknown name is a configuration error that carries the
    /// name back.
    pub fn from_string(item: &Option<&str>) -> (r: Result<ServerKind, ConfigError>)
        ensures
            item is None ==> r == Ok::<ServerKind, ConfigError>(ServerKind::NoServer),
            item matches Some(k) ==> ({
                if k@ == "gdb"@ {
                    r == Ok::<ServerKind, ConfigError>(ServerKind::GDB)
                } else if k@ == "wishbone"@ {
                    r == Ok::<ServerKind, ConfigError>(ServerKind::Wishbone)
                } else if k@ == "random-test"@ {
                    r == Ok::<ServerKind, ConfigError>(ServerKind::RandomTest)
                } else {
                    r matches Err(e) && e matches ConfigError::UnknownServerKind(s) && s@ == k@
                }
            }),
    {
        match item {
            None => Ok(ServerKind::NoServer),
            Some(k) => {
                let ks: String = (*k).to_owned();
                let gdb_name: String = "gdb".to_owned();
                let wishbone_name: String = "wishbone".to_owned();
                let random_name: String = "random-test".to_owned();
                if ks.eq(&gdb_name) {
                    Ok(ServerKind::GDB)
                } else if ks.eq(&wishbone_name) {
                    Ok(ServerKind::Wishbone)
                } else if ks.eq(&random_name) {
                    Ok(ServerKind::RandomTest)
                } else {
                    Err(ConfigError::UnknownServerKind(ks))
                }
            },
        }
    }
}

/// What a one-shot memory access did.
#[derive(Clone, Copy, Debug, PartialEq, Eq, Structural)]
pub enum MemoryAccessOutcome {
    /// Read: the address and the word found there.
    Peeked(u32, u32),
    /// Wrote: the address and the word now there.
    Poked(u32, u32),
    /// No address was supplied; the caller prints a usage hint.
    NoAddress,
}

/// One-shot memory access: with an address and a value, one write; with an
/// address alone, one read; with no address, no bus traffic at all and an
/// outcome that asks for a usage hint.
pub fn memory_access(cfg: &Config, bridge: &mut Bridge) -> (r: Result<
    MemoryAccessOutcome,
    ServerError,
>)
    ensures
        cfg.memory_address is None ==> r == Ok::<MemoryAccessOutcome, ServerError>(
            MemoryAccessOutcome::NoAddress,
        ) && *final (bridge) == *old(bridge),
        cfg.memory_address matches Some(addr) ==> ({
            &&& !old(bridge).is_connected() ==> r == Err::<MemoryAccessOutcome, ServerError>(
                ServerError::BridgeError(BridgeError::NotConnected),
            ) && *final (bridge) == *old(bridge)
            &&& old(bridge).is_connected() ==> final (bridge).is_connected() && (
            match cfg.memory_value {
                Some(v) => final (bridge).mem() == old(bridge).mem().insert(addr, v) && r == Ok::<
                    MemoryAccessOutcome,
                    ServerError,
                >(MemoryAccessOutcome::Poked(addr, v)),
                None => final (bridge).mem() == old(bridge).mem() && r == Ok::<
                    MemoryAccessOutcome,
                    ServerError,
                >(MemoryAccessOutcome::Peeked(addr, word_of(old(bridge).mem(), addr))),
            })
        }),
{
    let addr = match cfg.memory_address {
        Some(a) => a,
        None => {
            return Ok(MemoryAccessOutcome::NoAddress);
        },
    };
    match cfg.memory_value {
        Some(v) => {
            match bridge.poke(addr, v) {
                Ok(_) => Ok(MemoryAccessOutcome::Poked(addr, v)),
                Err(e) => Err(ServerError::BridgeError(e)),
            }
        },
        None => {
            match bridge.peek(addr) {
                Ok(w) => Ok(MemoryAccessOutcome::Peeked(addr, w)),
                Err(e) => Err(ServerError::BridgeError(e)),
            }
        },
    }
}

/// Relies on rand::random: one 32-bit value from the thread-local
/// generator.  Nothing is promised of the value.  The call can panic only
/// if the operating system's entropy source fails while the generator is
/// seeded or reseeded — an environmental failure no argument could exclude.
#[verifier::external_body]
fn random_u32() -> u32 {
    rand::random::<u32>()
}

/// One stress iteration: write `value` at `addr`, read it back, and compare.
/// On the bridge's memory model the readback is the written word, so a
/// healthy connection never reports a mismatch; the mismatch error carries
/// the loop counter, the expected and the observed word.
pub fn stress_step(bridge: &mut Bridge, addr: u32, value: u32, counter: u32) -> (r: Result<
    (),
    ServerError,
>)
    ensures
        old(bridge).is_connected() ==> r.is_ok() && final (bridge).is_connected() && final (
        bridge).mem() == old(bridge).mem().insert(addr, value),
        !old(bridge).is_connected() ==> r == Err::<(), ServerError>(
            ServerError::BridgeError(BridgeError::NotConnected),
        ) && *final (bridge) == *old(bridge),
{
    match bridge.poke(addr, value) {
        Ok(_) => {},
        Err(e) => {
            return Err(ServerError::BridgeError(e));
        },
    }
    let readback = match bridge.peek(addr) {
        Ok(w) => w,
        Err(e) => {
            return Err(ServerError::BridgeError(e));
        },
    };
    if readback != value {
        return Err(ServerError::RandomValueError(counter, value, readback));
    }
    Ok(())
}

/// Where the stress mode hammers: the configured address, or a fixed spot
/// in the target's main memory.
pub open spec fn spec_stress_addr(cfg: Config) -> u32 {
    match cfg.random_address {
        Some(a) => a,
        None => 0x10002000,
    }
}

/// The bounded stress mode: write a pseudo-random word, read it back,
/// compare, `random_loops + 1` times.  The run leaves the hammered address
/// holding the last word written there and every other address exactly as
/// it was.  The unbounded mode (no loop count) is the same step repeated by
/// the caller that owns the endless loop.
pub fn random_test(cfg: &Config, bridge: &mut Bridge) -> (r: Result<(), ServerError>)
    requires
        cfg.random_loops matches Some(m) && m < 0xffffffffu32,
    ensures
        old(bridge).is_connected() ==> r.is_ok() && final (bridge).is_connected() && (exists|
            v: u32,
        |
            final (bridge).mem() == #[trigger] old(bridge).mem().insert(
                spec_stress_addr(*cfg),
                v,
            )) && (forall|a2: u32|
            a2 != spec_stress_addr(*cfg) ==> #[trigger] final (bridge).word_at(a2) == old(
                bridge,
            ).word_at(a2)),
        !old(bridge).is_connected() ==> r == Err::<(), ServerError>(
            ServerError::BridgeError(BridgeError::NotConnected),
        ) && *final (bridge) == *old(bridge),
{
    let max_loops = match cfg.random_loops {
        Some(m) => m,
        None => {
            proof {
                assert(false);
            }
            0
        },
    };
    let addr = match cfg.random_address {
        Some(a) => a,
        None => 0x10000000 + 8192,
    };
    if !bridge.connected() {
        return Err(ServerError::BridgeError(BridgeError::NotConnected));
    }
    let mut loop_counter: u32 = 0;
    while loop_counter <= max_loops
        invariant
            bridge.is_connected(),
            max_loops < 0xffffffffu32,
            loop_counter <= max_loops + 1,
            addr == spec_stress_addr(*cfg),
            loop_counter == 0 ==> bridge.mem() == old(bridge).mem(),
            loop_counter > 0 ==> exists|v: u32|
                bridge.mem() == #[trigger] old(bridge).mem().insert(addr, v),
            forall|a2: u32|
                a2 != addr ==> #[trigger] bridge.word_at(a2) == old(bridge).word_at(a2),
        decreases max_loops + 1 - loop_counter,
    {
        let value = random_u32();
        let ghost bridge_before = *bridge;
        let ghost mem_before = bridge.mem();
        match stress_step(bridge, addr, value, loop_counter) {
            Ok(_) => {},
            Err(e) => {
                return Err(e);
            },
        }
        proof {
            assert(bridge.mem() == mem_before.insert(addr, value));
            if loop_counter == 0 {
                assert(bridge.mem() == old(bridge).mem().insert(addr, value));
            } else {
                let v0 = choose|v: u32| mem_before == old(bridge).mem().insert(addr, v);
                assert(old(bridge).mem().insert(addr, v0).insert(addr, value) =~= old(
                    bridge,
                ).mem().insert(addr, value));
                assert(bridge.mem() == old(bridge).mem().insert(addr, value));
            }
            assert forall|a2: u32| a2 != addr implies #[trigger] bridge.word_at(a2) == old(
                bridge,
            ).word_at(a2) by {
                assert(bridge.mem() == mem_before.insert(addr, value));
                assert(word_of(mem_before.insert(addr, value), a2) == word_of(mem_before, a2));
                assert(bridge_before.word_at(a2) == word_of(mem_before, a2));
            }
        }
        loop_counter = loop_counter + 1;
    }
    Ok(())
}

} // verus!
