//! The CPU debug controller.
//!
//! A soft RISC-V core exposes a small memory-mapped debug module; this
//! controller translates halt / resume / step / register and memory access
//! into `peek` / `poke` transactions against that module's fixed addresses,
//! and keeps the one record of the core's run state.  Every contract below
//! speaks of the bridge's memory model, so it says exactly which bus
//! transactions an operation performs and what it makes of the words that
//! come back.

use crate::bridge::{word_of, Bridge, BridgeError};
use crate::words::{
    get_byte, lemma_set_byte, lemma_word_from_le_bytes, set_byte, word_byte, word_of_le_bytes,
};
use vstd::prelude::*;

verus! {

/// Address of the debug module's control register (halt / step requests).
pub const DEBUG_CONTROL: u32 = 0xf00f0000;

/// Address of the debug module's status register.
pub const DEBUG_STATUS: u32 = 0xf00f0004;

/// Address of the register-file index register.
pub const DEBUG_REG_SELECT: u32 = 0xf00f0008;

/// Address of the register-file data-transfer register.
pub const DEBUG_REG_DATA: u32 = 0xf00f000c;

/// Address of the hardware breakpoint register.
pub const DEBUG_BREAKPOINT: u32 = 0xf00f0010;

/// Control-register bit that requests a halt.
pub const CONTROL_HALT_REQUEST: u32 = 0x1;

/// Control-register bit that requests a single step.
pub const CONTROL_STEP_REQUEST: u32 = 0x2;

/// Control-register value that clears all requests (resume).
pub const CONTROL_CLEAR: u32 = 0x0;

/// Status-register bit that reports the core as halted.
pub const STATUS_HALTED: u32 = 0x1;

/// How many status reads `halt` and `step` try before giving up.
pub const HALT_RETRIES: u32 = 10;

/// General-purpose registers plus the program counter as one extra slot.
pub const REGISTER_COUNT: u32 = 33;

/// The core's run state as observed through the debug module.
#[derive(Clone, Copy, Debug, PartialEq, Eq, Structural)]
pub enum RiscvCpuState {
    /// Before the first status read nothing is known.
    Unknown,
    /// The core is executing.
    Running,
    /// The core is stopped in the debug module.
    Halted,
    /// A single step was requested and has not been seen to finish.
    SingleStepping,
}

/// A typed failure of a controller operation.
#[derive(Clone, Copy, Debug, PartialEq, Eq, Structural)]
pub enum RiscvCpuError {
    /// The operation is not legal in the current run state.
    InvalidState,
    /// The register index is outside the register file.
    InvalidRegister,
    /// The halted bit was not observed within the retry bound.
    Timeout,
    /// A bus transaction underneath the operation failed.
    BridgeError(BridgeError),
}

/// Whether a status-register word reports the core as halted.
pub open spec fn status_halted(status: u32) -> bool {
    status & STATUS_HALTED != 0
}

/// Whether `halt` succeeds: either the state is already Halted (idempotence)
/// or the status register shows the halted bit.
pub open spec fn halt_succeeds(state: RiscvCpuState, halted: bool) -> bool {
    state == RiscvCpuState::Halted || halted
}

/// The run state `halt` leaves behind.
pub open spec fn halt_transition(state: RiscvCpuState, halted: bool) -> RiscvCpuState {
    if state == RiscvCpuState::Halted || halted {
        RiscvCpuState::Halted
    } else {
        state
    }
}

/// `resume` is legal only from the Halted state.
pub open spec fn resume_allowed(state: RiscvCpuState) -> bool {
    state == RiscvCpuState::Halted
}

/// The run state `resume` leaves behind.
pub open spec fn resume_transition(state: RiscvCpuState) -> RiscvCpuState {
    if state == RiscvCpuState::Halted {
        RiscvCpuState::Running
    } else {
        state
    }
}

/// Whether one poll observes the transition that is reported to the client:
/// the recorded state was Running and the status register now shows halted.
pub open spec fn poll_observes_halt(state: RiscvCpuState, halted: bool) -> bool {
    state == RiscvCpuState::Running && halted
}

/// The run state a successful poll records: what the status register shows.
pub open spec fn poll_transition(halted: bool) -> RiscvCpuState {
    if halted {
        RiscvCpuState::Halted
    } else {
        RiscvCpuState::Running
    }
}

/// Byte `a` of the bus seen as byte-addressed memory: byte `a & 3` of the
/// word at the word-aligned address containing `a`, little-endian.
pub open spec fn byte_at(mem: Map<u32, u32>, a: u32) -> u8 {
    word_byte(word_of(mem, a & 0xfffffffc), (a & 3) as int)
}

/// Every bus address splits into its word address and its byte index.
proof fn lemma_byte_addr(a: u32)
    ensures
        a & 3 < 4,
        (a & 0xfffffffc) + (a & 3) == a,
        a & 3 == 0 ==> a & 0xfffffffc == a,
        (a & 0xfffffffc) & 0xfffffffc == a & 0xfffffffc,
        (a & 0xfffffffc) & 3 == 0,
{
    assert(a & 3 < 4 && (a & 0xfffffffc) + (a & 3) == a && (a & 3 == 0 ==> a & 0xfffffffc == a) && (
    (a & 0xfffffffc) & 0xfffffffc == a & 0xfffffffc) && ((a & 0xfffffffc) & 3 == 0))
        by (bit_vector);
}

/// Two addresses with the same word address and the same byte index are equal.
proof fn lemma_byte_addr_inj(a: u32, b: u32)
    ensures
        (a & 0xfffffffc == b & 0xfffffffc && a & 3 == b & 3) ==> a == b,
{
    assert((a & 0xfffffffc == b & 0xfffffffc && a & 3 == b & 3) ==> a == b) by (bit_vector);
}

/// Offsets 0..4 from a word-aligned address stay in that word, at that index.
proof fn lemma_word_offset(a: u32, k: u32, a2: u32)
    requires
        a & 3 == 0,
        k < 4,
        a2 == a + k,
    ensures
        a2 & 0xfffffffc == a,
        a2 & 3 == k,
{
    assert((a & 3 == 0 && k < 4 && a2 == a + k) ==> (a2 & 0xfffffffc == a && a2 & 3 == k))
        by (bit_vector);
}

/// The debug controller for one core.  It holds the single record of the
/// core's run state; the driver loop and the poller both work through this
/// record, never through copies of it.
pub struct RiscvCpu {
    state: RiscvCpuState,
}

impl RiscvCpu {
    /// The recorded run state.
    pub closed spec fn state(self) -> RiscvCpuState {
        self.state
    }

    /// A fresh controller: nothing is known before the first status read.
    pub fn new() -> (r: RiscvCpu)
        ensures
            r.state() == RiscvCpuState::Unknown,
    {
        RiscvCpu { state: RiscvCpuState::Unknown }
    }

    /// The recorded run state, executable form.
    pub fn run_state(&self) -> (r: RiscvCpuState)
        ensures
            r == self.state(),
    {
        self.state
    }

    /// Request a halt: write the halt bit, then poll the status register
    /// until the halted bit shows or the retry bound runs out.  Halting an
    /// already-halted core succeeds without touching the bus.
    pub fn halt(&mut self, bridge: &mut Bridge) -> (r: Result<(), RiscvCpuError>)
        ensures
            old(self).state() == RiscvCpuState::Halted ==> r.is_ok() && *final (self) == *old(self)
                && *final (bridge) == *old(bridge),
            old(self).state() != RiscvCpuState::Halted && !old(bridge).is_connected() ==> r == Err::<
                (),
                RiscvCpuError,
            >(RiscvCpuError::BridgeError(BridgeError::NotConnected)) && *final (self) == *old(self)
                && *final (bridge) == *old(bridge),
            old(self).state() != RiscvCpuState::Halted && old(bridge).is_connected() ==> ({
                let mem1 = old(bridge).mem().insert(DEBUG_CONTROL, CONTROL_HALT_REQUEST);
                let halted = status_halted(word_of(mem1, DEBUG_STATUS));
                &&& final (bridge).is_connected()
                &&& final (bridge).mem() == mem1
                &&& final (self).state() == halt_transition(old(self).state(), halted)
                &&& r.is_ok() == halt_succeeds(old(self).state(), halted)
                &&& !halt_succeeds(old(self).state(), halted) ==> r == Err::<(), RiscvCpuError>(
                    RiscvCpuError::Timeout,
                )
            }),
    {
        if self.state == RiscvCpuState::Halted {
            return Ok(());
        }
        match bridge.poke(DEBUG_CONTROL, CONTROL_HALT_REQUEST) {
            Err(e) => {
                return Err(RiscvCpuError::BridgeError(e));
            },
            Ok(_) => {},
        }
        let mut tries: u32 = 0;
        while tries < HALT_RETRIES
            invariant
                old(self).state() != RiscvCpuState::Halted,
                old(bridge).is_connected(),
                bridge.is_connected(),
                bridge.mem() == old(bridge).mem().insert(DEBUG_CONTROL, CONTROL_HALT_REQUEST),
                self.state() == old(self).state(),
                tries > 0 ==> !status_halted(word_of(bridge.mem(), DEBUG_STATUS)),
            decreases HALT_RETRIES - tries,
        {
            let status = match bridge.peek(DEBUG_STATUS) {
                Err(e) => {
                    return Err(RiscvCpuError::BridgeError(e));
                },
                Ok(s) => s,
            };
            if status & STATUS_HALTED != 0 {
                self.state = RiscvCpuState::Halted;
                return Ok(());
            }
            tries = tries + 1;
        }
        Err(RiscvCpuError::Timeout)
    }

    /// Clear the halt request so the core runs again.  Refused with an
    /// invalid-state error, and without any bus traffic, unless the recorded
    /// state is Halted.
    pub fn resume(&mut self, bridge: &mut Bridge) -> (r: Result<(), RiscvCpuError>)
        ensures
            !resume_allowed(old(self).state()) ==> r == Err::<(), RiscvCpuError>(
                RiscvCpuError::InvalidState,
            ) && *final (self) == *old(self) && *final (bridge) == *old(bridge),
            resume_allowed(old(self).state()) && !old(bridge).is_connected() ==> r == Err::<
                (),
                RiscvCpuError,
            >(RiscvCpuError::BridgeError(BridgeError::NotConnected)) && *final (self) == *old(self)
                && *final (bridge) == *old(bridge),
            resume_allowed(old(self).state()) && old(bridge).is_connected() ==> r.is_ok() && final (self).state() == resume_transition(old(self).state()) && final (self).state()
                == RiscvCpuState::Running && final (bridge).is_connected() && final (bridge).mem()
                == old(bridge).mem().insert(DEBUG_CONTROL, CONTROL_CLEAR),
    {
        if self.state != RiscvCpuState::Halted {
            return Err(RiscvCpuError::InvalidState);
        }
        match bridge.poke(DEBUG_CONTROL, CONTROL_CLEAR) {
            Err(e) => {
                return Err(RiscvCpuError::BridgeError(e));
            },
            Ok(_) => {},
        }
        self.state = RiscvCpuState::Running;
        Ok(())
    }

    /// Request one instruction step: write the step bit, wait for the halted
    /// bit, end Halted.  The recorded state passes through SingleStepping;
    /// only the end state is visible to a caller that checks afterwards.
    pub fn step(&mut self, bridge: &mut Bridge) -> (r: Result<(), RiscvCpuError>)
        ensures
            old(self).state() != RiscvCpuState::Halted ==> r == Err::<(), RiscvCpuError>(
                RiscvCpuError::InvalidState,
            ) && *final (self) == *old(self) && *final (bridge) == *old(bridge),
            old(self).state() == RiscvCpuState::Halted && !old(bridge).is_connected() ==> r
                == Err::<(), RiscvCpuError>(RiscvCpuError::BridgeError(BridgeError::NotConnected))
                && *final (self) == *old(self) && *final (bridge) == *old(bridge),
            old(self).state() == RiscvCpuState::Halted && old(bridge).is_connected() ==> ({
                let mem1 = old(bridge).mem().insert(DEBUG_CONTROL, CONTROL_STEP_REQUEST);
                let halted = status_halted(word_of(mem1, DEBUG_STATUS));
                &&& final (bridge).is_connected()
                &&& final (bridge).mem() == mem1
                &&& r.is_ok() == halted
                &&& (halted ==> final (self).state() == RiscvCpuState::Halted)
                &&& (!halted ==> r == Err::<(), RiscvCpuError>(RiscvCpuError::Timeout) && final (self).state() == RiscvCpuState::SingleStepping)
            }),
    {
        if self.state != RiscvCpuState::Halted {
            return Err(RiscvCpuError::InvalidState);
        }
        match bridge.poke(DEBUG_CONTROL, CONTROL_STEP_REQUEST) {
            Err(e) => {
                return Err(RiscvCpuError::BridgeError(e));
            },
            Ok(_) => {},
        }
        self.state = RiscvCpuState::SingleStepping;
        let mut tries: u32 = 0;
        while tries < HALT_RETRIES
            invariant
                old(self).state() == RiscvCpuState::Halted,
                old(bridge).is_connected(),
                bridge.is_connected(),
                bridge.mem() == old(bridge).mem().insert(DEBUG_CONTROL, CONTROL_STEP_REQUEST),
                self.state() == RiscvCpuState::SingleStepping,
                tries > 0 ==> !status_halted(word_of(bridge.mem(), DEBUG_STATUS)),
            decreases HALT_RETRIES - tries,
        {
            let status = match bridge.peek(DEBUG_STATUS) {
                Err(e) => {
                    return Err(RiscvCpuError::BridgeError(e));
                },
                Ok(s) => s,
            };
            if status & STATUS_HALTED != 0 {
                self.state = RiscvCpuState::Halted;
                return Ok(());
            }
            tries = tries + 1;
        }
        Err(RiscvCpuError::Timeout)
    }

    /// One poll of the status register.  Records what the register shows and
    /// reports `true` exactly when a Running-to-Halted transition was
    /// observed, so the session layer can emit a stop notification.  A bus
    /// failure leaves the recorded state untouched; the next successful poll
    /// re-synchronizes.
    pub fn poll(&mut self, bridge: &Bridge) -> (r: Result<bool, RiscvCpuError>)
        ensures
            !bridge.is_connected() ==> r == Err::<bool, RiscvCpuError>(
                RiscvCpuError::BridgeError(BridgeError::NotConnected),
            ) && *final (self) == *old(self),
            bridge.is_connected() ==> ({
                let halted = status_halted(bridge.word_at(DEBUG_STATUS));
                &&& r == Ok::<bool, RiscvCpuError>(poll_observes_halt(old(self).state(), halted))
                &&& final (self).state() == poll_transition(halted)
            }),
    {
        let status = match bridge.peek(DEBUG_STATUS) {
            Err(e) => {
                return Err(RiscvCpuError::BridgeError(e));
            },
            Ok(s) => s,
        };
        let halted = status & STATUS_HALTED != 0;
        let was_running = self.state == RiscvCpuState::Running;
        self.state = if halted {
            RiscvCpuState::Halted
        } else {
            RiscvCpuState::Running
        };
        Ok(was_running && halted)
    }

    /// Read general register `reg` (the program counter is the last slot):
    /// write the index to the select register, then read the data register.
    pub fn read_register(&self, bridge: &mut Bridge, reg: u32) -> (r: Result<u32, RiscvCpuError>)
        ensures
            reg >= REGISTER_COUNT ==> r == Err::<u32, RiscvCpuError>(RiscvCpuError::InvalidRegister)
                && *final (bridge) == *old(bridge),
            reg < REGISTER_COUNT && !old(bridge).is_connected() ==> r == Err::<u32, RiscvCpuError>(
                RiscvCpuError::BridgeError(BridgeError::NotConnected),
            ) && *final (bridge) == *old(bridge),
            reg < REGISTER_COUNT && old(bridge).is_connected() ==> final (bridge).is_connected()
                && final (bridge).mem() == old(bridge).mem().insert(DEBUG_REG_SELECT, reg) && r
                == Ok::<u32, RiscvCpuError>(word_of(old(bridge).mem(), DEBUG_REG_DATA)),
    {
        if reg >= REGISTER_COUNT {
            return Err(RiscvCpuError::InvalidRegister);
        }
        match bridge.poke(DEBUG_REG_SELECT, reg) {
            Err(e) => {
                return Err(RiscvCpuError::BridgeError(e));
            },
            Ok(_) => {},
        }
        match bridge.peek(DEBUG_REG_DATA) {
            Err(e) => Err(RiscvCpuError::BridgeError(e)),
            Ok(w) => Ok(w),
        }
    }

    /// Write general register `reg`: write the index to the select register,
    /// then the value to the data register.
    pub fn write_register(&self, bridge: &mut Bridge, reg: u32, value: u32) -> (r: Result<
        (),
        RiscvCpuError,
    >)
        ensures
            reg >= REGISTER_COUNT ==> r == Err::<(), RiscvCpuError>(RiscvCpuError::InvalidRegister)
                && *final (bridge) == *old(bridge),
            reg < REGISTER_COUNT && !old(bridge).is_connected() ==> r == Err::<(), RiscvCpuError>(
                RiscvCpuError::BridgeError(BridgeError::NotConnected),
            ) && *final (bridge) == *old(bridge),
            reg < REGISTER_COUNT && old(bridge).is_connected() ==> r.is_ok() && final (bridge).is_connected() && final (bridge).mem() == old(bridge).mem().insert(
                DEBUG_REG_SELECT,
                reg,
            ).insert(DEBUG_REG_DATA, value),
    {
        if reg >= REGISTER_COUNT {
            return Err(RiscvCpuError::InvalidRegister);
        }
        match bridge.poke(DEBUG_REG_SELECT, reg) {
            Err(e) => {
                return Err(RiscvCpuError::BridgeError(e));
            },
            Ok(_) => {},
        }
        match bridge.poke(DEBUG_REG_DATA, value) {
            Err(e) => Err(RiscvCpuError::BridgeError(e)),
            Ok(_) => Ok(()),
        }
    }

    /// Arm the hardware breakpoint at `addr` (enable bit is bit 0).
    pub fn set_breakpoint(&self, bridge: &mut Bridge, addr: u32) -> (r: Result<(), RiscvCpuError>)
        ensures
            !old(bridge).is_connected() ==> r == Err::<(), RiscvCpuError>(
                RiscvCpuError::BridgeError(BridgeError::NotConnected),
            ) && *final (bridge) == *old(bridge),
            old(bridge).is_connected() ==> r.is_ok() && final (bridge).is_connected() && final (bridge).mem() == old(bridge).mem().insert(DEBUG_BREAKPOINT, addr | 1),
    {
        match bridge.poke(DEBUG_BREAKPOINT, addr | 1) {
            Err(e) => Err(RiscvCpuError::BridgeError(e)),
            Ok(_) => Ok(()),
        }
    }

    /// Disarm the hardware breakpoint.
    pub fn clear_breakpoint(&self, bridge: &mut Bridge, addr: u32) -> (r: Result<
        (),
        RiscvCpuError,
    >)
        ensures
            !old(bridge).is_connected() ==> r == Err::<(), RiscvCpuError>(
                RiscvCpuError::BridgeError(BridgeError::NotConnected),
            ) && *final (bridge) == *old(bridge),
            old(bridge).is_connected() ==> r.is_ok() && final (bridge).is_connected() && final (bridge).mem() == old(bridge).mem().insert(DEBUG_BREAKPOINT, addr & 0xfffffffe),
    {
        match bridge.poke(DEBUG_BREAKPOINT, addr & 0xfffffffe) {
            Err(e) => Err(RiscvCpuError::BridgeError(e)),
            Ok(_) => Ok(()),
        }
    }

    /// Read `length` bytes starting at byte address `addr`.  A whole
    /// covered word is fetched with one bus read and split little-endian;
    /// a word only partly covered is read whole and the covered bytes are
    /// taken from it.
    pub fn read_memory(&self, bridge: &Bridge, addr: u32, length: u32) -> (r: Result<
        Vec<u8>,
        RiscvCpuError,
    >)
        requires
            addr as int + length as int <= 0x1_0000_0000,
        ensures
            !bridge.is_connected() ==> r == Err::<Vec<u8>, RiscvCpuError>(
                RiscvCpuError::BridgeError(BridgeError::NotConnected),
            ),
            bridge.is_connected() ==> (r matches Ok(data) && data@.len() == length as int && (
            forall|i: int|
                0 <= i < length as int ==> data@[i] == byte_at(bridge.mem(), (addr + i) as u32))),
    {
        if !bridge.connected() {
            return Err(RiscvCpuError::BridgeError(BridgeError::NotConnected));
        }
        let mut data: Vec<u8> = Vec::new();
        let mut i: u32 = 0;
        while i < length
            invariant
                bridge.is_connected(),
                addr as int + length as int <= 0x1_0000_0000,
                i <= length,
                data@.len() == i as int,
                forall|j: int|
                    0 <= j < i as int ==> data@[j] == byte_at(bridge.mem(), (addr + j) as u32),
            decreases length - i,
        {
            let a = addr + i;
            proof {
                lemma_byte_addr(a);
            }
            if a & 3 == 0 && length - i >= 4 {
                let w = match bridge.peek(a) {
                    Err(e) => {
                        return Err(RiscvCpuError::BridgeError(e));
                    },
                    Ok(w) => w,
                };
                data.push(get_byte(w, 0));
                data.push(get_byte(w, 1));
                data.push(get_byte(w, 2));
                data.push(get_byte(w, 3));
                proof {
                    assert forall|k: u32| k < 4 implies #[trigger] byte_at(
                        bridge.mem(),
                        (a + k) as u32,
                    ) == word_byte(w, k as int) by {
                        lemma_word_offset(a, k, (a + k) as u32);
                    }
                    assert forall|j: int| 0 <= j < i + 4 implies data@[j] == byte_at(
                        bridge.mem(),
                        (addr + j) as u32,
                    ) by {
                        if i as int <= j {
                            let k = (j - i) as u32;
                            assert((addr + j) as u32 == a + k);
                            assert(byte_at(bridge.mem(), (a + k) as u32) == word_byte(
                                w,
                                k as int,
                            ));
                        }
                    }
                }
                i = i + 4;
            } else {
                let wa = a & 0xfffffffc;
                let k = (a & 3) as usize;
                let w = match bridge.peek(wa) {
                    Err(e) => {
                        return Err(RiscvCpuError::BridgeError(e));
                    },
                    Ok(w) => w,
                };
                let b = get_byte(w, k);
                data.push(b);
                i = i + 1;
            }
        }
        Ok(data)
    }

    /// Write `data` at byte address `addr`.  Whole covered words are written
    /// with one bus write each; a word only partly covered is first read,
    /// the covered bytes are spliced in, and the whole word is written back,
    /// so every byte outside the requested range keeps its exact value.
    pub fn write_memory(&self, bridge: &mut Bridge, addr: u32, data: &Vec<u8>) -> (r: Result<
        (),
        RiscvCpuError,
    >)
        requires
            addr as int + data@.len() <= 0x1_0000_0000,
        ensures
            !old(bridge).is_connected() ==> r == Err::<(), RiscvCpuError>(
                RiscvCpuError::BridgeError(BridgeError::NotConnected),
            ) && *final (bridge) == *old(bridge),
            old(bridge).is_connected() ==> r.is_ok() && final (bridge).is_connected() && (forall|
                i: int,
            |
                0 <= i < data@.len() ==> byte_at(final (bridge).mem(), (addr + i) as u32)
                    == data@[i]) && (forall|a: u32|
                !(addr <= a && (a as int) < addr as int + data@.len()) ==> #[trigger] byte_at(
                    final (bridge).mem(),
                    a,
                ) == byte_at(old(bridge).mem(), a)),
    {
        if !bridge.connected() {
            return Err(RiscvCpuError::BridgeError(BridgeError::NotConnected));
        }
        let len = data.len();
        let mut i: usize = 0;
        while i < len
            invariant
                bridge.is_connected(),
                len == data@.len(),
                i <= len,
                addr as int + len as int <= 0x1_0000_0000,
                forall|j: int|
                    0 <= j < i as int ==> byte_at(bridge.mem(), (addr + j) as u32) == data@[j],
                forall|a: u32|
                    !(addr <= a && (a as int) < addr as int + len as int) ==> #[trigger] byte_at(
                        bridge.mem(),
                        a,
                    ) == byte_at(old(bridge).mem(), a),
            decreases len - i,
        {
            let a = addr + (i as u32);
            let ghost mem1 = bridge.mem();
            if a & 3 == 0 && len - i >= 4 {
                let w = word_of_le_bytes(data[i], data[i + 1], data[i + 2], data[i + 3]);
                match bridge.poke(a, w) {
                    Err(e) => {
                        return Err(RiscvCpuError::BridgeError(e));
                    },
                    Ok(_) => {},
                }
                proof {
                    lemma_word_from_le_bytes(
                        data@[i as int],
                        data@[i + 1],
                        data@[i + 2],
                        data@[i + 3],
                    );
                    assert forall|b: u32| b & 0xfffffffc != a implies byte_at(bridge.mem(), b)
                        == byte_at(mem1, b) by {}
                    assert forall|k: u32| k < 4 implies #[trigger] byte_at(
                        bridge.mem(),
                        (a + k) as u32,
                    ) == data@[i + k] by {
                        lemma_word_offset(a, k, (a + k) as u32);
                    }
                    assert forall|a2: u32|
                        !(addr <= a2 && (a2 as int) < addr as int + len as int) implies #[trigger] byte_at(
                        bridge.mem(),
                        a2,
                    ) == byte_at(old(bridge).mem(), a2) by {
                        lemma_byte_addr(a2);
                        if a2 & 0xfffffffc == a {
                            assert(a2 == a + (a2 & 3));
                            assert(false);
                        }
                        assert(byte_at(bridge.mem(), a2) == byte_at(mem1, a2));
                    }
                    assert forall|j: int| 0 <= j < i + 4 implies byte_at(
                        bridge.mem(),
                        (addr + j) as u32,
                    ) == data@[j] by {
                        let b = (addr + j) as u32;
                        lemma_byte_addr(b);
                        if j < i as int {
                            if b & 0xfffffffc == a {
                                assert(b == a + (b & 3));
                                assert(false);
                            }
                        } else {
                            let k = (j - i) as u32;
                            assert(b == a + k);
                            lemma_word_offset(a, k, b);
                        }
                    }
                }
                i = i + 4;
            } else {
                proof {
                    lemma_byte_addr(a);
                }
                let wa = a & 0xfffffffc;
                let k = (a & 3) as usize;
                let w0 = match bridge.peek(wa) {
                    Err(e) => {
                        return Err(RiscvCpuError::BridgeError(e));
                    },
                    Ok(w) => w,
                };
                let w1 = set_byte(w0, k, data[i]);
                match bridge.poke(wa, w1) {
                    Err(e) => {
                        return Err(RiscvCpuError::BridgeError(e));
                    },
                    Ok(_) => {},
                }
                proof {
                    lemma_set_byte(w0, k as int, data@[i as int]);
                    assert(byte_at(bridge.mem(), a) == data@[i as int]);
                    assert forall|b: u32| b != a implies byte_at(bridge.mem(), b) == byte_at(
                        mem1,
                        b,
                    ) by {
                        lemma_byte_addr(b);
                        if b & 0xfffffffc == wa {
                            lemma_byte_addr_inj(a, b);
                        }
                    }
                    assert forall|a2: u32|
                        !(addr <= a2 && (a2 as int) < addr as int + len as int) implies #[trigger] byte_at(
                        bridge.mem(),
                        a2,
                    ) == byte_at(old(bridge).mem(), a2) by {
                        assert(byte_at(bridge.mem(), a2) == byte_at(mem1, a2));
                    }
                }
                i = i + 1;
            }
        }
        Ok(())
    }
}

/// `halt` is idempotent: once a halt has succeeded the run state is Halted,
/// and a second halt succeeds and leaves it Halted, whatever the status
/// register shows by then.
pub proof fn lemma_halt_idempotent(state: RiscvCpuState, halted1: bool, halted2: bool)
    requires
        halt_succeeds(state, halted1),
    ensures
        halt_transition(state, halted1) == RiscvCpuState::Halted,
        halt_succeeds(halt_transition(state, halted1), halted2),
        halt_transition(halt_transition(state, halted1), halted2) == RiscvCpuState::Halted,
{
}

/// `resume` outside the Halted state (in particular while Running) is an
/// invalid-state error and does not alter the run state.
pub proof fn lemma_resume_requires_halted(state: RiscvCpuState)
    requires
        state != RiscvCpuState::Halted,
    ensures
        !resume_allowed(state),
        resume_transition(state) == state,
{
}

} // verus!
