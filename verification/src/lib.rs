//! A hardware debug bridge: it exposes a remote CPU's memory-mapped bus
//! through a single 32-bit peek/poke primitive and layers a debugger wire
//! protocol and a bus wire protocol on top of it.
//!
//! The bridge is backed by a model of the bus: the map from address to the
//! word most recently written there.  Every contract in the crate is stated
//! and proved over that model, so each protocol reply and each controller
//! operation is pinned down to the exact bus transactions it performs.  The
//! physical plumbing — USB transport, sockets, threads — lives outside the
//! library and hands it plain values.
//!
//! The layers, leaves first:
//! - [`words`]: byte-level views of 32-bit bus words;
//! - [`bridge`]: the peek/poke primitive over the bus model;
//! - [`riscv`]: the CPU debug controller — halt, resume, step, registers,
//!   byte-granular memory access with read-modify-write at word boundaries;
//! - [`gdb`]: the debugger wire protocol — checksummed packet framing,
//!   command grammar, dispatch, and the stop-notification poller;
//! - [`wishbone`]: the bus wire protocol that re-exposes peek/poke;
//! - [`config`] and [`server`]: startup choices, the error taxonomy, and
//!   the one-shot and stress modes.

pub mod words;

pub mod bridge;

pub mod riscv;

pub mod gdb;

pub mod wishbone;

pub mod config;

pub mod server;
