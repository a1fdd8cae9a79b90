use wishbone_tool::bridge::{Bridge, BridgeError};
use wishbone_tool::riscv::{
    RiscvCpu, RiscvCpuError, RiscvCpuState, DEBUG_BREAKPOINT, DEBUG_CONTROL, DEBUG_REG_DATA,
    DEBUG_REG_SELECT, DEBUG_STATUS,
};

fn connected_bridge() -> Bridge {
    let mut b = Bridge::new();
    b.connect().unwrap();
    b
}

#[test]
fn poke_then_peek_round_trip() {
    let mut b = connected_bridge();
    b.poke(0x1000_0000, 0x1234_5678).unwrap();
    assert_eq!(b.peek(0x1000_0000).unwrap(), 0x1234_5678);
    b.poke(0x1000_0000, 0xffff_0000).unwrap();
    assert_eq!(b.peek(0x1000_0000).unwrap(), 0xffff_0000);
}

#[test]
fn unwritten_address_reads_zero() {
    let b = connected_bridge();
    assert_eq!(b.peek(0xdead_0000).unwrap(), 0);
}

#[test]
fn transactions_refused_before_connect() {
    let mut b = Bridge::new();
    assert!(matches!(b.peek(4), Err(BridgeError::NotConnected)));
    assert!(matches!(b.poke(4, 1), Err(BridgeError::NotConnected)));
    b.connect().unwrap();
    assert!(b.peek(4).is_ok());
}

#[test]
fn halt_is_idempotent() {
    let mut b = connected_bridge();
    b.poke(DEBUG_STATUS, 1).unwrap();
    let mut cpu = RiscvCpu::new();
    assert_eq!(cpu.run_state(), RiscvCpuState::Unknown);
    assert!(cpu.halt(&mut b).is_ok());
    assert_eq!(cpu.run_state(), RiscvCpuState::Halted);
    assert!(cpu.halt(&mut b).is_ok());
    assert_eq!(cpu.run_state(), RiscvCpuState::Halted);
}

#[test]
fn halt_times_out_when_halted_bit_never_shows() {
    let mut b = connected_bridge();
    b.poke(DEBUG_STATUS, 0).unwrap();
    let mut cpu = RiscvCpu::new();
    assert!(matches!(cpu.halt(&mut b), Err(RiscvCpuError::Timeout)));
    assert_eq!(cpu.run_state(), RiscvCpuState::Unknown);
}

#[test]
fn resume_outside_halted_is_invalid_state() {
    let mut b = connected_bridge();
    b.poke(DEBUG_STATUS, 1).unwrap();
    let mut cpu = RiscvCpu::new();
    // Not yet halted: refuse.
    assert!(matches!(cpu.resume(&mut b), Err(RiscvCpuError::InvalidState)));
    assert_eq!(cpu.run_state(), RiscvCpuState::Unknown);
    cpu.halt(&mut b).unwrap();
    assert!(cpu.resume(&mut b).is_ok());
    assert_eq!(cpu.run_state(), RiscvCpuState::Running);
    // Running: refuse again, state untouched.
    assert!(matches!(cpu.resume(&mut b), Err(RiscvCpuError::InvalidState)));
    assert_eq!(cpu.run_state(), RiscvCpuState::Running);
}

#[test]
fn step_ends_halted() {
    let mut b = connected_bridge();
    b.poke(DEBUG_STATUS, 1).unwrap();
    let mut cpu = RiscvCpu::new();
    cpu.halt(&mut b).unwrap();
    assert!(cpu.step(&mut b).is_ok());
    assert_eq!(cpu.run_state(), RiscvCpuState::Halted);
    assert_eq!(b.peek(DEBUG_CONTROL).unwrap(), 0x2);
}

#[test]
fn step_refused_unless_halted() {
    let mut b = connected_bridge();
    let mut cpu = RiscvCpu::new();
    assert!(matches!(cpu.step(&mut b), Err(RiscvCpuError::InvalidState)));
}

#[test]
fn register_access_drives_select_and_data() {
    let mut b = connected_bridge();
    let cpu = RiscvCpu::new();
    cpu.write_register(&mut b, 5, 0xcafe_f00d).unwrap();
    assert_eq!(b.peek(DEBUG_REG_SELECT).unwrap(), 5);
    assert_eq!(b.peek(DEBUG_REG_DATA).unwrap(), 0xcafe_f00d);
    assert_eq!(cpu.read_register(&mut b, 7).unwrap(), 0xcafe_f00d);
    assert_eq!(b.peek(DEBUG_REG_SELECT).unwrap(), 7);
}

#[test]
fn register_index_out_of_range() {
    let mut b = connected_bridge();
    let cpu = RiscvCpu::new();
    assert!(matches!(
        cpu.read_register(&mut b, 33),
        Err(RiscvCpuError::InvalidRegister)
    ));
    assert!(matches!(
        cpu.write_register(&mut b, 40, 1),
        Err(RiscvCpuError::InvalidRegister)
    ));
}

#[test]
fn breakpoints_write_the_breakpoint_register() {
    let mut b = connected_bridge();
    let cpu = RiscvCpu::new();
    cpu.set_breakpoint(&mut b, 0x2000_0004).unwrap();
    assert_eq!(b.peek(DEBUG_BREAKPOINT).unwrap(), 0x2000_0005);
    cpu.clear_breakpoint(&mut b, 0x2000_0004).unwrap();
    assert_eq!(b.peek(DEBUG_BREAKPOINT).unwrap(), 0x2000_0004);
}

#[test]
fn unaligned_write_preserves_boundary_bytes() {
    let mut b = connected_bridge();
    let cpu = RiscvCpu::new();
    b.poke(0x1000, 0xaabb_ccdd).unwrap();
    b.poke(0x1004, 0x1122_3344).unwrap();
    // Five bytes starting one byte into the first word.
    cpu.write_memory(&mut b, 0x1001, &vec![0xee, 0xff, 0x99, 0x77, 0x55])
        .unwrap();
    // First word: low byte 0xdd kept, upper three replaced (little-endian).
    assert_eq!(b.peek(0x1000).unwrap(), 0x99ff_eedd);
    // Second word: two low bytes replaced, two high bytes kept.
    assert_eq!(b.peek(0x1004).unwrap(), 0x1122_5577);
}

#[test]
fn aligned_write_covers_whole_words() {
    let mut b = connected_bridge();
    let cpu = RiscvCpu::new();
    cpu.write_memory(&mut b, 0x2000, &vec![0x78, 0x56, 0x34, 0x12, 0xef, 0xbe, 0xad, 0xde])
        .unwrap();
    assert_eq!(b.peek(0x2000).unwrap(), 0x1234_5678);
    assert_eq!(b.peek(0x2004).unwrap(), 0xdead_beef);
}

#[test]
fn read_memory_returns_bytes_little_endian() {
    let mut b = connected_bridge();
    let cpu = RiscvCpu::new();
    b.poke(0x3000, 0xdead_beef).unwrap();
    let data = cpu.read_memory(&b, 0x3000, 4).unwrap();
    assert_eq!(data, vec![0xef, 0xbe, 0xad, 0xde]);
    let tail = cpu.read_memory(&b, 0x3002, 4).unwrap();
    assert_eq!(tail, vec![0xad, 0xde, 0x00, 0x00]);
}

#[test]
fn write_then_read_memory_round_trip() {
    let mut b = connected_bridge();
    let cpu = RiscvCpu::new();
    let bytes = vec![1, 2, 3, 4, 5, 6, 7];
    cpu.write_memory(&mut b, 0x4003, &bytes).unwrap();
    assert_eq!(cpu.read_memory(&b, 0x4003, 7).unwrap(), bytes);
}

#[test]
fn poll_reports_only_the_running_to_halted_edge() {
    let mut b = connected_bridge();
    b.poke(DEBUG_STATUS, 1).unwrap();
    let mut cpu = RiscvCpu::new();
    cpu.halt(&mut b).unwrap();
    cpu.resume(&mut b).unwrap();
    b.poke(DEBUG_STATUS, 0).unwrap();
    // Still running: nothing to report.
    assert_eq!(cpu.poll(&b).unwrap(), false);
    assert_eq!(cpu.run_state(), RiscvCpuState::Running);
    // A breakpoint fires behind our back.
    b.poke(DEBUG_STATUS, 1).unwrap();
    assert_eq!(cpu.poll(&b).unwrap(), true);
    assert_eq!(cpu.run_state(), RiscvCpuState::Halted);
    // Already halted: the same status is no longer news.
    assert_eq!(cpu.poll(&b).unwrap(), false);
}

#[test]
fn poll_on_dead_bridge_leaves_state_alone() {
    let b = Bridge::new();
    let mut cpu = RiscvCpu::new();
    assert!(matches!(
        cpu.poll(&b),
        Err(RiscvCpuError::BridgeError(BridgeError::NotConnected))
    ));
    assert_eq!(cpu.run_state(), RiscvCpuState::Unknown);
}
