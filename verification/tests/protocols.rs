use wishbone_tool::bridge::{Bridge, BridgeError};
use wishbone_tool::config::{Config, ConfigError};
use wishbone_tool::gdb::{
    check_stop, checksum, frame_response, handle_interrupt, hex_encode, parse_command,
    to_hex_digit, GdbCommand, GdbServer,
};
use wishbone_tool::riscv::{
    RiscvCpu, RiscvCpuState, DEBUG_BREAKPOINT, DEBUG_REG_DATA, DEBUG_REG_SELECT, DEBUG_STATUS,
};
use wishbone_tool::server::{
    memory_access, random_test, stress_step, MemoryAccessOutcome, ServerError, ServerKind,
};
use wishbone_tool::wishbone::{WishboneServer, WishboneServerError};

fn connected_bridge() -> Bridge {
    let mut b = Bridge::new();
    b.connect().unwrap();
    b
}

/// Frame a payload the way a client would: `$payload#xx`.
fn client_frame(payload: &[u8]) -> Vec<u8> {
    let p: Vec<u8> = payload.to_vec();
    let cs = checksum(&p);
    let mut f = vec![b'$'];
    f.extend_from_slice(payload);
    f.push(b'#');
    f.push(to_hex_digit(cs / 16));
    f.push(to_hex_digit(cs % 16));
    f
}

/// Feed a byte string; collect the acks and the last completed packet.
fn feed(server: &mut GdbServer, bytes: &[u8]) -> (Vec<u8>, Option<Vec<u8>>) {
    let mut acks = Vec::new();
    let mut packet = None;
    for &b in bytes {
        let out = server.handle_byte(b);
        if let Some(a) = out.ack {
            acks.push(a);
        }
        if let Some(p) = out.packet {
            packet = Some(p);
        }
    }
    (acks, packet)
}

#[test]
fn good_checksum_is_acked_and_dispatched() {
    let mut server = GdbServer::new();
    let frame = client_frame(b"m0,4");
    let (acks, packet) = feed(&mut server, &frame);
    assert_eq!(acks, vec![b'+']);
    assert_eq!(packet.unwrap(), b"m0,4".to_vec());
}

#[test]
fn flipped_checksum_is_nacked_and_not_dispatched() {
    let mut server = GdbServer::new();
    let mut frame = client_frame(b"m0,4");
    let last = frame.len() - 1;
    // Change the checksum's low digit to another hex digit.
    frame[last] = if frame[last] == b'0' { b'1' } else { b'0' };
    let (acks, packet) = feed(&mut server, &frame);
    assert_eq!(acks, vec![b'-']);
    assert!(packet.is_none());
    // The client retransmits correctly and is heard.
    let (acks, packet) = feed(&mut server, &client_frame(b"m0,4"));
    assert_eq!(acks, vec![b'+']);
    assert!(packet.is_some());
}

#[test]
fn interrupt_byte_fires_even_mid_packet() {
    let mut server = GdbServer::new();
    let (_, none) = feed(&mut server, b"$m0");
    assert!(none.is_none());
    let out = server.handle_byte(0x03);
    assert!(out.interrupt);
    assert!(out.packet.is_none());
    // The partial packet is still live and completes afterwards.
    let cs = checksum(&b"m0,4".to_vec());
    let mut rest = b",4#".to_vec();
    rest.push(to_hex_digit(cs / 16));
    rest.push(to_hex_digit(cs % 16));
    let (acks, packet) = feed(&mut server, &rest);
    assert_eq!(acks, vec![b'+']);
    assert_eq!(packet.unwrap(), b"m0,4".to_vec());
}

#[test]
fn parse_command_grammar() {
    assert!(matches!(parse_command(&b"g".to_vec()), GdbCommand::ReadRegisters));
    assert!(matches!(
        parse_command(&b"m10000000,4".to_vec()),
        GdbCommand::ReadMemory(0x1000_0000, 4)
    ));
    match parse_command(&b"M10,2:beef".to_vec()) {
        GdbCommand::WriteMemory(a, d) => {
            assert_eq!(a, 0x10);
            assert_eq!(d, vec![0xbe, 0xef]);
        },
        _ => panic!("expected a memory write"),
    }
    assert!(matches!(
        parse_command(&b"Z0,1234,2".to_vec()),
        GdbCommand::SetBreakpoint(0x1234)
    ));
    assert!(matches!(
        parse_command(&b"z0,1234,2".to_vec()),
        GdbCommand::ClearBreakpoint(0x1234)
    ));
    assert!(matches!(parse_command(&b"c".to_vec()), GdbCommand::Continue));
    assert!(matches!(parse_command(&b"s".to_vec()), GdbCommand::Step));
    assert!(matches!(parse_command(&b"?".to_vec()), GdbCommand::QueryHaltReason));
    assert!(matches!(parse_command(&b"D".to_vec()), GdbCommand::Detach));
    assert!(matches!(
        parse_command(&b"qSupported:multiprocess+".to_vec()),
        GdbCommand::QuerySupported
    ));
    assert!(matches!(
        parse_command(&b"QStartNoAckMode".to_vec()),
        GdbCommand::StartNoAckMode
    ));
    match parse_command(&b"G".to_vec()) {
        GdbCommand::WriteRegisters(ws) => assert!(ws.is_empty()),
        _ => panic!("expected a register write"),
    }
    // Malformed fields fall back to Unknown.
    assert!(matches!(parse_command(&b"m10,x".to_vec()), GdbCommand::Unknown));
    assert!(matches!(parse_command(&b"m1234".to_vec()), GdbCommand::Unknown));
    assert!(matches!(parse_command(&b"M10,3:be".to_vec()), GdbCommand::Unknown));
    assert!(matches!(parse_command(&b"v;R".to_vec()), GdbCommand::Unknown));
    assert!(matches!(parse_command(&b"".to_vec()), GdbCommand::Unknown));
}

#[test]
fn memory_read_packet_returns_last_written_word() {
    // End-to-end: connect, write a word, then serve a 4-byte read at
    // 0x10000000 and check the eight hex characters.
    let mut b = connected_bridge();
    b.poke(0x1000_0000, 0xdead_beef).unwrap();
    let mut cpu = RiscvCpu::new();
    let mut server = GdbServer::new();
    let (acks, packet) = feed(&mut server, &client_frame(b"m10000000,4"));
    assert_eq!(acks, vec![b'+']);
    let cmd = parse_command(&packet.unwrap());
    let resp = server.process(cmd, &mut cpu, &mut b);
    assert!(!resp.end_session);
    assert_eq!(resp.payload.unwrap(), b"efbeadde".to_vec());
}

#[test]
fn memory_write_packet_is_read_back() {
    let mut b = connected_bridge();
    let mut cpu = RiscvCpu::new();
    let mut server = GdbServer::new();
    let cmd = parse_command(&b"M10000000,4:efbeadde".to_vec());
    let resp = server.process(cmd, &mut cpu, &mut b);
    assert_eq!(resp.payload.unwrap(), b"OK".to_vec());
    assert_eq!(b.peek(0x1000_0000).unwrap(), 0xdead_beef);
}

#[test]
fn continue_and_step_follow_run_state() {
    let mut b = connected_bridge();
    b.poke(DEBUG_STATUS, 1).unwrap();
    let mut cpu = RiscvCpu::new();
    let mut server = GdbServer::new();
    // Continue before any halt: invalid state becomes a protocol error code.
    let resp = server.process(GdbCommand::Continue, &mut cpu, &mut b);
    assert_eq!(resp.payload.unwrap(), b"E01".to_vec());
    cpu.halt(&mut b).unwrap();
    // Step from Halted replies with the stop signal.
    let resp = server.process(GdbCommand::Step, &mut cpu, &mut b);
    assert_eq!(resp.payload.unwrap(), b"S05".to_vec());
    assert_eq!(cpu.run_state(), RiscvCpuState::Halted);
    // Continue from Halted sends no immediate reply.
    let resp = server.process(GdbCommand::Continue, &mut cpu, &mut b);
    assert!(resp.payload.is_none());
    assert_eq!(cpu.run_state(), RiscvCpuState::Running);
}

#[test]
fn breakpoint_packets_drive_the_breakpoint_register() {
    let mut b = connected_bridge();
    let mut cpu = RiscvCpu::new();
    let mut server = GdbServer::new();
    let resp = server.process(
        parse_command(&b"Z0,20000004,2".to_vec()),
        &mut cpu,
        &mut b,
    );
    assert_eq!(resp.payload.unwrap(), b"OK".to_vec());
    assert_eq!(b.peek(DEBUG_BREAKPOINT).unwrap(), 0x2000_0005);
    let resp = server.process(
        parse_command(&b"z0,20000004,2".to_vec()),
        &mut cpu,
        &mut b,
    );
    assert_eq!(resp.payload.unwrap(), b"OK".to_vec());
    assert_eq!(b.peek(DEBUG_BREAKPOINT).unwrap(), 0x2000_0004);
}

#[test]
fn no_ack_mode_silences_acknowledgments() {
    let mut b = connected_bridge();
    let mut cpu = RiscvCpu::new();
    let mut server = GdbServer::new();
    let (acks, packet) = feed(&mut server, &client_frame(b"QStartNoAckMode"));
    assert_eq!(acks, vec![b'+']);
    let resp = server.process(parse_command(&packet.unwrap()), &mut cpu, &mut b);
    assert_eq!(resp.payload.unwrap(), b"OK".to_vec());
    // From now on packets complete without any acknowledgment byte.
    let (acks, packet) = feed(&mut server, &client_frame(b"g"));
    assert!(acks.is_empty());
    assert!(packet.is_some());
}

#[test]
fn detach_ends_the_session() {
    let mut b = connected_bridge();
    let mut cpu = RiscvCpu::new();
    let mut server = GdbServer::new();
    let resp = server.process(GdbCommand::Detach, &mut cpu, &mut b);
    assert_eq!(resp.payload.unwrap(), b"OK".to_vec());
    assert!(resp.end_session);
}

#[test]
fn unknown_command_gets_the_empty_reply() {
    let mut b = connected_bridge();
    let mut cpu = RiscvCpu::new();
    let mut server = GdbServer::new();
    let resp = server.process(parse_command(&b"X123".to_vec()), &mut cpu, &mut b);
    assert_eq!(resp.payload.unwrap(), Vec::<u8>::new());
    assert_eq!(frame_response(&Vec::new()), b"$#00".to_vec());
}

#[test]
fn poller_emits_unsolicited_stop_notification() {
    // End-to-end: the core runs, a breakpoint fires behind the session's
    // back, and the poller alone produces the framed stop reply.
    let mut b = connected_bridge();
    b.poke(DEBUG_STATUS, 1).unwrap();
    let mut cpu = RiscvCpu::new();
    cpu.halt(&mut b).unwrap();
    cpu.resume(&mut b).unwrap();
    b.poke(DEBUG_STATUS, 0).unwrap();
    assert!(check_stop(&mut cpu, &b).is_none());
    // The breakpoint fires; no foreground request is pending.
    b.poke(DEBUG_STATUS, 1).unwrap();
    let note = check_stop(&mut cpu, &b).unwrap();
    assert_eq!(note, b"$S05#b8".to_vec());
    // Reported once, not again.
    assert!(check_stop(&mut cpu, &b).is_none());
}

#[test]
fn interrupt_request_halts_and_reports() {
    let mut b = connected_bridge();
    b.poke(DEBUG_STATUS, 1).unwrap();
    let mut cpu = RiscvCpu::new();
    let note = handle_interrupt(&mut cpu, &mut b).unwrap();
    assert_eq!(note, b"$S05#b8".to_vec());
    assert_eq!(cpu.run_state(), RiscvCpuState::Halted);
}

#[test]
fn checksum_and_hex_encoding_values() {
    assert_eq!(checksum(&b"m0,4".to_vec()), 0xfd);
    assert_eq!(checksum(&b"S05".to_vec()), 0xb8);
    assert_eq!(checksum(&Vec::new()), 0);
    assert_eq!(hex_encode(&vec![0xde, 0xad, 0x01]), b"dead01".to_vec());
    assert_eq!(frame_response(&b"S05".to_vec()), b"$S05#b8".to_vec());
}

#[test]
fn bus_write_then_read_round_trip() {
    // A write request frame for 0x20000000 = 0xdeadbeef, then a read
    // request for the same address: the response carries 0xdeadbeef.
    let mut b = connected_bridge();
    let mut server = WishboneServer::new(&Config::new()).unwrap();
    let write_frame = vec![1u8, 0x20, 0x00, 0x00, 0x00, 0xde, 0xad, 0xbe, 0xef];
    let resp = server.process(&write_frame, &mut b).unwrap();
    assert_eq!(resp, vec![0u8, 0xde, 0xad, 0xbe, 0xef]);
    let read_frame = vec![0u8, 0x20, 0x00, 0x00, 0x00, 0x00, 0x00, 0x00, 0x00];
    let resp = server.process(&read_frame, &mut b).unwrap();
    assert_eq!(resp, vec![0u8, 0xde, 0xad, 0xbe, 0xef]);
}

#[test]
fn bus_malformed_frame_is_a_protocol_error() {
    let mut b = connected_bridge();
    let mut server = WishboneServer::new(&Config::new()).unwrap();
    assert!(matches!(
        server.process(&vec![1u8, 2, 3], &mut b),
        Err(WishboneServerError::ProtocolError)
    ));
    assert!(matches!(
        server.process(&vec![7u8, 0, 0, 0, 0, 0, 0, 0, 0], &mut b),
        Err(WishboneServerError::ProtocolError)
    ));
}

#[test]
fn bus_failure_is_answered_in_the_status_byte() {
    let mut b = Bridge::new();
    let mut server = WishboneServer::new(&Config::new()).unwrap();
    let read_frame = vec![0u8, 0x20, 0x00, 0x00, 0x00, 0x00, 0x00, 0x00, 0x00];
    let resp = server.process(&read_frame, &mut b).unwrap();
    assert_eq!(resp, vec![1u8, 0, 0, 0, 0]);
}

#[test]
fn server_kind_names() {
    assert!(matches!(
        ServerKind::from_string(&None),
        Ok(ServerKind::NoServer)
    ));
    assert!(matches!(
        ServerKind::from_string(&Some("gdb")),
        Ok(ServerKind::GDB)
    ));
    assert!(matches!(
        ServerKind::from_string(&Some("wishbone")),
        Ok(ServerKind::Wishbone)
    ));
    assert!(matches!(
        ServerKind::from_string(&Some("random-test")),
        Ok(ServerKind::RandomTest)
    ));
    match ServerKind::from_string(&Some("telnet")) {
        Err(ConfigError::UnknownServerKind(s)) => assert_eq!(s, "telnet"),
        _ => panic!("expected the unknown kind to be refused"),
    }
}

#[test]
fn one_shot_memory_access_outcomes() {
    let mut b = connected_bridge();
    let mut cfg = Config::new();
    // No address at all: the caller owes the user a usage hint.
    assert!(matches!(
        memory_access(&cfg, &mut b),
        Ok(MemoryAccessOutcome::NoAddress)
    ));
    // Address and value: one write.
    cfg.memory_address = Some(0x1000_0000);
    cfg.memory_value = Some(0xfeed_f00d);
    assert!(matches!(
        memory_access(&cfg, &mut b),
        Ok(MemoryAccessOutcome::Poked(0x1000_0000, 0xfeed_f00d))
    ));
    // Address alone: one read of what was just written.
    cfg.memory_value = None;
    assert!(matches!(
        memory_access(&cfg, &mut b),
        Ok(MemoryAccessOutcome::Peeked(0x1000_0000, 0xfeed_f00d))
    ));
}

#[test]
fn one_shot_memory_access_needs_a_connection() {
    let mut b = Bridge::new();
    let mut cfg = Config::new();
    cfg.memory_address = Some(4);
    assert!(matches!(
        memory_access(&cfg, &mut b),
        Err(ServerError::BridgeError(BridgeError::NotConnected))
    ));
}

#[test]
fn stress_mode_runs_a_thousand_loops_clean() {
    // Scenario: 1000 pseudo-random words written and read back at one
    // address with no mismatch.
    let mut b = connected_bridge();
    let mut cfg = Config::new();
    cfg.random_loops = Some(999);
    cfg.random_address = Some(0x1000_2000);
    assert!(random_test(&cfg, &mut b).is_ok());
}

#[test]
fn stress_step_writes_and_verifies() {
    let mut b = connected_bridge();
    stress_step(&mut b, 0x1000_2000, 0xabcd_ef01, 0).unwrap();
    assert_eq!(b.peek(0x1000_2000).unwrap(), 0xabcd_ef01);
    let mut dead = Bridge::new();
    assert!(matches!(
        stress_step(&mut dead, 4, 1, 0),
        Err(ServerError::BridgeError(BridgeError::NotConnected))
    ));
}

#[test]
fn server_error_wraps_each_layer() {
    let e = ServerError::from(WishboneServerError::ProtocolError);
    assert!(matches!(
        e,
        ServerError::WishboneError(WishboneServerError::ProtocolError)
    ));
    let e = ServerError::from(BridgeError::Timeout);
    assert!(matches!(e, ServerError::BridgeError(BridgeError::Timeout)));
}

#[test]
fn read_registers_reports_the_data_window() {
    let mut b = connected_bridge();
    b.poke(DEBUG_REG_DATA, 0x1122_3344).unwrap();
    let mut cpu = RiscvCpu::new();
    let mut server = GdbServer::new();
    let resp = server.process(GdbCommand::ReadRegisters, &mut cpu, &mut b);
    let payload = resp.payload.unwrap();
    // 33 registers, 8 hex digits each, bytes least significant first.
    assert_eq!(payload.len(), 264);
    for chunk in payload.chunks(8) {
        assert_eq!(chunk, b"44332211");
    }
    // The last selection left index 32 in the select register.
    assert_eq!(b.peek(DEBUG_REG_SELECT).unwrap(), 32);
}

#[test]
fn write_registers_drives_select_and_data() {
    let mut b = connected_bridge();
    let mut cpu = RiscvCpu::new();
    let mut server = GdbServer::new();
    // 33 registers of eight hex digits; register 0 is 0x04030201
    // (bytes 01 02 03 04 least significant first), the rest zero.
    let mut payload = b"G01020304".to_vec();
    for _ in 1..33 {
        payload.extend_from_slice(b"00000000");
    }
    let cmd = parse_command(&payload);
    match &cmd {
        GdbCommand::WriteRegisters(ws) => {
            assert_eq!(ws.len(), 33);
            assert_eq!(ws[0], 0x0403_0201);
        },
        _ => panic!("expected a register write"),
    }
    let resp = server.process(cmd, &mut cpu, &mut b);
    assert_eq!(resp.payload.unwrap(), b"OK".to_vec());
    assert_eq!(b.peek(DEBUG_REG_SELECT).unwrap(), 32);
    assert_eq!(b.peek(DEBUG_REG_DATA).unwrap(), 0);
}

#[test]
fn write_registers_needs_the_full_file() {
    let mut b = connected_bridge();
    let mut cpu = RiscvCpu::new();
    let mut server = GdbServer::new();
    let cmd = parse_command(&b"G01020304".to_vec());
    let resp = server.process(cmd, &mut cpu, &mut b);
    assert_eq!(resp.payload.unwrap(), b"E01".to_vec());
}

#[test]
fn zero_length_memory_read_replies_empty() {
    let mut b = connected_bridge();
    let mut cpu = RiscvCpu::new();
    let mut server = GdbServer::new();
    let resp = server.process(parse_command(&b"m1000,0".to_vec()), &mut cpu, &mut b);
    assert_eq!(resp.payload.unwrap(), Vec::<u8>::new());
}

#[test]
fn hex_fields_longer_than_a_word_are_refused() {
    // Nine digits cannot name a 32-bit address: the command is unknown.
    assert!(matches!(
        parse_command(&b"m100000000,4".to_vec()),
        GdbCommand::Unknown
    ));
    assert!(matches!(
        parse_command(&b"m,4".to_vec()),
        GdbCommand::Unknown
    ));
}

#[test]
fn config_defaults() {
    let cfg = Config::new();
    assert_eq!(cfg.bind_addr, "0.0.0.0");
    assert_eq!(cfg.bind_port, 1234);
    assert!(cfg.memory_address.is_none());
    assert!(matches!(cfg.server_kind, ServerKind::NoServer));
}
