//! The debugger wire-protocol server.
//!
//! Clients speak the textual remote serial protocol: each request travels as
//! `$<payload>#<2 hex digits>`, the digits being the sum of the payload bytes
//! mod 256.  The server acknowledges a well-checksummed packet with `+` and a
//! bad one with `-` (unless acknowledgments were negotiated off), recognizes
//! the out-of-band interrupt byte 0x03 even mid-packet, and maps each parsed
//! command onto one CPU debug controller operation.

use crate::bridge::{word_of, Bridge};
use crate::riscv::{
    byte_at, halt_succeeds, halt_transition, poll_observes_halt, poll_transition, resume_allowed,
    status_halted, RiscvCpu, RiscvCpuState, CONTROL_CLEAR, CONTROL_HALT_REQUEST,
    CONTROL_STEP_REQUEST, DEBUG_BREAKPOINT, DEBUG_CONTROL, DEBUG_REG_DATA, DEBUG_REG_SELECT,
    DEBUG_STATUS, REGISTER_COUNT,
};
use crate::words::{get_byte, le_bytes, word_byte, word_from_le_bytes, word_of_le_bytes};
use vstd::prelude::*;

verus! {

/// A typed failure of the debugger session layer.  Stream-level trouble is
/// reported by the transport code that owns the socket; the values here are
/// what it hands back into the error taxonomy.
#[derive(Clone, Copy, Debug, PartialEq, Eq, Structural)]
pub enum GdbServerError {
    /// The client went away.
    ConnectionClosed,
    /// The byte stream cannot be a packet stream any more.
    ProtocolError,
}

/// Whether `c` is an ASCII hex digit (either case).
pub open spec fn is_hex_digit(c: u8) -> bool {
    (48 <= c && c <= 57) || (97 <= c && c <= 102) || (65 <= c && c <= 70)
}

/// The value of a hex digit.
pub open spec fn hex_val(c: u8) -> u8
    recommends
        is_hex_digit(c),
{
    if 48 <= c && c <= 57 {
        (c - 48) as u8
    } else if 97 <= c && c <= 102 {
        (c - 87) as u8
    } else {
        (c - 55) as u8
    }
}

/// The lower-case hex digit for a value below 16.
pub open spec fn spec_hex_digit(n: u8) -> u8
    recommends
        n < 16,
{
    if n < 10 {
        (48 + n) as u8
    } else {
        (87 + n) as u8
    }
}

/// The hex encoding of a byte string: two digits per byte, high digit first.
pub open spec fn spec_hex_bytes(s: Seq<u8>) -> Seq<u8> {
    Seq::new(
        2 * s.len(),
        |i: int|
            if i % 2 == 0 {
                spec_hex_digit(s[i / 2] / 16)
            } else {
                spec_hex_digit(s[i / 2] % 16)
            },
    )
}

/// The packet checksum: the sum of the payload bytes, mod 256.
pub open spec fn spec_checksum(s: Seq<u8>) -> u8
    decreases s.len(),
{
    if s.len() == 0 {
        0
    } else {
        ((spec_checksum(s.drop_last()) + s.last()) % 256) as u8
    }
}

/// Whether the two checksum digits `c1 c2` are hex and name the checksum of
/// `payload`.  Only such a frame is dispatched.
pub open spec fn checksum_ok(payload: Seq<u8>, c1: u8, c2: u8) -> bool {
    is_hex_digit(c1) && is_hex_digit(c2) && hex_val(c1) * 16 + hex_val(c2) == spec_checksum(payload)
}

/// Whether every byte of `s` is a hex digit.
pub open spec fn all_hex(s: Seq<u8>) -> bool {
    forall|j: int| 0 <= j < s.len() ==> is_hex_digit(#[trigger] s[j])
}

/// The number written by a string of hex digits, high digit first.
pub open spec fn spec_hex_num(s: Seq<u8>) -> int
    decreases s.len(),
{
    if s.len() == 0 {
        0
    } else {
        spec_hex_num(s.drop_last()) * 16 + hex_val(s.last())
    }
}

/// Sixteen to the `n`th.
pub open spec fn pow16(n: nat) -> int
    decreases n,
{
    if n == 0 {
        1int
    } else {
        16 * pow16((n - 1) as nat)
    }
}

/// A string of `n` hex digits writes a number below sixteen to the `n`th.
proof fn lemma_hex_num_bound(s: Seq<u8>)
    requires
        all_hex(s),
    ensures
        0 <= spec_hex_num(s) < pow16(s.len()),
    decreases s.len(),
{
    if s.len() > 0 {
        assert(all_hex(s.drop_last())) by {
            assert(forall|j: int|
                0 <= j < s.len() - 1 ==> s.drop_last()[j] == #[trigger] s[j]);
        }
        assert(is_hex_digit(s.last()));
        lemma_hex_num_bound(s.drop_last());
        assert(pow16(s.len()) == 16 * pow16((s.len() - 1) as nat));
    }
}

/// The powers of sixteen up to the width of a bus word.
proof fn lemma_pow16_values()
    ensures
        pow16(0) == 1,
        pow16(1) == 0x10,
        pow16(2) == 0x100,
        pow16(3) == 0x1000,
        pow16(4) == 0x10000,
        pow16(5) == 0x100000,
        pow16(6) == 0x1000000,
        pow16(7) == 0x10000000,
        pow16(8) == 0x100000000,
{
    assert(pow16(0) == 1);
    assert(pow16(1) == 0x10);
    assert(pow16(2) == 0x100);
    assert(pow16(3) == 0x1000);
    assert(pow16(4) == 0x10000);
    assert(pow16(5) == 0x100000);
    assert(pow16(6) == 0x1000000);
    assert(pow16(7) == 0x10000000);
    assert(pow16(8) == 0x100000000);
}

/// The number a hex field names, if the field is 1 to 8 hex digits.
pub open spec fn spec_hex_u32(s: Seq<u8>) -> Option<u32> {
    if 1 <= s.len() <= 8 && all_hex(s) {
        Some(spec_hex_num(s) as u32)
    } else {
        None
    }
}

/// The bytes a string of hex digit pairs writes, high digit of each pair first.
pub open spec fn spec_hex_decode(s: Seq<u8>) -> Seq<u8>
    recommends
        s.len() % 2 == 0,
        all_hex(s),
{
    Seq::new(s.len() / 2, |i: int| (hex_val(s[2 * i]) * 16 + hex_val(s[2 * i + 1])) as u8)
}

/// The index of the first `b` in `s`, or -1 if there is none.
pub open spec fn spec_find(s: Seq<u8>, b: u8) -> int
    decreases s.len(),
{
    if s.len() == 0 {
        -1
    } else if s[0] == b {
        0
    } else if spec_find(s.drop_first(), b) == -1 {
        -1
    } else {
        spec_find(s.drop_first(), b) + 1
    }
}

/// A scan that saw no `b` before `i`, and `b` at `i` unless it ran off the
/// end, has found `spec_find`.
proof fn lemma_find_char(s: Seq<u8>, b: u8, i: int)
    requires
        0 <= i <= s.len(),
        forall|j: int| 0 <= j < i ==> s[j] != b,
        i < s.len() ==> s[i] == b,
    ensures
        i == s.len() ==> spec_find(s, b) == -1,
        i < s.len() ==> spec_find(s, b) == i,
    decreases s.len(),
{
    if s.len() > 0 {
        if s[0] == b {
        } else {
            assert(i >= 1);
            lemma_find_char(s.drop_first(), b, i - 1);
        }
    }
}

/// The lower-case hex digit for a value below 16, executable form.
pub fn to_hex_digit(n: u8) -> (r: u8)
    requires
        n < 16,
    ensures
        r == spec_hex_digit(n),
{
    if n < 10 {
        48 + n
    } else {
        87 + n
    }
}

/// The value of one hex digit, or nothing for any other byte.
pub fn parse_hex_digit(c: u8) -> (r: Option<u8>)
    ensures
        is_hex_digit(c) ==> r == Some(hex_val(c)),
        !is_hex_digit(c) ==> r is None,
{
    if 48 <= c && c <= 57 {
        Some(c - 48)
    } else if 97 <= c && c <= 102 {
        Some(c - 87)
    } else if 65 <= c && c <= 70 {
        Some(c - 55)
    } else {
        None
    }
}

/// The checksum of `data`: the sum of its bytes mod 256.
pub fn checksum(data: &Vec<u8>) -> (r: u8)
    ensures
        r == spec_checksum(data@),
{
    let mut sum: u8 = 0;
    let mut j: usize = 0;
    while j < data.len()
        invariant
            j <= data@.len(),
            sum == spec_checksum(data@.take(j as int)),
        decreases data@.len() - j,
    {
        let wide: u16 = sum as u16 + data[j] as u16;
        sum = (wide % 256) as u8;
        proof {
            assert(data@.take(j + 1).drop_last() =~= data@.take(j as int));
            assert(data@.take(j + 1).last() == data@[j as int]);
        }
        j = j + 1;
    }
    proof {
        assert(data@.take(data@.len() as int) =~= data@);
    }
    sum
}

/// Hex-encode `data`, two digits per byte, high digit first.
pub fn hex_encode(data: &Vec<u8>) -> (r: Vec<u8>)
    ensures
        r@ == spec_hex_bytes(data@),
{
    let mut out: Vec<u8> = Vec::new();
    let mut j: usize = 0;
    while j < data.len()
        invariant
            j <= data@.len(),
            out@ =~= spec_hex_bytes(data@.take(j as int)),
        decreases data@.len() - j,
    {
        let b = data[j];
        out.push(to_hex_digit(b / 16));
        out.push(to_hex_digit(b % 16));
        proof {
            assert(out@ =~= spec_hex_bytes(data@.take(j + 1)));
        }
        j = j + 1;
    }
    proof {
        assert(data@.take(data@.len() as int) =~= data@);
    }
    out
}

/// Append the eight hex digits of `w`'s four bytes, least significant byte
/// first, to `out`.
pub fn push_word_hex(out: &mut Vec<u8>, w: u32)
    ensures
        final (out)@ == old(out)@ + spec_hex_bytes(le_bytes(w)),
{
    let mut k: usize = 0;
    while k < 4
        invariant
            k <= 4,
            out@ =~= old(out)@ + spec_hex_bytes(le_bytes(w).take(k as int)),
        decreases 4 - k,
    {
        let b = get_byte(w, k);
        out.push(to_hex_digit(b / 16));
        out.push(to_hex_digit(b % 16));
        proof {
            assert(out@ =~= old(out)@ + spec_hex_bytes(le_bytes(w).take(k + 1)));
        }
        k = k + 1;
    }
    proof {
        assert(le_bytes(w).take(4) =~= le_bytes(w));
    }
}

/// First `b` in `data[from..to)`, with nothing equal to `b` before it.
pub fn find_byte_range(data: &Vec<u8>, from: usize, to: usize, b: u8) -> (r: Option<usize>)
    requires
        from <= to <= data@.len(),
    ensures
        match r {
            Some(i) => from <= i < to && data@[i as int] == b && (forall|j: int|
                from <= j < i ==> data@[j] != b),
            None => forall|j: int| from <= j < to ==> data@[j] != b,
        },
{
    let mut i: usize = from;
    while i < to
        invariant
            from <= i <= to <= data@.len(),
            forall|j: int| from <= j < i ==> data@[j] != b,
        decreases to - i,
    {
        if data[i] == b {
            return Some(i);
        }
        i = i + 1;
    }
    None
}

/// Parse `data[start..end)` as a hex number of at most eight digits.
pub fn parse_hex_u32(data: &Vec<u8>, start: usize, end: usize) -> (r: Option<u32>)
    requires
        start <= end <= data@.len(),
    ensures
        r == spec_hex_u32(data@.subrange(start as int, end as int)),
{
    let ghost s = data@.subrange(start as int, end as int);
    let n = end - start;
    if n == 0 || n > 8 {
        return None;
    }
    let mut value: u32 = 0;
    let mut j: usize = 0;
    while j < n
        invariant
            j <= n,
            n == s.len(),
            1 <= n <= 8,
            start + n == end,
            end <= data@.len(),
            s == data@.subrange(start as int, end as int),
            all_hex(s.take(j as int)),
            value == spec_hex_num(s.take(j as int)),
            value < pow16(j as nat),
        decreases n - j,
    {
        let c = data[start + j];
        assert(c == s[j as int]);
        let d = match parse_hex_digit(c) {
            Some(d) => d,
            None => {
                assert(!is_hex_digit(s[j as int]));
                return None;
            },
        };
        proof {
            lemma_pow16_values();
            assert(pow16(j as nat) <= 0x10000000);
        }
        value = value * 16 + (d as u32);
        proof {
            assert(s.take(j + 1).drop_last() =~= s.take(j as int));
            assert(s.take(j + 1).last() == s[j as int]);
            assert(pow16((j + 1) as nat) == 16 * pow16(j as nat));
        }
        j = j + 1;
    }
    proof {
        assert(s.take(n as int) =~= s);
        lemma_pow16_values();
        lemma_hex_num_bound(s);
    }
    Some(value)
}

/// Decode `data[start..)` as hex digit pairs into bytes.
pub fn parse_hex_data(data: &Vec<u8>, start: usize) -> (r: Option<Vec<u8>>)
    requires
        start <= data@.len(),
    ensures
        ({
            let s = data@.skip(start as int);
            if s.len() % 2 == 0 && all_hex(s) {
                r matches Some(v) && v@ == spec_hex_decode(s)
            } else {
                r is None
            }
        }),
{
    let ghost s = data@.skip(start as int);
    let end = data.len();
    let n = end - start;
    if n % 2 != 0 {
        return None;
    }
    let mut out: Vec<u8> = Vec::new();
    let mut j: usize = 0;
    while j + 1 < n
        invariant
            j % 2 == 0,
            j <= n,
            n == s.len(),
            n % 2 == 0,
            start + n == end,
            end == data@.len(),
            s == data@.skip(start as int),
            all_hex(s.take(j as int)),
            out@.len() == j / 2,
            forall|i: int|
                0 <= i < j / 2 ==> out@[i] == (hex_val(s[2 * i]) * 16 + hex_val(s[2 * i + 1])) as u8,
        decreases n - j,
    {
        let c1 = data[start + j];
        let c2 = data[start + j + 1];
        assert(c1 == s[j as int] && c2 == s[j + 1]);
        let d1 = match parse_hex_digit(c1) {
            Some(d) => d,
            None => {
                assert(!is_hex_digit(s[j as int]));
                return None;
            },
        };
        let d2 = match parse_hex_digit(c2) {
            Some(d) => d,
            None => {
                assert(!is_hex_digit(s[j + 1]));
                return None;
            },
        };
        out.push(d1 * 16 + d2);
        proof {
            assert forall|i: int| 0 <= i < j + 2 implies is_hex_digit(
                #[trigger] s.take(j + 2)[i],
            ) by {
                assert(s.take(j + 2)[i] == s[i]);
                if i < j {
                    assert(s.take(j as int)[i] == s[i]);
                    assert(is_hex_digit(s.take(j as int)[i]));
                }
            }
            assert(all_hex(s.take(j + 2)));
            assert forall|i: int| 0 <= i < (j + 2) / 2 implies out@[i] == (hex_val(s[2 * i]) * 16
                + hex_val(s[2 * i + 1])) as u8 by {
                if i < j / 2 {
                } else {
                    assert(2 * i == j && 2 * i + 1 == j + 1);
                }
            }
        }
        j = j + 2;
    }
    proof {
        assert(j == n);
        assert(s.take(n as int) =~= s);
        assert(out@ =~= spec_hex_decode(s));
    }
    Some(out)
}

/// The ten bytes "qSupported".
pub open spec fn qsupported_prefix() -> Seq<u8> {
    seq![113u8, 83u8, 117u8, 112u8, 112u8, 111u8, 114u8, 116u8, 101u8, 100u8]
}

/// The fifteen bytes "QStartNoAckMode".
pub open spec fn start_no_ack_payload() -> Seq<u8> {
    seq![81u8, 83u8, 116u8, 97u8, 114u8, 116u8, 78u8, 111u8, 65u8, 99u8, 107u8, 77u8, 111u8, 100u8, 101u8]
}

/// The reply to a supported-features query: "QStartNoAckMode+".
pub open spec fn qsupported_reply() -> Seq<u8> {
    start_no_ack_payload().push(43u8)
}

/// The reply "OK".
pub open spec fn ok_payload() -> Seq<u8> {
    seq![79u8, 75u8]
}

/// The error reply "E01".
pub open spec fn error_payload() -> Seq<u8> {
    seq![69u8, 48u8, 49u8]
}

/// The stop reply "S05": the core stopped with a trap signal.
pub open spec fn stop_payload() -> Seq<u8> {
    seq![83u8, 48u8, 53u8]
}

/// One parsed client request.
#[derive(Debug)]
pub enum GdbCommand {
    /// `g`: read all general registers and the program counter.
    ReadRegisters,
    /// `G<hex>`: write all general registers and the program counter.
    WriteRegisters(Vec<u32>),
    /// `m<addr>,<len>`: read a memory range.
    ReadMemory(u32, u32),
    /// `M<addr>,<len>:<hex>`: write a memory range.
    WriteMemory(u32, Vec<u8>),
    /// `Z<type>,<addr>,<kind>`: arm the breakpoint at the address.
    SetBreakpoint(u32),
    /// `z<type>,<addr>,<kind>`: disarm the breakpoint.
    ClearBreakpoint(u32),
    /// `c`: resume execution.
    Continue,
    /// `s`: execute one instruction.
    Step,
    /// `?`: report the last stop signal.
    QueryHaltReason,
    /// `qSupported...`: report what this server offers.
    QuerySupported,
    /// `QStartNoAckMode`: stop exchanging acknowledgment bytes.
    StartNoAckMode,
    /// `D`: the client detaches.
    Detach,
    /// Anything else: answered with an empty payload.
    Unknown,
}

/// The two fields of `<addr>,<len>`, both hex of at most eight digits.
pub open spec fn spec_mem_args(t: Seq<u8>) -> Option<(u32, u32)> {
    let c = spec_find(t, 44);
    if c < 0 {
        None
    } else {
        match (spec_hex_u32(t.subrange(0, c)), spec_hex_u32(t.subrange(c + 1, t.len() as int))) {
            (Some(a), Some(l)) => Some((a, l)),
            _ => None,
        }
    }
}

/// The fields of `<addr>,<len>:<data>`, the data decoded from hex and as
/// long as the length field says.
pub open spec fn spec_write_args(t: Seq<u8>) -> Option<(u32, Seq<u8>)> {
    let colon = spec_find(t, 58);
    if colon < 0 {
        None
    } else {
        match spec_mem_args(t.subrange(0, colon)) {
            Some((a, l)) => {
                let d = t.subrange(colon + 1, t.len() as int);
                if d.len() == 2 * l && all_hex(d) {
                    Some((a, spec_hex_decode(d)))
                } else {
                    None
                }
            },
            None => None,
        }
    }
}

/// The address field of `<type>,<addr>,<kind>`.
pub open spec fn spec_bp_addr(t: Seq<u8>) -> Option<u32> {
    let c1 = spec_find(t, 44);
    if c1 < 0 {
        None
    } else {
        let rest = t.subrange(c1 + 1, t.len() as int);
        let c2 = spec_find(rest, 44);
        if c2 < 0 {
            None
        } else {
            spec_hex_u32(rest.subrange(0, c2))
        }
    }
}

/// A register dump: eight hex digits per register, the four bytes of each
/// register least significant first.
pub open spec fn spec_reg_words(s: Seq<u8>) -> Option<Seq<u32>> {
    if s.len() % 8 == 0 && all_hex(s) {
        let bytes = spec_hex_decode(s);
        Some(
            Seq::new(
                s.len() / 8,
                |i: int|
                    word_from_le_bytes(
                        bytes[4 * i],
                        bytes[4 * i + 1],
                        bytes[4 * i + 2],
                        bytes[4 * i + 3],
                    ),
            ),
        )
    } else {
        None
    }
}

/// Parse `payload[start..end)` as `<addr>,<len>`.
fn parse_mem_args_exec(payload: &Vec<u8>, start: usize, end: usize) -> (r: Option<(u32, u32)>)
    requires
        start <= end <= payload@.len(),
    ensures
        r == spec_mem_args(payload@.subrange(start as int, end as int)),
{
    let ghost t = payload@.subrange(start as int, end as int);
    match find_byte_range(payload, start, end, 44) {
        None => {
            proof {
                assert forall|j: int| 0 <= j < t.len() implies t[j] != 44 by {
                    assert(t[j] == payload@[start + j]);
                }
                lemma_find_char(t, 44, t.len() as int);
            }
            None
        },
        Some(ci) => {
            proof {
                assert forall|j: int| 0 <= j < ci - start implies t[j] != 44 by {
                    assert(t[j] == payload@[start + j]);
                }
                assert(t[ci - start] == payload@[ci as int]);
                lemma_find_char(t, 44, ci - start);
            }
            let a = parse_hex_u32(payload, start, ci);
            let l = parse_hex_u32(payload, ci + 1, end);
            proof {
                assert(payload@.subrange(start as int, ci as int) =~= t.subrange(0, ci - start));
                assert(payload@.subrange(ci + 1, end as int) =~= t.subrange(
                    ci - start + 1,
                    t.len() as int,
                ));
            }
            match (a, l) {
                (Some(a), Some(l)) => Some((a, l)),
                _ => None,
            }
        },
    }
}

/// Parse `payload[start..end)` as `<type>,<addr>,<kind>` and keep the address.
fn parse_bp_addr_exec(payload: &Vec<u8>, start: usize, end: usize) -> (r: Option<u32>)
    requires
        start <= end <= payload@.len(),
    ensures
        r == spec_bp_addr(payload@.subrange(start as int, end as int)),
{
    let ghost t = payload@.subrange(start as int, end as int);
    match find_byte_range(payload, start, end, 44) {
        None => {
            proof {
                assert forall|j: int| 0 <= j < t.len() implies t[j] != 44 by {
                    assert(t[j] == payload@[start + j]);
                }
                lemma_find_char(t, 44, t.len() as int);
            }
            None
        },
        Some(c1i) => {
            proof {
                assert forall|j: int| 0 <= j < c1i - start implies t[j] != 44 by {
                    assert(t[j] == payload@[start + j]);
                }
                assert(t[c1i - start] == payload@[c1i as int]);
                lemma_find_char(t, 44, c1i - start);
            }
            let ghost rest = t.subrange(c1i - start + 1, t.len() as int);
            match find_byte_range(payload, c1i + 1, end, 44) {
                None => {
                    proof {
                        assert forall|j: int| 0 <= j < rest.len() implies rest[j] != 44 by {
                            assert(rest[j] == payload@[c1i + 1 + j]);
                        }
                        lemma_find_char(rest, 44, rest.len() as int);
                    }
                    None
                },
                Some(c2i) => {
                    proof {
                        assert forall|j: int| 0 <= j < c2i - (c1i + 1) implies rest[j] != 44 by {
                            assert(rest[j] == payload@[c1i + 1 + j]);
                        }
                        assert(rest[c2i - (c1i + 1)] == payload@[c2i as int]);
                        lemma_find_char(rest, 44, c2i - (c1i + 1));
                    }
                    let r = parse_hex_u32(payload, c1i + 1, c2i);
                    proof {
                        assert(payload@.subrange(c1i + 1, c2i as int) =~= rest.subrange(
                            0,
                            c2i - (c1i + 1),
                        ));
                    }
                    r
                },
            }
        },
    }
}

/// Parse `payload[start..)` as `<addr>,<len>:<data>`.
fn parse_write_args_exec(payload: &Vec<u8>, start: usize) -> (r: Option<(u32, Vec<u8>)>)
    requires
        start <= payload@.len(),
    ensures
        ({
            let t = payload@.subrange(start as int, payload@.len() as int);
            match spec_write_args(t) {
                Some((a, d)) => r matches Some(p) && p.0 == a && p.1@ == d,
                None => r is None,
            }
        }),
{
    let ghost t = payload@.subrange(start as int, payload@.len() as int);
    let end = payload.len();
    match find_byte_range(payload, start, end, 58) {
        None => {
            proof {
                assert forall|j: int| 0 <= j < t.len() implies t[j] != 58 by {
                    assert(t[j] == payload@[start + j]);
                }
                lemma_find_char(t, 58, t.len() as int);
            }
            None
        },
        Some(coli) => {
            proof {
                assert forall|j: int| 0 <= j < coli - start implies t[j] != 58 by {
                    assert(t[j] == payload@[start + j]);
                }
                assert(t[coli - start] == payload@[coli as int]);
                lemma_find_char(t, 58, coli - start);
            }
            match parse_mem_args_exec(payload, start, coli) {
                None => {
                    proof {
                        assert(payload@.subrange(start as int, coli as int) =~= t.subrange(
                            0,
                            coli - start,
                        ));
                    }
                    None
                },
                Some((a, l)) => {
                    proof {
                        assert(payload@.subrange(start as int, coli as int) =~= t.subrange(
                            0,
                            coli - start,
                        ));
                    }
                    let ghost d = t.subrange(coli - start + 1, t.len() as int);
                    proof {
                        assert(d =~= payload@.skip(coli + 1));
                    }
                    match parse_hex_data(payload, coli + 1) {
                        None => None,
                        Some(bytes) => {
                            if bytes.len() as u64 == l as u64 && l as u64 * 2 == (end - (coli + 1))
                                as u64 {
                                Some((a, bytes))
                            } else {
                                None
                            }
                        },
                    }
                },
            }
        },
    }
}

/// Parse `payload[start..)` as a register dump.
fn parse_reg_words_exec(payload: &Vec<u8>, start: usize) -> (r: Option<Vec<u32>>)
    requires
        start <= payload@.len(),
    ensures
        ({
            let s = payload@.subrange(start as int, payload@.len() as int);
            match spec_reg_words(s) {
                Some(ws) => r matches Some(v) && v@ == ws,
                None => r is None,
            }
        }),
{
    let ghost s = payload@.subrange(start as int, payload@.len() as int);
    proof {
        assert(s =~= payload@.skip(start as int));
    }
    if (payload.len() - start) % 8 != 0 {
        return None;
    }
    match parse_hex_data(payload, start) {
        None => None,
        Some(bytes) => {
            let n = bytes.len();
            let mut words: Vec<u32> = Vec::new();
            let mut i: usize = 0;
            while i < n
                invariant
                    n == bytes@.len(),
                    n % 4 == 0,
                    i % 4 == 0,
                    i <= n,
                    words@.len() == i / 4,
                    forall|k: int|
                        0 <= k < i / 4 ==> words@[k] == word_from_le_bytes(
                            bytes@[4 * k],
                            bytes@[4 * k + 1],
                            bytes@[4 * k + 2],
                            bytes@[4 * k + 3],
                        ),
                decreases n - i,
            {
                let w = word_of_le_bytes(bytes[i], bytes[i + 1], bytes[i + 2], bytes[i + 3]);
                words.push(w);
                i = i + 4;
            }
            proof {
                assert(words@ =~= spec_reg_words(s).unwrap());
            }
            Some(words)
        },
    }
}

/// Parse one packet payload into a command.  A payload that does not fit the
/// grammar is the Unknown command, answered with an empty reply.
pub fn parse_command(payload: &Vec<u8>) -> (r: GdbCommand)
    ensures
        payload@.len() == 0 ==> r is Unknown,
        payload@.len() > 0 ==> ({
            let c = payload@[0];
            let t = payload@.skip(1);
            &&& (c == 103 ==> (if payload@.len() == 1 {
                r is ReadRegisters
            } else {
                r is Unknown
            }))
            &&& (c == 71 ==> (match spec_reg_words(t) {
                Some(ws) => r matches GdbCommand::WriteRegisters(v) && v@ == ws,
                None => r is Unknown,
            }))
            &&& (c == 109 ==> (match spec_mem_args(t) {
                Some((a, l)) => r == GdbCommand::ReadMemory(a, l),
                None => r is Unknown,
            }))
            &&& (c == 77 ==> (match spec_write_args(t) {
                Some((a, d)) => r matches GdbCommand::WriteMemory(aa, v) && aa == a && v@ == d,
                None => r is Unknown,
            }))
            &&& (c == 90 ==> (match spec_bp_addr(t) {
                Some(a) => r == GdbCommand::SetBreakpoint(a),
                None => r is Unknown,
            }))
            &&& (c == 122 ==> (match spec_bp_addr(t) {
                Some(a) => r == GdbCommand::ClearBreakpoint(a),
                None => r is Unknown,
            }))
            &&& (c == 99 ==> (if payload@.len() == 1 {
                r is Continue
            } else {
                r is Unknown
            }))
            &&& (c == 115 ==> (if payload@.len() == 1 {
                r is Step
            } else {
                r is Unknown
            }))
            &&& (c == 63 ==> (if payload@.len() == 1 {
                r is QueryHaltReason
            } else {
                r is Unknown
            }))
            &&& (c == 68 ==> r is Detach)
            &&& (c == 113 ==> (if payload@.len() >= 10 && payload@.subrange(0, 10)
                == qsupported_prefix() {
                r is QuerySupported
            } else {
                r is Unknown
            }))
            &&& (c == 81 ==> (if payload@ == start_no_ack_payload() {
                r is StartNoAckMode
            } else {
                r is Unknown
            }))
            &&& (c != 103 && c != 71 && c != 109 && c != 77 && c != 90 && c != 122 && c != 99 && c
                != 115 && c != 63 && c != 68 && c != 113 && c != 81 ==> r is Unknown)
        }),
{
    if payload.len() == 0 {
        return GdbCommand::Unknown;
    }
    let c = payload[0];
    let len = payload.len();
    proof {
        assert(payload@.skip(1) =~= payload@.subrange(1, payload@.len() as int));
    }
    if c == 103 {
        if len == 1 {
            GdbCommand::ReadRegisters
        } else {
            GdbCommand::Unknown
        }
    } else if c == 71 {
        match parse_reg_words_exec(payload, 1) {
            Some(ws) => GdbCommand::WriteRegisters(ws),
            None => GdbCommand::Unknown,
        }
    } else if c == 109 {
        match parse_mem_args_exec(payload, 1, len) {
            Some((a, l)) => GdbCommand::ReadMemory(a, l),
            None => GdbCommand::Unknown,
        }
    } else if c == 77 {
        match parse_write_args_exec(payload, 1) {
            Some((a, d)) => GdbCommand::WriteMemory(a, d),
            None => GdbCommand::Unknown,
        }
    } else if c == 90 {
        match parse_bp_addr_exec(payload, 1, len) {
            Some(a) => GdbCommand::SetBreakpoint(a),
            None => GdbCommand::Unknown,
        }
    } else if c == 122 {
        match parse_bp_addr_exec(payload, 1, len) {
            Some(a) => GdbCommand::ClearBreakpoint(a),
            None => GdbCommand::Unknown,
        }
    } else if c == 99 {
        if len == 1 {
            GdbCommand::Continue
        } else {
            GdbCommand::Unknown
        }
    } else if c == 115 {
        if len == 1 {
            GdbCommand::Step
        } else {
            GdbCommand::Unknown
        }
    } else if c == 63 {
        if len == 1 {
            GdbCommand::QueryHaltReason
        } else {
            GdbCommand::Unknown
        }
    } else if c == 68 {
        GdbCommand::Detach
    } else if c == 113 {
        if len >= 10 && payload[1] == 83 && payload[2] == 117 && payload[3] == 112 && payload[4]
            == 112 && payload[5] == 111 && payload[6] == 114 && payload[7] == 116 && payload[8]
            == 101 && payload[9] == 100 {
            proof {
                assert(payload@.subrange(0, 10) =~= qsupported_prefix());
            }
            GdbCommand::QuerySupported
        } else {
            GdbCommand::Unknown
        }
    } else if c == 81 {
        if len == 15 && payload[1] == 83 && payload[2] == 116 && payload[3] == 97 && payload[4]
            == 114 && payload[5] == 116 && payload[6] == 78 && payload[7] == 111 && payload[8]
            == 65 && payload[9] == 99 && payload[10] == 107 && payload[11] == 77 && payload[12]
            == 111 && payload[13] == 100 && payload[14] == 101 {
            proof {
                assert(payload@ =~= start_no_ack_payload());
            }
            GdbCommand::StartNoAckMode
        } else {
            GdbCommand::Unknown
        }
    } else {
        GdbCommand::Unknown
    }
}


/// The full wire image of a reply: `$<payload>#<2 hex digits of checksum>`.
pub open spec fn spec_frame(p: Seq<u8>) -> Seq<u8> {
    seq![36u8] + p + seq![
        35u8,
        spec_hex_digit(spec_checksum(p) / 16),
        spec_hex_digit(spec_checksum(p) % 16),
    ]
}

/// Frame a reply payload for the wire.
pub fn frame_response(payload: &Vec<u8>) -> (r: Vec<u8>)
    ensures
        r@ == spec_frame(payload@),
{
    let mut out: Vec<u8> = Vec::new();
    out.push(36);
    let mut j: usize = 0;
    while j < payload.len()
        invariant
            j <= payload@.len(),
            out@ =~= seq![36u8] + payload@.take(j as int),
        decreases payload@.len() - j,
    {
        out.push(payload[j]);
        proof {
            assert(out@ =~= seq![36u8] + payload@.take(j + 1));
        }
        j = j + 1;
    }
    out.push(35);
    let cs = checksum(payload);
    out.push(to_hex_digit(cs / 16));
    out.push(to_hex_digit(cs % 16));
    proof {
        assert(payload@.take(payload@.len() as int) =~= payload@);
        assert(out@ =~= spec_frame(payload@));
    }
    out
}

/// The reply "OK".
fn make_ok() -> (r: Vec<u8>)
    ensures
        r@ == ok_payload(),
{
    let mut v: Vec<u8> = Vec::new();
    v.push(79);
    v.push(75);
    proof {
        assert(v@ =~= ok_payload());
    }
    v
}

/// The reply "E01".
fn make_error() -> (r: Vec<u8>)
    ensures
        r@ == error_payload(),
{
    let mut v: Vec<u8> = Vec::new();
    v.push(69);
    v.push(48);
    v.push(49);
    proof {
        assert(v@ =~= error_payload());
    }
    v
}

/// The stop reply "S05".
fn make_stop() -> (r: Vec<u8>)
    ensures
        r@ == stop_payload(),
{
    let mut v: Vec<u8> = Vec::new();
    v.push(83);
    v.push(48);
    v.push(53);
    proof {
        assert(v@ =~= stop_payload());
    }
    v
}

/// The reply to `qSupported`.
fn make_qsupported() -> (r: Vec<u8>)
    ensures
        r@ == qsupported_reply(),
{
    let mut v: Vec<u8> = Vec::new();
    v.push(81);
    v.push(83);
    v.push(116);
    v.push(97);
    v.push(114);
    v.push(116);
    v.push(78);
    v.push(111);
    v.push(65);
    v.push(99);
    v.push(107);
    v.push(77);
    v.push(111);
    v.push(100);
    v.push(101);
    v.push(43);
    proof {
        assert(v@ =~= qsupported_reply());
    }
    v
}

/// Where the packet scanner stands in the byte stream.
#[derive(Clone, Copy, Debug, PartialEq, Eq, Structural)]
pub enum ParserMode {
    /// Between packets.
    Idle,
    /// After `$`, collecting payload bytes.
    InPayload,
    /// After `#`, awaiting the first checksum digit.
    InCheck1,
    /// Awaiting the second checksum digit.
    InCheck2,
}

/// What one input byte produced: at most one acknowledgment byte to send
/// back, at most one complete well-checksummed payload, and whether the byte
/// was the out-of-band interrupt.
pub struct ByteOutcome {
    /// `+` or `-` to write to the client, unless acknowledgments are off.
    pub ack: Option<u8>,
    /// A complete payload whose checksum matched.
    pub packet: Option<Vec<u8>>,
    /// The byte was 0x03: request a halt at once, whatever the parse state.
    pub interrupt: bool,
}

/// One debugger session: the packet scanner and the negotiated
/// acknowledgment mode.  Parsing state is owned by the session alone.
pub struct GdbServer {
    mode: ParserMode,
    buf: Vec<u8>,
    check_hi: u8,
    no_ack_mode: bool,
}

impl GdbServer {
    /// Where the scanner stands.
    pub closed spec fn mode(self) -> ParserMode {
        self.mode
    }

    /// The payload bytes collected so far.
    pub closed spec fn buf(self) -> Seq<u8> {
        self.buf@
    }

    /// The first checksum digit, once one arrived.
    pub closed spec fn check_hi(self) -> u8 {
        self.check_hi
    }

    /// Whether the client switched acknowledgments off.
    pub closed spec fn no_ack(self) -> bool {
        self.no_ack_mode
    }

    /// A fresh session, scanning between packets, acknowledgments on.
    pub fn new() -> (r: GdbServer)
        ensures
            r.mode() is Idle,
            r.buf() == Seq::<u8>::empty(),
            !r.no_ack(),
    {
        GdbServer { mode: ParserMode::Idle, buf: Vec::new(), check_hi: 0, no_ack_mode: false }
    }

    /// Feed one byte from the client stream.  The interrupt byte 0x03 is
    /// reported at once and leaves the scanner exactly where it was, even
    /// mid-packet.  A frame whose checksum digits match the payload sum is
    /// acknowledged with `+` and handed out; one whose digits do not is
    /// acknowledged with `-` and dropped, so the client retransmits.
    pub fn handle_byte(&mut self, b: u8) -> (r: ByteOutcome)
        ensures
            final (self).no_ack() == old(self).no_ack(),
            r.interrupt == (b == 3),
            b == 3 ==> *final (self) == *old(self) && r.ack is None && r.packet is None,
            b != 3 && old(self).mode() is Idle ==> r.ack is None && r.packet is None && (if b == 36 {
                final (self).mode() is InPayload && final (self).buf() == Seq::<u8>::empty()
            } else {
                final (self).mode() is Idle && final (self).buf() == old(self).buf()
            }),
            b != 3 && old(self).mode() is InPayload ==> r.ack is None && r.packet is None && (if b
                == 35 {
                final (self).mode() is InCheck1 && final (self).buf() == old(self).buf()
            } else {
                final (self).mode() is InPayload && final (self).buf() == old(self).buf().push(b)
            }),
            b != 3 && old(self).mode() is InCheck1 ==> r.ack is None && r.packet is None && final (
            self).mode() is InCheck2 && final (self).buf() == old(self).buf() && final (
            self).check_hi() == b,
            b != 3 && old(self).mode() is InCheck2 ==> final (self).mode() is Idle && final (
            self).buf() == Seq::<u8>::empty() && ({
                let ok = checksum_ok(old(self).buf(), old(self).check_hi(), b);
                &&& (ok ==> (r.packet matches Some(p) && p@ == old(self).buf()) && r.ack == (
                if old(self).no_ack() {
                    None::<u8>
                } else {
                    Some(43u8)
                }))
                &&& (!ok ==> r.packet is None && r.ack == (if old(self).no_ack() {
                    None::<u8>
                } else {
                    Some(45u8)
                }))
            }),
    {
        if b == 3 {
            return ByteOutcome { ack: None, packet: None, interrupt: true };
        }
        match self.mode {
            ParserMode::Idle => {
                if b == 36 {
                    self.mode = ParserMode::InPayload;
                    self.buf = Vec::new();
                }
                ByteOutcome { ack: None, packet: None, interrupt: false }
            },
            ParserMode::InPayload => {
                if b == 35 {
                    self.mode = ParserMode::InCheck1;
                } else {
                    self.buf.push(b);
                }
                ByteOutcome { ack: None, packet: None, interrupt: false }
            },
            ParserMode::InCheck1 => {
                self.check_hi = b;
                self.mode = ParserMode::InCheck2;
                ByteOutcome { ack: None, packet: None, interrupt: false }
            },
            ParserMode::InCheck2 => {
                self.mode = ParserMode::Idle;
                let cs = checksum(&self.buf);
                let ok = match (parse_hex_digit(self.check_hi), parse_hex_digit(b)) {
                    (Some(h), Some(l)) => h * 16 + l == cs,
                    _ => false,
                };
                let mut payload: Vec<u8> = Vec::new();
                core::mem::swap(&mut payload, &mut self.buf);
                if ok {
                    ByteOutcome {
                        ack: if self.no_ack_mode {
                            None
                        } else {
                            Some(43)
                        },
                        packet: Some(payload),
                        interrupt: false,
                    }
                } else {
                    ByteOutcome {
                        ack: if self.no_ack_mode {
                            None
                        } else {
                            Some(45)
                        },
                        packet: None,
                        interrupt: false,
                    }
                }
            },
        }
    }
}

/// Read all registers as one hex dump.  On the bus this selects register
/// indexes 0 through 32 in turn and reads the data register after each
/// selection.
fn read_registers_hex(cpu: &RiscvCpu, bridge: &mut Bridge) -> (r: Vec<u8>)
    requires
        old(bridge).is_connected(),
    ensures
        final (bridge).is_connected(),
        final (bridge).mem() == old(bridge).mem().insert(DEBUG_REG_SELECT, 32u32),
        r@ == spec_hex_bytes(
            Seq::new(132, |i: int| word_byte(word_of(old(bridge).mem(), DEBUG_REG_DATA), i % 4)),
        ),
{
    let ghost d = word_of(old(bridge).mem(), DEBUG_REG_DATA);
    let mut out: Vec<u8> = Vec::new();
    let mut n: u32 = 0;
    while n < REGISTER_COUNT
        invariant
            old(bridge).is_connected(),
            bridge.is_connected(),
            n <= REGISTER_COUNT,
            d == word_of(old(bridge).mem(), DEBUG_REG_DATA),
            n == 0 ==> bridge.mem() == old(bridge).mem(),
            n > 0 ==> bridge.mem() == old(bridge).mem().insert(DEBUG_REG_SELECT, (n - 1) as u32),
            out@ =~= spec_hex_bytes(Seq::new((4 * n) as nat, |i: int| word_byte(d, i % 4))),
        decreases REGISTER_COUNT - n,
    {
        proof {
            assert(word_of(bridge.mem(), DEBUG_REG_DATA) == d);
        }
        let ghost mem_before = bridge.mem();
        let w = match cpu.read_register(bridge, n) {
            Ok(w) => w,
            Err(_) => {
                proof {
                    assert(false);
                }
                0
            },
        };
        push_word_hex(&mut out, w);
        proof {
            assert(bridge.mem() =~= old(bridge).mem().insert(DEBUG_REG_SELECT, n));
            assert(out@ =~= spec_hex_bytes(Seq::new((4 * (n + 1)) as nat, |i: int| word_byte(d, i % 4))));
        }
        n = n + 1;
    }
    out
}

/// What `process` answers: at most one reply payload (a command that waits
/// for a later stop reply sends none), and whether the session is over.
pub struct GdbResponse {
    /// The reply payload, before framing.
    pub payload: Option<Vec<u8>>,
    /// The client detached; accept the next connection.
    pub end_session: bool,
}

impl GdbServer {
    /// Dispatch one parsed command onto the controller and build the reply
    /// payload.  Controller and bus failures become the protocol's `E01`
    /// reply and never tear the session down.
    pub fn process(&mut self, cmd: GdbCommand, cpu: &mut RiscvCpu, bridge: &mut Bridge) -> (r:
        GdbResponse)
        requires
            old(bridge).is_connected(),
        ensures
            final (bridge).is_connected(),
            final (self).mode() == old(self).mode(),
            final (self).buf() == old(self).buf(),
            final (self).no_ack() == (old(self).no_ack() || cmd matches GdbCommand::StartNoAckMode),
            r.end_session == (cmd matches GdbCommand::Detach),
            cmd matches GdbCommand::Unknown ==> *final (cpu) == *old(cpu) && final (bridge).mem()
                == old(bridge).mem() && (r.payload matches Some(p) && p@ == Seq::<u8>::empty()),
            cmd matches GdbCommand::ReadRegisters ==> *final (cpu) == *old(cpu) && final (
            bridge).mem() == old(bridge).mem().insert(DEBUG_REG_SELECT, 32u32) && (r.payload matches Some(
                p,
            ) && p@ == spec_hex_bytes(
                Seq::new(
                    132,
                    |i: int| word_byte(word_of(old(bridge).mem(), DEBUG_REG_DATA), i % 4),
                ),
            )),
            cmd matches GdbCommand::WriteRegisters(ws) ==> *final (cpu) == *old(cpu) && (
            if ws@.len() == REGISTER_COUNT as int {
                final (bridge).mem() == old(bridge).mem().insert(DEBUG_REG_SELECT, 32u32).insert(
                    DEBUG_REG_DATA,
                    ws@[32],
                ) && (r.payload matches Some(p) && p@ == ok_payload())
            } else {
                final (bridge).mem() == old(bridge).mem() && (r.payload matches Some(p) && p@
                    == error_payload())
            }),
            cmd matches GdbCommand::ReadMemory(a, l) ==> *final (cpu) == *old(cpu) && final (
            bridge).mem() == old(bridge).mem() && (if a as int + l as int <= 0x1_0000_0000 {
                r.payload matches Some(p) && p@ == spec_hex_bytes(
                    Seq::new(l as nat, |i: int| byte_at(old(bridge).mem(), (a + i) as u32)),
                )
            } else {
                r.payload matches Some(p) && p@ == error_payload()
            }),
            cmd matches GdbCommand::WriteMemory(a, d) ==> *final (cpu) == *old(cpu) && (
            if a as int + d@.len() <= 0x1_0000_0000 {
                (r.payload matches Some(p) && p@ == ok_payload()) && (forall|i: int|
                    0 <= i < d@.len() ==> byte_at(final (bridge).mem(), (a + i) as u32) == d@[i])
                    && (forall|a2: u32|
                    !(a <= a2 && (a2 as int) < a as int + d@.len()) ==> #[trigger] byte_at(
                        final (bridge).mem(),
                        a2,
                    ) == byte_at(old(bridge).mem(), a2))
            } else {
                final (bridge).mem() == old(bridge).mem() && (r.payload matches Some(p) && p@
                    == error_payload())
            }),
            cmd matches GdbCommand::SetBreakpoint(a) ==> *final (cpu) == *old(cpu) && final (
            bridge).mem() == old(bridge).mem().insert(DEBUG_BREAKPOINT, a | 1) && (r.payload matches Some(
                p,
            ) && p@ == ok_payload()),
            cmd matches GdbCommand::ClearBreakpoint(a) ==> *final (cpu) == *old(cpu) && final (
            bridge).mem() == old(bridge).mem().insert(DEBUG_BREAKPOINT, a & 0xfffffffe) && (
            r.payload matches Some(p) && p@ == ok_payload()),
            cmd matches GdbCommand::Continue ==> (if resume_allowed(old(cpu).state()) {
                final (cpu).state() == RiscvCpuState::Running && final (bridge).mem() == old(
                    bridge,
                ).mem().insert(DEBUG_CONTROL, CONTROL_CLEAR) && r.payload is None
            } else {
                *final (cpu) == *old(cpu) && final (bridge).mem() == old(bridge).mem() && (
                r.payload matches Some(p) && p@ == error_payload())
            }),
            cmd matches GdbCommand::Step ==> (if old(cpu).state() == RiscvCpuState::Halted {
                let mem1 = old(bridge).mem().insert(DEBUG_CONTROL, CONTROL_STEP_REQUEST);
                let halted = status_halted(word_of(mem1, DEBUG_STATUS));
                &&& final (bridge).mem() == mem1
                &&& (halted ==> final (cpu).state() == RiscvCpuState::Halted && (
                r.payload matches Some(p) && p@ == stop_payload()))
                &&& (!halted ==> final (cpu).state() == RiscvCpuState::SingleStepping && (
                r.payload matches Some(p) && p@ == error_payload()))
            } else {
                *final (cpu) == *old(cpu) && final (bridge).mem() == old(bridge).mem() && (
                r.payload matches Some(p) && p@ == error_payload())
            }),
            cmd matches GdbCommand::QueryHaltReason ==> *final (cpu) == *old(cpu) && final (
            bridge).mem() == old(bridge).mem() && (r.payload matches Some(p) && p@
                == stop_payload()),
            cmd matches GdbCommand::QuerySupported ==> *final (cpu) == *old(cpu) && final (
            bridge).mem() == old(bridge).mem() && (r.payload matches Some(p) && p@
                == qsupported_reply()),
            cmd matches GdbCommand::StartNoAckMode ==> *final (cpu) == *old(cpu) && final (
            bridge).mem() == old(bridge).mem() && (r.payload matches Some(p) && p@ == ok_payload()),
            cmd matches GdbCommand::Detach ==> *final (cpu) == *old(cpu) && final (bridge).mem()
                == old(bridge).mem() && (r.payload matches Some(p) && p@ == ok_payload()),
    {
        match cmd {
            GdbCommand::Unknown => {
                GdbResponse { payload: Some(Vec::new()), end_session: false }
            },
            GdbCommand::ReadRegisters => {
                let p = read_registers_hex(cpu, bridge);
                GdbResponse { payload: Some(p), end_session: false }
            },
            GdbCommand::WriteRegisters(ws) => {
                if ws.len() == REGISTER_COUNT as usize {
                    let mut n: u32 = 0;
                    while n < REGISTER_COUNT
                        invariant
                            old(bridge).is_connected(),
                            bridge.is_connected(),
                            n <= REGISTER_COUNT,
                            ws@.len() == REGISTER_COUNT as int,
                            n == 0 ==> bridge.mem() == old(bridge).mem(),
                            n > 0 ==> bridge.mem() == old(bridge).mem().insert(
                                DEBUG_REG_SELECT,
                                (n - 1) as u32,
                            ).insert(DEBUG_REG_DATA, ws@[n - 1]),
                        decreases REGISTER_COUNT - n,
                    {
                        let ghost mem_before = bridge.mem();
                        match cpu.write_register(bridge, n, ws[n as usize]) {
                            Ok(_) => {},
                            Err(_) => {
                                proof {
                                    assert(false);
                                }
                            },
                        }
                        proof {
                            assert(bridge.mem() =~= old(bridge).mem().insert(
                                DEBUG_REG_SELECT,
                                n,
                            ).insert(DEBUG_REG_DATA, ws@[n as int]));
                        }
                        n = n + 1;
                    }
                    GdbResponse { payload: Some(make_ok()), end_session: false }
                } else {
                    GdbResponse { payload: Some(make_error()), end_session: false }
                }
            },
            GdbCommand::ReadMemory(a, l) => {
                if (a as u64) + (l as u64) <= 0x1_0000_0000u64 {
                    let data = match cpu.read_memory(bridge, a, l) {
                        Ok(d) => d,
                        Err(_) => {
                            proof {
                                assert(false);
                            }
                            Vec::new()
                        },
                    };
                    let hex = hex_encode(&data);
                    proof {
                        assert(data@ =~= Seq::new(
                            l as nat,
                            |i: int| byte_at(bridge.mem(), (a + i) as u32),
                        ));
                    }
                    GdbResponse { payload: Some(hex), end_session: false }
                } else {
                    GdbResponse { payload: Some(make_error()), end_session: false }
                }
            },
            GdbCommand::WriteMemory(a, d) => {
                if d.len() as u64 <= 0x1_0000_0000u64 && (a as u64) + (d.len() as u64) <= 0x1_0000_0000u64 {
                    match cpu.write_memory(bridge, a, &d) {
                        Ok(_) => {},
                        Err(_) => {
                            proof {
                                assert(false);
                            }
                        },
                    }
                    GdbResponse { payload: Some(make_ok()), end_session: false }
                } else {
                    GdbResponse { payload: Some(make_error()), end_session: false }
                }
            },
            GdbCommand::SetBreakpoint(a) => {
                match cpu.set_breakpoint(bridge, a) {
                    Ok(_) => {},
                    Err(_) => {
                        proof {
                            assert(false);
                        }
                    },
                }
                GdbResponse { payload: Some(make_ok()), end_session: false }
            },
            GdbCommand::ClearBreakpoint(a) => {
                match cpu.clear_breakpoint(bridge, a) {
                    Ok(_) => {},
                    Err(_) => {
                        proof {
                            assert(false);
                        }
                    },
                }
                GdbResponse { payload: Some(make_ok()), end_session: false }
            },
            GdbCommand::Continue => {
                match cpu.resume(bridge) {
                    Ok(_) => GdbResponse { payload: None, end_session: false },
                    Err(_) => GdbResponse { payload: Some(make_error()), end_session: false },
                }
            },
            GdbCommand::Step => {
                match cpu.step(bridge) {
                    Ok(_) => GdbResponse { payload: Some(make_stop()), end_session: false },
                    Err(_) => GdbResponse { payload: Some(make_error()), end_session: false },
                }
            },
            GdbCommand::QueryHaltReason => {
                GdbResponse { payload: Some(make_stop()), end_session: false }
            },
            GdbCommand::QuerySupported => {
                GdbResponse { payload: Some(make_qsupported()), end_session: false }
            },
            GdbCommand::StartNoAckMode => {
                self.no_ack_mode = true;
                GdbResponse { payload: Some(make_ok()), end_session: false }
            },
            GdbCommand::Detach => {
                GdbResponse { payload: Some(make_ok()), end_session: true }
            },
        }
    }
}

/// One poller round: read the status register once and, exactly when a
/// Running-to-Halted transition shows that the session itself did not cause,
/// hand back the framed unsolicited stop notification to write to the
/// client.
pub fn check_stop(cpu: &mut RiscvCpu, bridge: &Bridge) -> (r: Option<Vec<u8>>)
    requires
        bridge.is_connected(),
    ensures
        ({
            let halted = status_halted(bridge.word_at(DEBUG_STATUS));
            &&& final (cpu).state() == poll_transition(halted)
            &&& (poll_observes_halt(old(cpu).state(), halted) ==> (r matches Some(f) && f@
                == spec_frame(stop_payload())))
            &&& (!poll_observes_halt(old(cpu).state(), halted) ==> r is None)
        }),
{
    match cpu.poll(bridge) {
        Ok(true) => {
            let stop = make_stop();
            Some(frame_response(&stop))
        },
        Ok(false) => None,
        Err(_) => {
            proof {
                assert(false);
            }
            None
        },
    }
}

/// The out-of-band interrupt: request a halt at once and, if the halt went
/// through, hand back the framed stop reply for the client.
pub fn handle_interrupt(cpu: &mut RiscvCpu, bridge: &mut Bridge) -> (r: Option<Vec<u8>>)
    requires
        old(bridge).is_connected(),
    ensures
        final (bridge).is_connected(),
        old(cpu).state() == RiscvCpuState::Halted ==> *final (cpu) == *old(cpu) && final (
        bridge).mem() == old(bridge).mem() && (r matches Some(f) && f@ == spec_frame(
            stop_payload(),
        )),
        old(cpu).state() != RiscvCpuState::Halted ==> ({
            let mem1 = old(bridge).mem().insert(DEBUG_CONTROL, CONTROL_HALT_REQUEST);
            let halted = status_halted(word_of(mem1, DEBUG_STATUS));
            &&& final (bridge).mem() == mem1
            &&& final (cpu).state() == halt_transition(old(cpu).state(), halted)
            &&& (halt_succeeds(old(cpu).state(), halted) ==> (r matches Some(f) && f@
                == spec_frame(stop_payload())))
            &&& (!halt_succeeds(old(cpu).state(), halted) ==> r is None)
        }),
{
    match cpu.halt(bridge) {
        Ok(_) => {
            let stop = make_stop();
            Some(frame_response(&stop))
        },
        Err(_) => None,
    }
}

/// A frame whose two digits name the payload checksum passes verification;
/// the same payload under any other checksum value is refused, so it is
/// negatively acknowledged and never dispatched.
pub proof fn lemma_checksum_decides(payload: Seq<u8>, c1: u8, c2: u8, d1: u8, d2: u8)
    requires
        is_hex_digit(c1),
        is_hex_digit(c2),
        hex_val(c1) * 16 + hex_val(c2) == spec_checksum(payload),
        is_hex_digit(d1),
        is_hex_digit(d2),
        hex_val(d1) * 16 + hex_val(d2) != hex_val(c1) * 16 + hex_val(c2),
    ensures
        checksum_ok(payload, c1, c2),
        !checksum_ok(payload, d1, d2),
{
}


} // verus!
