//! Laws of the instrumentation packet decoder: reserved headers, runs of
//! synchronization zeros, and decoding of canonically encoded packets.

use vstd::prelude::*;

use super::parser::{
    decode, header_bits, protocol_packet_at, source_value, synchronization_from, Step,
};
use super::types::{DataValue, ExceptionEvent, ITMPacket};
use crate::bittuple::bit;
use crate::readpos::{le16, le32};

verus! {

/// Whether header `h` matches a row of the protocol packet table.
pub open spec fn protocol_row_matches(h: u8) -> bool {
    match header_bits(h) {
        (0, 1, 1, 1, 0, 0, 0, 0) => true,
        (1, 1, _, _, 0, 0, 0, 0) => true,
        (0, _, _, _, 0, 0, 0, 0) => true,
        (1, 0, 0, 1, 0, 1, 0, 0) => true,
        (1, 0, 1, 1, 0, 1, 0, 0) => true,
        (0, _, _, _, 1, 0, 0, 0) => true,
        (_, _, _, _, 1, _, 0, 0) => true,
        _ => false,
    }
}

/// A header whose low two bits and top bit are clear, and which matches
/// no row of the protocol packet table, decodes on its own as a reserved
/// packet.
pub proof fn reserved_header_closure(h: u8)
    requires
        h & 3 == 0,
        h & 0x80 == 0,
        !protocol_row_matches(h),
    ensures
        decode(seq![h]) == Step::Done(ITMPacket::Reserved(h), 1),
{
    assert(h & 3 == 0 ==> bit(h, 1) == 0 && bit(h, 0) == 0) by (bit_vector);
    assert(h & 0x80 == 0 ==> bit(h, 7) == 0) by (bit_vector);
    let t = seq![h].drop_first();
    assert(protocol_packet_at(t, h) == Step::Done(ITMPacket::Reserved(h), 0));
}

/// A run of `n` zero bytes.
pub open spec fn zeros(n: nat) -> Seq<u8> {
    Seq::new(n, |i: int| 0u8)
}

proof fn lemma_synchronization_run(t: Seq<u8>, m: nat, i: nat)
    requires
        m < t.len(),
        i <= m,
        t[m as int] == 0x80,
        forall|j: int| 0 <= j < m ==> #[trigger] t[j] == 0,
    ensures
        synchronization_from(t, i) == Step::Done(ITMPacket::Synchronization, m + 1),
    decreases m - i,
{
    if i < m {
        lemma_synchronization_run(t, m, i + 1);
    }
}

/// Any number of zero bytes followed by 0x80 decode as one synchronization
/// packet that takes exactly those bytes, whatever follows them.
pub proof fn synchronization_tolerance(n: nat, rest: Seq<u8>)
    requires
        n >= 1,
    ensures
        decode(zeros(n).push(0x80) + rest) == Step::Done(ITMPacket::Synchronization, n + 1),
{
    let s = zeros(n).push(0x80) + rest;
    let t = s.drop_first();
    assert(s[0] == 0);
    assert(bit(0, 7) == 0 && bit(0, 6) == 0 && bit(0, 5) == 0 && bit(0, 4) == 0 && bit(0, 3) == 0
        && bit(0, 2) == 0 && bit(0, 1) == 0 && bit(0, 0) == 0) by (bit_vector);
    assert(t[n - 1] == 0x80);
    assert forall|j: int| 0 <= j < n - 1 implies #[trigger] t[j] == 0 by {
        assert(t[j] == s[j + 1]);
    }
    lemma_synchronization_run(t, (n - 1) as nat, 0);
}

/// `v` as two bytes, least significant first.
pub open spec fn le_bytes16(v: nat) -> Seq<u8> {
    seq![(v % 256) as u8, (v / 256 % 256) as u8]
}

/// `v` as four bytes, least significant first.
pub open spec fn le_bytes32(v: nat) -> Seq<u8> {
    seq![
        (v % 256) as u8,
        (v / 256 % 256) as u8,
        (v / 65536 % 256) as u8,
        (v / 16777216 % 256) as u8,
    ]
}

/// The size code of a source packet header that carries `d`.
pub open spec fn size_code(d: DataValue) -> nat {
    match d {
        DataValue::U8(_) => 1,
        DataValue::U16(_) => 2,
        DataValue::U32(_) => 3,
    }
}

/// The payload bytes of `d`.
pub open spec fn value_bytes(d: DataValue) -> Seq<u8> {
    match d {
        DataValue::U8(b) => seq![b],
        DataValue::U16(w) => le_bytes16(w as nat),
        DataValue::U32(w) => le_bytes32(w as nat),
    }
}

/// The event field of an exception packet payload.
pub open spec fn event_code(e: ExceptionEvent) -> nat {
    match e {
        ExceptionEvent::Enter => 1,
        ExceptionEvent::Exit => 2,
        ExceptionEvent::Resume => 3,
    }
}

/// Whether `p` has a canonical encoding: its fields fit the header and
/// payload that `encoding` gives it.
pub open spec fn has_encoding(p: ITMPacket) -> bool {
    match p {
        ITMPacket::Overflow => true,
        ITMPacket::ProgramCounter(_) => true,
        ITMPacket::Exception(_, n) => n.0 < 512,
        ITMPacket::DataTracePC(i, a) => i.0 < 4 && a.0 < 65536,
        ITMPacket::DataTraceOffset(i, a) => i.0 < 4 && a.0 < 65536,
        ITMPacket::DataTraceReadData(i, _) => i.0 < 4,
        ITMPacket::DataTraceWriteData(i, _) => i.0 < 4,
        ITMPacket::Software(port, _) => port.0 < 32,
        ITMPacket::SoftwarePageNumber(port) => port.0 < 256 && port.0 % 32 == 0,
        _ => false,
    }
}

/// The canonical encoding of a packet for which `has_encoding` holds.
pub open spec fn encoding(p: ITMPacket) -> Seq<u8> {
    match p {
        ITMPacket::Overflow => seq![0x70u8],
        ITMPacket::ProgramCounter(a) => seq![0x17u8] + le_bytes32(a.0 as nat),
        ITMPacket::Exception(e, n) => seq![0x0Eu8] + le_bytes16((event_code(e) * 4096 + n.0) as nat),
        ITMPacket::DataTracePC(i, a) => seq![(0x46 + 16 * i.0) as u8] + le_bytes16(a.0 as nat),
        ITMPacket::DataTraceOffset(i, a) => seq![(0x4E + 16 * i.0) as u8] + le_bytes16(a.0 as nat),
        ITMPacket::DataTraceReadData(i, d) => seq![(0x84 + 16 * i.0 + size_code(d)) as u8]
            + value_bytes(d),
        ITMPacket::DataTraceWriteData(i, d) => seq![(0x8C + 16 * i.0 + size_code(d)) as u8]
            + value_bytes(d),
        ITMPacket::Software(port, d) => seq![(8 * port.0 + size_code(d)) as u8] + value_bytes(d),
        ITMPacket::SoftwarePageNumber(port) => seq![(port.0 / 32 * 16 + 8) as u8],
        _ => Seq::empty(),
    }
}

proof fn lemma_header_sum(h: u8)
    ensures
        bit(h, 7) <= 1 && bit(h, 6) <= 1 && bit(h, 5) <= 1 && bit(h, 4) <= 1,
        bit(h, 3) <= 1 && bit(h, 2) <= 1 && bit(h, 1) <= 1 && bit(h, 0) <= 1,
        h as int == 128 * bit(h, 7) + 64 * bit(h, 6) + 32 * bit(h, 5) + 16 * bit(h, 4) + 8 * bit(
            h,
            3,
        ) + 4 * bit(h, 2) + 2 * bit(h, 1) + bit(h, 0),
        (h & 3) as int == 2 * bit(h, 1) + bit(h, 0),
        (h & 0x80 != 0) == (bit(h, 7) == 1),
{
    assert(((h >> 7u8) & 1) <= 1 && ((h >> 6u8) & 1) <= 1 && ((h >> 5u8) & 1) <= 1 && ((h >> 4u8)
        & 1) <= 1 && ((h >> 3u8) & 1) <= 1 && ((h >> 2u8) & 1) <= 1 && ((h >> 1u8) & 1) <= 1 && ((h
        >> 0u8) & 1) <= 1) by (bit_vector);
    assert((h & 3) == 2 * ((h >> 1u8) & 1) + ((h >> 0u8) & 1)) by (bit_vector);
    assert((h & 0x80 != 0) == (((h >> 7u8) & 1) == 1)) by (bit_vector);
    assert(h == 128 * ((h >> 7u8) & 1) + 64 * ((h >> 6u8) & 1) + 32 * ((h >> 5u8) & 1) + 16 * ((h
        >> 4u8) & 1) + 8 * ((h >> 3u8) & 1) + 4 * ((h >> 2u8) & 1) + 2 * ((h >> 1u8) & 1) + ((h
        >> 0u8) & 1)) by (bit_vector);
}

proof fn lemma_le16(v: nat)
    requires
        v < 65536,
    ensures
        le16(le_bytes16(v)) == v,
        le_bytes16(v).len() == 2,
{
    let b = le_bytes16(v);
    assert(b[0] == v % 256);
    assert(b[1] == v / 256);
    assert(v == v / 256 * 256 + v % 256) by (nonlinear_arith);
}

proof fn lemma_le32(v: nat)
    requires
        v < 0x1_0000_0000,
    ensures
        le32(le_bytes32(v)) == v,
        le_bytes32(v).len() == 4,
{
    let b = le_bytes32(v);
    assert(v / 16777216 < 256) by (nonlinear_arith)
        requires
            v < 0x1_0000_0000,
    ;
    assert(b[0] == v % 256);
    assert(b[1] == v / 256 % 256);
    assert(b[2] == v / 65536 % 256);
    assert(b[3] == v / 16777216);
    assert(v == v % 256 + 256 * (v / 256 % 256) + 65536 * (v / 65536 % 256) + 16777216 * (v
        / 16777216)) by (nonlinear_arith);
}

proof fn lemma_value_bytes(d: DataValue, t: Seq<u8>, h: u8)
    requires
        h & 3 == size_code(d),
        t == value_bytes(d),
    ensures
        source_value(t, h) == Step::Done(d, t.len()),
{
    match d {
        DataValue::U8(_) => {},
        DataValue::U16(w) => lemma_le16(w as nat),
        DataValue::U32(w) => lemma_le32(w as nat),
    }
}

/// Decoding the canonical encoding of a packet gives the packet back, and
/// takes all of the encoding.
pub proof fn header_round_trip(p: ITMPacket)
    requires
        has_encoding(p),
    ensures
        decode(encoding(p)) == Step::Done(p, encoding(p).len()),
{
    let s = encoding(p);
    let h = s[0];
    let t = s.drop_first();
    lemma_header_sum(h);
    match p {
        ITMPacket::Overflow => {
            assert(h == 0x70);
        },
        ITMPacket::ProgramCounter(a) => {
            assert(t =~= le_bytes32(a.0 as nat));
            lemma_le32(a.0 as nat);
            assert(h == 0x17);
        },
        ITMPacket::Exception(e, n) => {
            let v = (event_code(e) * 4096 + n.0) as nat;
            assert(t =~= le_bytes16(v));
            lemma_le16(v);
            assert(h == 0x0E);
            assert(v as u32 >> 12u32 == event_code(e) && v as u32 & 0x1FF == n.0) by {
                let w = v as u32;
                let c = event_code(e) as u32;
                let m = n.0;
                assert(w == c * 4096 + m);
                assert(1 <= c <= 3 && m < 512 && w == c * 4096 + m ==> w >> 12u32 == c && w & 0x1FF
                    == m) by (bit_vector);
            }
        },
        ITMPacket::DataTracePC(i, a) => {
            assert(t =~= le_bytes16(a.0 as nat));
            lemma_le16(a.0 as nat);
        },
        ITMPacket::DataTraceOffset(i, a) => {
            assert(t =~= le_bytes16(a.0 as nat));
            lemma_le16(a.0 as nat);
        },
        ITMPacket::DataTraceReadData(i, d) => {
            assert(t =~= value_bytes(d));
            lemma_value_bytes(d, t, h);
        },
        ITMPacket::DataTraceWriteData(i, d) => {
            assert(t =~= value_bytes(d));
            lemma_value_bytes(d, t, h);
        },
        ITMPacket::Software(port, d) => {
            assert(t =~= value_bytes(d));
            lemma_value_bytes(d, t, h);
        },
        ITMPacket::SoftwarePageNumber(port) => {},
        _ => {},
    }
}

} // verus!
