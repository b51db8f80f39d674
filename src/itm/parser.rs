//! Decodes instrumentation trace packets from bytes.

use vstd::prelude::*;

use super::types::{
    Address, ComparatorIndex, DataValue, EventCounterFlags, ExceptionEvent, ExceptionNumber,
    ExtendedInformation, GlobalTimestampValue, ITMPacket, InstrumentationPort, LocalTimestampDelta,
    TimestampSync,
};
use crate::bittuple::{bit, bits_value, to_bits, to_u32};
use crate::parseriterator::Decoder;
use crate::readpos::{le16, le32, ReadPos};
use vstd::string::StringExecFns;

verus! {

/// Why decoding stopped short of a packet.
#[derive(Debug, PartialEq, Eq)]
pub enum DecodeError {
    /// The input ended inside a packet, or before one.
    UnexpectedEof,
    /// The bytes break the protocol; the explanation says how.
    InvalidData(String),
}

/// The result of decoding one item from a byte sequence.
pub enum Step<T> {
    /// The input ended first; a decoder then has consumed all of it.
    End,
    /// The item, and the number of bytes it took.
    Done(T, nat),
    /// The bytes break the protocol: the explanation, and the number of bytes
    /// consumed up to the point where that was found.
    Malformed(Seq<char>, nat),
}

/// `step` with `k` more bytes consumed in front of it.
pub open spec fn after<T>(k: nat, step: Step<T>) -> Step<T> {
    match step {
        Step::End => Step::End,
        Step::Done(v, n) => Step::Done(v, n + k),
        Step::Malformed(m, n) => Step::Malformed(m, n + k),
    }
}

/// A decoder that returned `r`, and moved its reader from `before` to
/// `after`, did what `step` says.
pub open spec fn delivers<T>(
    step: Step<T>,
    r: Result<T, DecodeError>,
    before: ReadPos,
    after: ReadPos,
) -> bool {
    match step {
        Step::End => r == Err::<T, DecodeError>(DecodeError::UnexpectedEof) && after.exhausted(
            before,
        ),
        Step::Done(v, n) => r == Ok::<T, DecodeError>(v) && after.advanced(before, n),
        Step::Malformed(m, n) => {
            &&& r is Err
            &&& r->Err_0 is InvalidData
            &&& r->Err_0->InvalidData_0@ == m
            &&& after.advanced(before, n)
        },
    }
}

/// The explanation of a protocol value longer than 28 bits.
pub open spec fn too_long_message() -> Seq<char> {
    "Too long protocol value"@
}

/// The explanation of a source packet header with no payload size.
pub open spec fn zero_length_message() -> Seq<char> {
    "Zero length source value"@
}

/// The explanation of an exception packet whose event is not defined.
pub open spec fn unknown_event_message() -> Seq<char> {
    "Unknown ExceptionEvent"@
}

/// The eight bits of a header, most significant first.
pub open spec fn header_bits(h: u8) -> (u8, u8, u8, u8, u8, u8, u8, u8) {
    (bit(h, 7), bit(h, 6), bit(h, 5), bit(h, 4), bit(h, 3), bit(h, 2), bit(h, 1), bit(h, 0))
}

/// A protocol value: each byte gives its low seven bits, most significant
/// group first, and its top bit says whether another byte follows. At most
/// four bytes (28 bits) are read; `acc` holds the value of the first `i`.
pub open spec fn protocol_value_from(s: Seq<u8>, i: nat, acc: nat) -> Step<(u32, u8)>
    decreases 4 - i,
{
    if i >= 4 {
        Step::Malformed(too_long_message(), 4)
    } else if i >= s.len() {
        Step::End
    } else {
        let acc2 = acc * 128 + (s[i as int] % 128) as nat;
        if s[i as int] < 128 {
            Step::Done((acc2 as u32, (7 * (i + 1)) as u8), i + 1)
        } else {
            protocol_value_from(s, i + 1, acc2)
        }
    }
}

/// The protocol value at the start of `s`, with its length in bits.
pub open spec fn protocol_value(s: Seq<u8>) -> Step<(u32, u8)> {
    protocol_value_from(s, 0, 0)
}

/// The payload of a source packet with header `h`, at the start of `s`.
pub open spec fn source_value(s: Seq<u8>, h: u8) -> Step<DataValue> {
    if h & 3 == 1 {
        if s.len() < 1 {
            Step::End
        } else {
            Step::Done(DataValue::U8(s[0]), 1)
        }
    } else if h & 3 == 2 {
        if s.len() < 2 {
            Step::End
        } else {
            Step::Done(DataValue::U16(le16(s) as u16), 2)
        }
    } else if h & 3 == 3 {
        if s.len() < 4 {
            Step::End
        } else {
            Step::Done(DataValue::U32(le32(s) as u32), 4)
        }
    } else {
        Step::Malformed(zero_length_message(), 0)
    }
}

/// A synchronization packet after its first zero byte, from the `i`-th byte
/// of `s` on: zeros are skipped, and the first other byte ends it.
pub open spec fn synchronization_from(s: Seq<u8>, i: nat) -> Step<ITMPacket>
    decreases s.len() - i,
{
    if i >= s.len() {
        Step::End
    } else if s[i as int] == 0 {
        synchronization_from(s, i + 1)
    } else if s[i as int] == 0x80 {
        Step::Done(ITMPacket::Synchronization, i + 1)
    } else {
        Step::Done(ITMPacket::Reserved(s[i as int]), i + 1)
    }
}

/// How a local timestamp with sync bits `a` and `b` relates to the data.
pub open spec fn timestamp_sync(a: u8, b: u8) -> TimestampSync {
    if a == 0 && b == 0 {
        TimestampSync::Synchronous
    } else if a == 0 {
        TimestampSync::TimestampDelayed
    } else if b == 0 {
        TimestampSync::DataDelayed
    } else {
        TimestampSync::BothDelayed
    }
}

/// The protocol packet with header `h`, given its payload and the
/// length of the payload in bits. The rows are tried in order.
pub open spec fn protocol_packet(h: u8, payload: u32, bitcount: u8) -> ITMPacket {
    match header_bits(h) {
        (0, 1, 1, 1, 0, 0, 0, 0) => ITMPacket::Overflow,
        (1, 1, a, b, 0, 0, 0, 0) => ITMPacket::LocalTimestamp(
            timestamp_sync(a, b),
            LocalTimestampDelta(payload),
        ),
        (0, a, b, c, 0, 0, 0, 0) => ITMPacket::LocalTimestamp(
            TimestampSync::Synchronous,
            LocalTimestampDelta((4 * a + 2 * b + c) as u32),
        ),
        (1, 0, 0, 1, 0, 1, 0, 0) => ITMPacket::GlobalTimestamp(
            GlobalTimestampValue {
                timestamp: (payload as u64) & 0x03FFFFFF,
                known_mask: 0x03FFFFFF,
                wrap: (payload & (1u32 << 27u32)) != 0,
                clock_change: (payload & (1u32 << 26u32)) != 0,
            },
        ),
        (1, 0, 1, 1, 0, 1, 0, 0) => ITMPacket::GlobalTimestamp(
            GlobalTimestampValue {
                timestamp: payload as u64,
                known_mask: 0x3FFFFFu64 << 26u64,
                wrap: false,
                clock_change: false,
            },
        ),
        (0, a, b, c, 1, 0, 0, 0) => ITMPacket::SoftwarePageNumber(
            InstrumentationPort(((4 * a + 2 * b + c) * 32) as u32),
        ),
        (_, a, b, c, 1, s, 0, 0) => ITMPacket::Extension(
            ExtendedInformation {
                data: (payload * 8 + 4 * a + 2 * b + c) as u32,
                bitcount: (bitcount + 3) as u8,
                source: s,
            },
        ),
        _ => ITMPacket::Reserved(h),
    }
}

/// A protocol packet with header `h`, its payload at the start of `s`. Only
/// a header with its top bit set has a payload.
pub open spec fn protocol_packet_at(s: Seq<u8>, h: u8) -> Step<ITMPacket> {
    if h & 0x80 != 0 {
        match protocol_value(s) {
            Step::End => Step::End,
            Step::Malformed(m, n) => Step::Malformed(m, n),
            Step::Done(v, n) => Step::Done(protocol_packet(h, v.0, v.1), n),
        }
    } else {
        Step::Done(protocol_packet(h, 0, 0), 0)
    }
}

/// The source packet with header `h` and payload `d`; `None` for an
/// exception packet whose event is not defined. The rows are tried in order.
pub open spec fn source_packet(h: u8, d: DataValue) -> Option<ITMPacket> {
    let p = d.value();
    match header_bits(h) {
        (a, b, c, e, f, 0, _, _) => Some(
            ITMPacket::Software(
                InstrumentationPort((16 * a + 8 * b + 4 * c + 2 * e + f) as u32),
                d,
            ),
        ),
        (0, 0, 0, 0, 0, 1, 0, 1) => Some(
            ITMPacket::EventCounter(
                EventCounterFlags {
                    cpicnt: p & 0x01 != 0,
                    exccnt: p & 0x02 != 0,
                    sleepcnt: p & 0x04 != 0,
                    lsucnt: p & 0x08 != 0,
                    foldcnt: p & 0x10 != 0,
                    postcnt: p & 0x20 != 0,
                },
            ),
        ),
        (0, 0, 0, 0, 1, 1, 1, 0) => {
            let number = ExceptionNumber(p & 0x1FF);
            if p >> 12u32 == 1 {
                Some(ITMPacket::Exception(ExceptionEvent::Enter, number))
            } else if p >> 12u32 == 2 {
                Some(ITMPacket::Exception(ExceptionEvent::Exit, number))
            } else if p >> 12u32 == 3 {
                Some(ITMPacket::Exception(ExceptionEvent::Resume, number))
            } else {
                None
            }
        },
        (0, 0, 0, 1, 0, 1, 1, 1) => Some(ITMPacket::ProgramCounter(Address(p))),
        (0, 1, a, b, 0, 1, 1, 0) => Some(
            ITMPacket::DataTracePC(ComparatorIndex((2 * a + b) as u32), Address(p)),
        ),
        (0, 1, a, b, 1, 1, 1, 0) => Some(
            ITMPacket::DataTraceOffset(ComparatorIndex((2 * a + b) as u32), Address(p)),
        ),
        (1, 0, a, b, 0, 1, _, _) => Some(
            ITMPacket::DataTraceReadData(ComparatorIndex((2 * a + b) as u32), d),
        ),
        (1, 0, a, b, 1, 1, _, _) => Some(
            ITMPacket::DataTraceWriteData(ComparatorIndex((2 * a + b) as u32), d),
        ),
        _ => Some(ITMPacket::Reserved(h)),
    }
}

/// A source packet with header `h`, its payload at the start of `s`.
pub open spec fn source_packet_at(s: Seq<u8>, h: u8) -> Step<ITMPacket> {
    match source_value(s, h) {
        Step::End => Step::End,
        Step::Malformed(m, n) => Step::Malformed(m, n),
        Step::Done(d, n) => match source_packet(h, d) {
            Some(p) => Step::Done(p, n),
            None => Step::Malformed(unknown_event_message(), n),
        },
    }
}

/// The packet at the start of `s`: its header byte decides whether it is a
/// synchronization, a protocol or a source packet.
pub open spec fn decode(s: Seq<u8>) -> Step<ITMPacket> {
    if s.len() == 0 {
        Step::End
    } else {
        let h = s[0];
        let t = s.drop_first();
        after(
            1,
            match header_bits(h) {
                (0, 0, 0, 0, 0, 0, 0, 0) => synchronization_from(t, 0),
                (_, _, _, _, _, _, 0, 0) => protocol_packet_at(t, h),
                _ => source_packet_at(t, h),
            },
        )
    }
}

/// `parse_one`, having moved its reader from `before` to `after`, returned
/// `r` as `step` says: a malformed packet becomes an `Invalid` packet.
pub open spec fn yields(
    step: Step<ITMPacket>,
    r: Result<ITMPacket, DecodeError>,
    before: ReadPos,
    after: ReadPos,
) -> bool {
    match step {
        Step::Malformed(m, n) => {
            &&& r is Ok
            &&& r->Ok_0 is Invalid
            &&& r->Ok_0->Invalid_0@ == m
            &&& after.advanced(before, n)
        },
        _ => delivers(step, r, before, after),
    }
}

proof fn lemma_accumulate(r: u32, b: u8)
    requires
        r < 0x200000,
    ensures
        (r << 7u32) | ((b as u32) & 0x7F) == r * 128 + (b as u32) % 128,
        (r << 7u32) | ((b as u32) & 0x7F) < r * 128 + 128,
        (b & 0x80 == 0) == (b < 128),
{
    assert((b as u32) & 0x7F == (b as u32) % 128) by (bit_vector);
    assert(r < 0x200000 ==> (r << 7u32) | ((b as u32) & 0x7F) == r * 128 + ((b as u32) & 0x7F))
        by (bit_vector);
    assert((b & 0x80 == 0) == (b < 128)) by (bit_vector);
}

/// Reads a protocol value; returns it with its length in bits.
fn read_protocol_value(input: &mut ReadPos) -> (r: Result<(u32, u8), DecodeError>)
    requires
        old(input).wf(),
    ensures
        delivers(protocol_value(old(input).rest()), r, *old(input), *final(input)),
        r matches Ok(v) ==> v.0 < 0x10000000 && v.1 <= 28,
{
    let ghost start = *input;
    let ghost s = input.rest();
    let mut bitcount: u8 = 0;
    let mut result: u32 = 0;
    while bitcount < 28
        invariant
            start == *old(input),
            start.wf(),
            s == start.rest(),
            bitcount % 7 == 0,
            bitcount <= 28,
            bitcount / 7 <= s.len(),
            input.advanced(start, (bitcount / 7) as nat),
            bitcount == 0 ==> result == 0,
            bitcount == 7 ==> result < 128,
            bitcount == 14 ==> result < 16384,
            bitcount == 21 ==> result < 2097152,
            protocol_value(s) == protocol_value_from(s, (bitcount / 7) as nat, result as nat),
        decreases 28 - bitcount,
    {
        let ghost i: nat = (bitcount / 7) as nat;
        let byte = match input.read_u8() {
            Some(b) => b,
            None => {
                return Err(DecodeError::UnexpectedEof);
            },
        };
        assert(byte == s[i as int]);
        proof {
            lemma_accumulate(result, byte);
        }
        result = (result << 7) | ((byte as u32) & 0x7F);
        bitcount += 7;
        if byte & 0x80 == 0 {
            return Ok((result, bitcount));
        }
    }
    Err(DecodeError::InvalidData(String::from_str("Too long protocol value")))
}

/// Reads the payload of a source packet, as wide as its header says.
fn read_source_value(input: &mut ReadPos, header: u8) -> (r: Result<DataValue, DecodeError>)
    requires
        old(input).wf(),
    ensures
        delivers(source_value(old(input).rest(), header), r, *old(input), *final(input)),
{
    let w = header & 3;
    if w == 1 {
        match input.read_u8() {
            Some(b) => Ok(DataValue::U8(b)),
            None => Err(DecodeError::UnexpectedEof),
        }
    } else if w == 2 {
        match input.read_u16_le() {
            Some(v) => Ok(DataValue::U16(v)),
            None => Err(DecodeError::UnexpectedEof),
        }
    } else if w == 3 {
        match input.read_u32_le() {
            Some(v) => Ok(DataValue::U32(v)),
            None => Err(DecodeError::UnexpectedEof),
        }
    } else {
        Err(DecodeError::InvalidData(String::from_str("Zero length source value")))
    }
}

/// Reads the rest of a synchronization packet, whose first zero byte was
/// the header.
fn parse_synchronization_packet(input: &mut ReadPos) -> (r: Result<ITMPacket, DecodeError>)
    requires
        old(input).wf(),
    ensures
        delivers(synchronization_from(old(input).rest(), 0), r, *old(input), *final(input)),
{
    let ghost start = *input;
    let ghost s = input.rest();
    let ghost mut i: nat = 0;
    loop
        invariant
            start == *old(input),
            start.wf(),
            s == start.rest(),
            i <= s.len(),
            input.advanced(start, i),
            synchronization_from(s, 0) == synchronization_from(s, i),
        decreases s.len() - i,
    {
        match input.read_u8() {
            None => {
                assert(i == s.len());
                return Err(DecodeError::UnexpectedEof);
            },
            Some(b) => {
                assert(b == s[i as int]);
                if b == 0x80 {
                    return Ok(ITMPacket::Synchronization);
                } else if b != 0 {
                    return Ok(ITMPacket::Reserved(b));
                }
                proof {
                    i = i + 1;
                }
            },
        }
    }
}

proof fn lemma_bits3(a: u8, b: u8, c: u8)
    requires
        a <= 1,
        b <= 1,
        c <= 1,
    ensures
        bits_value(seq![a, b, c]) == 4 * a + 2 * b + c,
        bits_value(seq![a, b]) == 2 * a + b,
{
    let s3 = seq![a, b, c];
    let s2 = seq![a, b];
    let s1 = seq![a];
    assert(s3.drop_last() =~= s2);
    assert(s2.drop_last() =~= s1);
    assert(s1.drop_last() =~= Seq::<u8>::empty());
    assert(bits_value(Seq::<u8>::empty()) == 0);
    assert(bits_value(s1) == a) by {
        assert(s1.last() == a);
    }
    assert(bits_value(s2) == 2 * a + b) by {
        assert(s2.last() == b);
    }
    assert(s3.last() == c);
}

proof fn lemma_bits5(a: u8, b: u8, c: u8, d: u8, e: u8)
    requires
        a <= 1,
        b <= 1,
        c <= 1,
        d <= 1,
        e <= 1,
    ensures
        bits_value(seq![a, b, c, d, e]) == 16 * a + 8 * b + 4 * c + 2 * d + e,
{
    let s5 = seq![a, b, c, d, e];
    let s4 = seq![a, b, c, d];
    assert(s5.drop_last() =~= s4);
    assert(s4.drop_last() =~= seq![a, b, c]);
    lemma_bits3(a, b, c);
    assert(s4.last() == d);
    assert(bits_value(s4) == 8 * a + 4 * b + 2 * c + d);
    assert(s5.last() == e);
}

/// Three bits, most significant first, as an integer.
fn bits3(a: u8, b: u8, c: u8) -> (r: u32)
    requires
        a <= 1,
        b <= 1,
        c <= 1,
    ensures
        r == 4 * a + 2 * b + c,
{
    proof {
        lemma_bits3(a, b, c);
    }
    let bits = [a, b, c];
    assert(bits@ =~= seq![a, b, c]);
    to_u32(&bits)
}

/// Two bits, most significant first, as an integer.
fn bits2(a: u8, b: u8) -> (r: u32)
    requires
        a <= 1,
        b <= 1,
    ensures
        r == 2 * a + b,
{
    proof {
        lemma_bits3(a, b, 0);
    }
    let bits = [a, b];
    assert(bits@ =~= seq![a, b]);
    to_u32(&bits)
}

/// Reads the payload of a protocol packet with header `header`, and decodes
/// the packet.
fn parse_protocol_packet(input: &mut ReadPos, header: u8) -> (r: Result<ITMPacket, DecodeError>)
    requires
        old(input).wf(),
    ensures
        delivers(protocol_packet_at(old(input).rest(), header), r, *old(input), *final(input)),
{
    let (payload, bitcount) = if header & 0x80 != 0 {
        match read_protocol_value(input) {
            Ok(v) => v,
            Err(e) => {
                return Err(e);
            },
        }
    } else {
        (0, 0)
    };
    let packet = match to_bits(header) {
        (0, 1, 1, 1, 0, 0, 0, 0) => ITMPacket::Overflow,
        (1, 1, a, b, 0, 0, 0, 0) => {
            let sync = if a == 0 && b == 0 {
                TimestampSync::Synchronous
            } else if a == 0 {
                TimestampSync::TimestampDelayed
            } else if b == 0 {
                TimestampSync::DataDelayed
            } else {
                TimestampSync::BothDelayed
            };
            let p = ITMPacket::LocalTimestamp(sync, LocalTimestampDelta(payload));
            assert(p == protocol_packet(header, payload, bitcount));
            p
        },
        (0, a, b, c, 0, 0, 0, 0) => {
            let delta = LocalTimestampDelta(bits3(a, b, c));
            let p = ITMPacket::LocalTimestamp(TimestampSync::Synchronous, delta);
            assert(p == protocol_packet(header, payload, bitcount));
            p
        },
        (1, 0, 0, 1, 0, 1, 0, 0) => {
            let p = ITMPacket::GlobalTimestamp(
                GlobalTimestampValue {
                    timestamp: (payload as u64) & 0x03FFFFFF,
                    known_mask: 0x03FFFFFF,
                    wrap: (payload & (1u32 << 27u32)) != 0,
                    clock_change: (payload & (1u32 << 26u32)) != 0,
                },
            );
            assert(p == protocol_packet(header, payload, bitcount));
            p
        },
        (1, 0, 1, 1, 0, 1, 0, 0) => {
            let p = ITMPacket::GlobalTimestamp(
                GlobalTimestampValue {
                    timestamp: payload as u64,
                    known_mask: 0x3FFFFFu64 << 26u64,
                    wrap: false,
                    clock_change: false,
                },
            );
            assert(p == protocol_packet(header, payload, bitcount));
            p
        },
        (0, a, b, c, 1, 0, 0, 0) => {
            let page = bits3(a, b, c);
            assert(page << 5u32 == page * 32) by (bit_vector)
                requires
                    page < 8,
            ;
            let p = ITMPacket::SoftwarePageNumber(InstrumentationPort(page << 5));
            assert(p == protocol_packet(header, payload, bitcount));
            p
        },
        (_, a, b, c, 1, s, 0, 0) => {
            let low = bits3(a, b, c);
            assert((payload << 3u32) | low == payload * 8 + low) by (bit_vector)
                requires
                    payload < 0x10000000,
                    low < 8,
            ;
            let info = ExtendedInformation {
                data: (payload << 3) | low,
                bitcount: bitcount + 3,
                source: s,
            };
            let p = ITMPacket::Extension(info);
            assert(p == protocol_packet(header, payload, bitcount));
            p
        },
        _ => ITMPacket::Reserved(header),
    };
    Ok(packet)
}

/// Reads the payload of a source packet with header `header`, and decodes
/// the packet.
fn parse_source_packet(input: &mut ReadPos, header: u8) -> (r: Result<ITMPacket, DecodeError>)
    requires
        old(input).wf(),
    ensures
        delivers(source_packet_at(old(input).rest(), header), r, *old(input), *final(input)),
{
    let datavalue = match read_source_value(input, header) {
        Ok(v) => v,
        Err(e) => {
            return Err(e);
        },
    };
    let payload = datavalue.to_u32();
    let packet = match to_bits(header) {
        (a, b, c, d, e, 0, _, _) => {
            proof {
                lemma_bits5(a, b, c, d, e);
            }
            let bits = [a, b, c, d, e];
            assert(bits@ =~= seq![a, b, c, d, e]);
            let p = ITMPacket::Software(InstrumentationPort(to_u32(&bits)), datavalue);
            assert(Some(p) == source_packet(header, datavalue));
            p
        },
        (0, 0, 0, 0, 0, 1, 0, 1) => {
            let flags = EventCounterFlags {
                cpicnt: payload & 0x01 != 0,
                exccnt: payload & 0x02 != 0,
                sleepcnt: payload & 0x04 != 0,
                lsucnt: payload & 0x08 != 0,
                foldcnt: payload & 0x10 != 0,
                postcnt: payload & 0x20 != 0,
            };
            let p = ITMPacket::EventCounter(flags);
            assert(Some(p) == source_packet(header, datavalue));
            p
        },
        (0, 0, 0, 0, 1, 1, 1, 0) => {
            let event = payload >> 12;
            let number = ExceptionNumber(payload & 0x1FF);
            let p = if event == 1 {
                ITMPacket::Exception(ExceptionEvent::Enter, number)
            } else if event == 2 {
                ITMPacket::Exception(ExceptionEvent::Exit, number)
            } else if event == 3 {
                ITMPacket::Exception(ExceptionEvent::Resume, number)
            } else {
                assert(source_packet(header, datavalue) is None);
                return Err(DecodeError::InvalidData(String::from_str("Unknown ExceptionEvent")));
            };
            assert(Some(p) == source_packet(header, datavalue));
            p
        },
        (0, 0, 0, 1, 0, 1, 1, 1) => ITMPacket::ProgramCounter(Address(payload)),
        (0, 1, a, b, 0, 1, 1, 0) => {
            let p = ITMPacket::DataTracePC(ComparatorIndex(bits2(a, b)), Address(payload));
            assert(Some(p) == source_packet(header, datavalue));
            p
        },
        (0, 1, a, b, 1, 1, 1, 0) => {
            let p = ITMPacket::DataTraceOffset(ComparatorIndex(bits2(a, b)), Address(payload));
            assert(Some(p) == source_packet(header, datavalue));
            p
        },
        (1, 0, a, b, 0, 1, _, _) => {
            let p = ITMPacket::DataTraceReadData(ComparatorIndex(bits2(a, b)), datavalue);
            assert(Some(p) == source_packet(header, datavalue));
            p
        },
        (1, 0, a, b, 1, 1, _, _) => {
            let p = ITMPacket::DataTraceWriteData(ComparatorIndex(bits2(a, b)), datavalue);
            assert(Some(p) == source_packet(header, datavalue));
            p
        },
        _ => ITMPacket::Reserved(header),
    };
    Ok(packet)
}

/// Decodes the packet where the reader stands. A malformed packet becomes
/// an `Invalid` packet that explains what was wrong; the only error is the
/// end of the input, which leaves the reader at its end.
pub fn parse_one(input: &mut ReadPos) -> (r: Result<ITMPacket, DecodeError>)
    requires
        old(input).wf(),
    ensures
        yields(decode(old(input).rest()), r, *old(input), *final(input)),
{
    let ghost s = input.rest();
    let header = match input.read_u8() {
        Some(h) => h,
        None => {
            return Err(DecodeError::UnexpectedEof);
        },
    };
    assert(input.rest() =~= s.drop_first());
    let result = match to_bits(header) {
        (0, 0, 0, 0, 0, 0, 0, 0) => parse_synchronization_packet(input),
        (_, _, _, _, _, _, 0, 0) => parse_protocol_packet(input, header),
        _ => parse_source_packet(input, header),
    };
    match result {
        Err(DecodeError::InvalidData(message)) => Ok(ITMPacket::Invalid(message)),
        other => other,
    }
}

/// The decoder of instrumentation packets, for `ParserIterator`.
pub struct PacketDecoder;

impl Decoder for PacketDecoder {
    type Output = ITMPacket;

    /// Exactly what `parse_one` does.
    open spec fn decodes(
        &self,
        before: ReadPos,
        r: Result<ITMPacket, DecodeError>,
        after: ReadPos,
    ) -> bool {
        yields(decode(before.rest()), r, before, after)
    }

    fn decode_next(&self, input: &mut ReadPos) -> (r: Result<ITMPacket, DecodeError>) {
        parse_one(input)
    }
}

/// Decodes a byte stream packet by packet.
pub struct Parser {
    input: ReadPos,
}

impl Parser {
    /// The reader the parser consumes.
    pub closed spec fn reader(&self) -> ReadPos {
        self.input
    }

    /// The invariant that every method keeps.
    pub open spec fn wf(&self) -> bool {
        self.reader().wf()
    }

    /// A parser that decodes `input` from where it stands.
    pub fn new(input: ReadPos) -> (r: Parser)
        requires
            input.wf(),
        ensures
            r.reader() == input,
            r.wf(),
    {
        Parser { input }
    }

    /// The number of bytes consumed so far.
    pub fn position(&self) -> (r: usize)
        ensures
            r == self.reader().pos(),
    {
        self.input.position()
    }

    /// The next packet; `None` once the input has ended.
    pub fn next(&mut self) -> (r: Option<ITMPacket>)
        requires
            old(self).wf(),
        ensures
            final(self).wf(),
            match decode(old(self).reader().rest()) {
                Step::End => r is None && final(self).reader().exhausted(old(self).reader()),
                Step::Done(p, n) => r == Some(p) && final(self).reader().advanced(
                    old(self).reader(),
                    n,
                ),
                Step::Malformed(m, n) => {
                    &&& r matches Some(ITMPacket::Invalid(message))
                    &&& message@ == m
                    &&& final(self).reader().advanced(old(self).reader(), n)
                },
            },
    {
        match parse_one(&mut self.input) {
            Ok(packet) => Some(packet),
            Err(_) => None,
        }
    }
}

} // verus!
