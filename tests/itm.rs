use coresight_decoder::itm::heuristics::{find_starting_point, likelihood};
use coresight_decoder::itm::parser::{parse_one, DecodeError, PacketDecoder, Parser};
use coresight_decoder::itm::types::{
    Address, ComparatorIndex, DataValue, EventCounterFlags, ExceptionEvent, ExceptionNumber,
    ExtendedInformation, GlobalTimestampValue, ITMPacket, InstrumentationPort,
    LocalTimestampDelta, TimestampSync,
};
use coresight_decoder::parseriterator::ParserIterator;
use coresight_decoder::readpos::ReadPos;

fn test_single(v: Vec<u8>, r: ITMPacket) {
    assert_eq!(parse_one(&mut ReadPos::new(v)).unwrap(), r);
}

fn parse_all(v: Vec<u8>) -> Vec<ITMPacket> {
    let mut parser = Parser::new(ReadPos::new(v));
    let mut out = Vec::new();
    while let Some(p) = parser.next() {
        out.push(p);
    }
    out
}

#[test]
fn test_basic() {
    test_single(vec![0x17, 0x16, 0x02, 0x00, 0x08],
                ITMPacket::ProgramCounter(Address(0x08000216)));
    test_single(vec![0x4e, 0x10, 0x10],
                ITMPacket::DataTraceOffset(ComparatorIndex(0), Address(0x1010)));
}

#[test]
fn synchronization_after_zero_run() {
    test_single(vec![0x00, 0x00, 0x00, 0x00, 0x00, 0x80], ITMPacket::Synchronization);
    for n in 1..40 {
        let mut v = vec![0u8; n];
        v.push(0x80);
        assert_eq!(parse_all(v.clone()), vec![ITMPacket::Synchronization]);
        v.extend_from_slice(&[0x70, 0x01, 0x41]);
        let mut input = ReadPos::new(v);
        assert_eq!(parse_one(&mut input), Ok(ITMPacket::Synchronization));
        assert_eq!(input.position(), n + 1);
    }
}

#[test]
fn synchronization_ending_in_other_byte_is_reserved() {
    test_single(vec![0x00, 0x00, 0x13], ITMPacket::Reserved(0x13));
}

#[test]
fn overflow_single_byte() {
    test_single(vec![0x70], ITMPacket::Overflow);
}

#[test]
fn reserved_protocol_headers() {
    for h in 0u8..=0x7F {
        if h & 0x8F == 0x04 {
            test_single(vec![h], ITMPacket::Reserved(h));
        }
    }
    test_single(vec![0x94 & 0x7F], ITMPacket::Reserved(0x14));
}

#[test]
fn local_timestamps() {
    test_single(vec![0x30], ITMPacket::LocalTimestamp(TimestampSync::Synchronous,
                                                      LocalTimestampDelta(3)));
    test_single(vec![0xC0, 0x81, 0x01],
                ITMPacket::LocalTimestamp(TimestampSync::Synchronous, LocalTimestampDelta(129)));
    test_single(vec![0xD0, 0x05], ITMPacket::LocalTimestamp(TimestampSync::TimestampDelayed,
                                                            LocalTimestampDelta(5)));
    test_single(vec![0xE0, 0x05], ITMPacket::LocalTimestamp(TimestampSync::DataDelayed,
                                                            LocalTimestampDelta(5)));
    test_single(vec![0xF0, 0x7F], ITMPacket::LocalTimestamp(TimestampSync::BothDelayed,
                                                            LocalTimestampDelta(127)));
}

#[test]
fn global_timestamps() {
    // Payload 0x0C000005: wrap and clock change set, timestamp 5.
    test_single(vec![0x94, 0xE0, 0x80, 0x80, 0x05],
                ITMPacket::GlobalTimestamp(GlobalTimestampValue {
                    timestamp: 5,
                    known_mask: 0x03FFFFFF,
                    wrap: true,
                    clock_change: true,
                }));
    test_single(vec![0xB4, 0x01],
                ITMPacket::GlobalTimestamp(GlobalTimestampValue {
                    timestamp: 1,
                    known_mask: 0x0000_FFFF_FC00_0000,
                    wrap: false,
                    clock_change: false,
                }));
}

#[test]
fn global_timestamp_flags() {
    let p = parse_one(&mut ReadPos::new(vec![0x94, 0xC0, 0x80, 0x80, 0x00])).unwrap();
    match p {
        ITMPacket::GlobalTimestamp(v) => {
            assert_eq!(v.timestamp, 0);
            assert!(v.wrap);
            assert!(!v.clock_change);
        }
        other => panic!("unexpected {:?}", other),
    }
}

#[test]
fn page_and_extension() {
    test_single(vec![0x38], ITMPacket::SoftwarePageNumber(InstrumentationPort(3 << 5)));
    test_single(vec![0x2C], ITMPacket::Extension(ExtendedInformation {
        data: 2, bitcount: 3, source: 1 }));
    test_single(vec![0x98, 0x05], ITMPacket::Extension(ExtendedInformation {
        data: (5 << 3) | 1, bitcount: 10, source: 0 }));
}

#[test]
fn software_packets_of_each_width() {
    test_single(vec![0x01, 0x41], ITMPacket::Software(InstrumentationPort(0), DataValue::U8(0x41)));
    test_single(vec![0x0A, 0x34, 0x12],
                ITMPacket::Software(InstrumentationPort(1), DataValue::U16(0x1234)));
    test_single(vec![0xFB, 0x78, 0x56, 0x34, 0x12],
                ITMPacket::Software(InstrumentationPort(31), DataValue::U32(0x12345678)));
}

#[test]
fn hardware_source_packets() {
    test_single(vec![0x05, 0x21], ITMPacket::EventCounter(EventCounterFlags {
        cpicnt: true, exccnt: false, sleepcnt: false, lsucnt: false, foldcnt: false,
        postcnt: true }));
    test_single(vec![0x0E, 0x0F, 0x10],
                ITMPacket::Exception(ExceptionEvent::Enter, ExceptionNumber(0x0F)));
    test_single(vec![0x0E, 0x0F, 0x21],
                ITMPacket::Exception(ExceptionEvent::Exit, ExceptionNumber(0x10F)));
    test_single(vec![0x0E, 0x0F, 0x30],
                ITMPacket::Exception(ExceptionEvent::Resume, ExceptionNumber(0x0F)));
    test_single(vec![0x66, 0x34, 0x12],
                ITMPacket::DataTracePC(ComparatorIndex(2), Address(0x1234)));
    test_single(vec![0x85, 0x7F], ITMPacket::DataTraceReadData(ComparatorIndex(0),
                                                               DataValue::U8(0x7F)));
    test_single(vec![0xBF, 0x01, 0x00, 0x00, 0x80],
                ITMPacket::DataTraceWriteData(ComparatorIndex(3), DataValue::U32(0x80000001)));
    test_single(vec![0x45, 0x00], ITMPacket::Reserved(0x45));
}

#[test]
fn malformed_packets_become_invalid() {
    test_single(vec![0xC0, 0x80, 0x80, 0x80, 0x80, 0x00],
                ITMPacket::Invalid(String::from("Too long protocol value")));
    test_single(vec![0x0E, 0x00, 0x40],
                ITMPacket::Invalid(String::from("Unknown ExceptionEvent")));
}

#[test]
fn end_of_input_is_an_error() {
    assert_eq!(parse_one(&mut ReadPos::new(vec![])), Err(DecodeError::UnexpectedEof));
    let mut input = ReadPos::new(vec![0x17, 0x01, 0x02]);
    assert_eq!(parse_one(&mut input), Err(DecodeError::UnexpectedEof));
    assert_eq!(input.position(), 3);
    assert_eq!(parse_one(&mut ReadPos::new(vec![0x00, 0x00])), Err(DecodeError::UnexpectedEof));
    assert_eq!(parse_one(&mut ReadPos::new(vec![0x80, 0x80])), Err(DecodeError::UnexpectedEof));
}

#[test]
fn position_counts_consumed_bytes() {
    let bytes = vec![0x70, 0x17, 0x16, 0x02, 0x00, 0x08, 0x00, 0x00, 0x80, 0x01, 0x41];
    let mut input = ReadPos::new(bytes);
    let mut expected = vec![1usize, 6, 9, 11].into_iter();
    while let Ok(_) = parse_one(&mut input) {
        assert_eq!(input.position(), expected.next().unwrap());
    }
    assert!(expected.next().is_none());
    let mut parser = Parser::new(ReadPos::new(vec![0x70, 0x4E, 0x10, 0x10]));
    parser.next();
    assert_eq!(parser.position(), 1);
    parser.next();
    assert_eq!(parser.position(), 4);
    assert_eq!(parser.next(), None);
}

#[test]
fn parser_iterator_keeps_the_error() {
    let mut iter = ParserIterator::new(ReadPos::new(vec![0x70, 0x30]), PacketDecoder);
    assert_eq!(iter.next(), Some(ITMPacket::Overflow));
    assert!(iter.error().is_none());
    assert_eq!(iter.next(), Some(ITMPacket::LocalTimestamp(TimestampSync::Synchronous,
                                                           LocalTimestampDelta(3))));
    assert_eq!(iter.next(), None);
    // The end of the input ends the iteration without an error.
    assert!(iter.error().is_none());
    assert_eq!(iter.next(), None);
    assert!(iter.error().is_none());
}

#[test]
fn parser_iterator_yields_invalid_packets_and_goes_on() {
    let mut iter = ParserIterator::new(ReadPos::new(vec![0x0E, 0x00, 0x40, 0x70]), PacketDecoder);
    assert_eq!(iter.next(), Some(ITMPacket::Invalid(String::from("Unknown ExceptionEvent"))));
    assert_eq!(iter.next(), Some(ITMPacket::Overflow));
    assert_eq!(iter.next(), None);
    assert!(iter.error().is_none());
}

#[test]
fn read_copies_and_counts() {
    let mut input = ReadPos::new(vec![1, 2, 3, 4, 5]);
    let mut buf = [9u8; 3];
    assert_eq!(input.read(&mut buf), 3);
    assert_eq!(buf, [1, 2, 3]);
    assert_eq!(input.position(), 3);
    let mut buf = [9u8; 3];
    assert_eq!(input.read(&mut buf), 2);
    assert_eq!(buf, [4, 5, 9]);
    assert_eq!(input.read(&mut buf), 0);
    assert_eq!(input.position(), 5);
    let mut input = ReadPos::new(vec![0x34, 0x12, 0x78, 0x56, 0x34, 0x12, 0x01]);
    assert_eq!(input.read_u16_le(), Some(0x1234));
    assert_eq!(input.read_u32_le(), Some(0x12345678));
    assert_eq!(input.read_u16_le(), None);
    assert_eq!(input.position(), 7);
}

#[test]
fn likelihood_table() {
    assert_eq!(likelihood(&ITMPacket::Synchronization), 10);
    assert_eq!(likelihood(&ITMPacket::Overflow), 9);
    assert_eq!(likelihood(&ITMPacket::Software(InstrumentationPort(1), DataValue::U8(0))), 4);
    assert_eq!(likelihood(&ITMPacket::Extension(ExtendedInformation {
        data: 0, bitcount: 3, source: 0 })), 2);
    assert_eq!(likelihood(&ITMPacket::Reserved(4)), 1);
    assert_eq!(likelihood(&ITMPacket::Invalid(String::from("x"))), 0);
    assert_eq!(likelihood(&ITMPacket::ProgramCounter(Address(0))), 5);
}

#[test]
fn starting_point_skips_garbage() {
    let stream = vec![0x00, 0x00, 0x00, 0x00, 0x00, 0x80, 0x70, 0x70, 0x17, 0x16, 0x02, 0x00, 0x08];
    assert_eq!(find_starting_point(&stream), 0);
    for k in 1..4usize {
        let mut v = vec![0x17u8; k];
        v.extend_from_slice(&stream);
        let r = find_starting_point(&v);
        assert!(r < 4);
        assert_eq!(r, k);
    }
}

#[test]
fn starting_point_of_empty_block_is_zero() {
    assert_eq!(find_starting_point(&[]), 0);
    assert_eq!(find_starting_point(&[0x80]), 0);
}
