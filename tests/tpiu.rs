use coresight_decoder::tpiu::heuristics::{find_starting_point, likelihood};
use coresight_decoder::readpos::ReadPos;
use coresight_decoder::tpiu::parser::Parser;
use coresight_decoder::tpiu::types::{TPIUPacket, TraceSourceID};
use coresight_decoder::bittuple::{to_bits, to_u32};
use coresight_decoder::itm::parser::DecodeError;

fn test_single(v: Vec<u8>, r: Vec<TPIUPacket>) {
    let mut parser = Parser::new(ReadPos::new(v));
    let mut result = Vec::new();
    while let Some(p) = parser.next() {
        result.push(p);
    }
    assert_eq!(result, r);
}

#[test]
fn test_one_stream() {
    test_single(vec![0x03, 0x17, 0x14, 0x02, 0x00, 0x08, 0x01, 0x00,
                     0x00, 0x00, 0x00, 0x00, 0x00, 0x00, 0x00, 0x00],
                vec![TPIUPacket::Data(TraceSourceID(1), vec![0x17, 0x14, 0x02, 0x00, 0x08]),
                     TPIUPacket::Null(vec![0x00;8])]);
}

#[test]
fn test_multiple_streams() {
    test_single(vec![0x03, 0x0E, 0x2C, 0x10, 0x05, 0x00, 0xFB, 0x00,
                     0x05, 0x00, 0x00, 0x00, 0x00, 0x80, 0x08, 0x00],
                vec![TPIUPacket::Data(TraceSourceID(1), vec![0x0E, 0x2C, 0x10]),
                     TPIUPacket::Data(TraceSourceID(2), vec![0x00]),
                     TPIUPacket::Trigger(vec![0x00]),
                     TPIUPacket::Data(TraceSourceID(2), vec![0x00, 0x00, 0x00, 0x00, 0x80, 0x08])]);
}

#[test]
fn auxiliary_bits_restore_low_bits() {
    // Aux bit 1 set: the byte after the source change of pair 1 stays with
    // source 1; aux bit 2 gives the data byte at index 4 its low bit.
    test_single(vec![0x03, 0x10, 0x05, 0x20, 0x40, 0x41, 0x00, 0x00,
                     0x00, 0x00, 0x00, 0x00, 0x00, 0x00, 0x00, 0x06],
                vec![TPIUPacket::Data(TraceSourceID(1), vec![0x10, 0x20]),
                     TPIUPacket::Data(TraceSourceID(2),
                                      vec![0x41, 0x41, 0x00, 0x00, 0x00, 0x00, 0x00, 0x00,
                                           0x00, 0x00, 0x00])]);
}

#[test]
fn source_persists_across_frames() {
    let mut v = vec![0x05, 0xAA, 0x00, 0x00, 0x00, 0x00, 0x00, 0x00,
                     0x00, 0x00, 0x00, 0x00, 0x00, 0x00, 0x00, 0x00];
    v.extend_from_slice(&[0x10, 0x11, 0x12, 0x13, 0x14, 0x15, 0x16, 0x17,
                          0x18, 0x19, 0x1A, 0x1B, 0x1C, 0x1D, 0x1E, 0x00]);
    test_single(v, vec![
        TPIUPacket::Data(TraceSourceID(2), vec![0xAA, 0, 0, 0, 0, 0, 0, 0, 0, 0, 0, 0, 0, 0]),
        TPIUPacket::Data(TraceSourceID(2), vec![0x10, 0x11, 0x12, 0x13, 0x14, 0x15, 0x16,
                                                0x17, 0x18, 0x19, 0x1A, 0x1B, 0x1C, 0x1D,
                                                0x1E]),
    ]);
}

#[test]
fn frame_bytes_are_conserved() {
    let frames: Vec<Vec<u8>> = vec![
        vec![0x03, 0x0E, 0x2C, 0x10, 0x05, 0x00, 0xFB, 0x00,
             0x05, 0x00, 0x00, 0x00, 0x00, 0x80, 0x08, 0x00],
        vec![0x03, 0x17, 0x14, 0x02, 0x00, 0x08, 0x01, 0x00,
             0x00, 0x00, 0x00, 0x00, 0x00, 0x00, 0x09, 0xFF],
    ];
    for f in frames {
        let changes = (0..8).filter(|k| f[2 * k] & 1 == 1).count();
        let mut parser = Parser::new(ReadPos::new(f));
        let mut total = 0;
        while let Some(p) = parser.next() {
            total += match p {
                TPIUPacket::Data(_, d) | TPIUPacket::Trigger(d) | TPIUPacket::Null(d)
                | TPIUPacket::Reserved(d) => d.len(),
                _ => 0,
            };
        }
        assert_eq!(total + changes, 15);
    }
}

#[test]
fn short_frame_ends_the_stream() {
    let mut parser = Parser::new(ReadPos::new(vec![0x03, 0x10, 0x00]));
    assert!(parser.error().is_none());
    assert_eq!(parser.next(), None);
    assert_eq!(parser.error(), Some(&DecodeError::UnexpectedEof));
    assert_eq!(parser.position(), 3);
}

#[test]
fn source_id_ranges() {
    assert_eq!(TraceSourceID(0x00).to_packet(vec![1]), TPIUPacket::Null(vec![1]));
    assert_eq!(TraceSourceID(0x01).to_packet(vec![1]), TPIUPacket::Data(TraceSourceID(1), vec![1]));
    assert_eq!(TraceSourceID(0x6F).to_packet(vec![1]),
               TPIUPacket::Data(TraceSourceID(0x6F), vec![1]));
    assert_eq!(TraceSourceID(0x70).to_packet(vec![1]), TPIUPacket::Reserved(vec![1]));
    assert_eq!(TraceSourceID(0x7D).to_packet(vec![1]), TPIUPacket::Trigger(vec![1]));
    assert_eq!(TraceSourceID(0x7F).to_packet(vec![1]),
               TPIUPacket::Invalid(String::from("TraceSourceID 0x7F is invalid")));
}

#[test]
fn bit_helpers() {
    assert_eq!(to_bits(0xA5), (1, 0, 1, 0, 0, 1, 0, 1));
    assert_eq!(to_bits(0x00), (0, 0, 0, 0, 0, 0, 0, 0));
    assert_eq!(to_u32(&[1, 0, 1]), 5);
    assert_eq!(to_u32(&[]), 0);
    assert_eq!(to_u32(&[1; 32]), u32::MAX);
}

#[test]
fn formatter_likelihood_table() {
    assert_eq!(likelihood(&TPIUPacket::FrameSynchronization), 100);
    assert_eq!(likelihood(&TPIUPacket::HalfwordSynchronization), 50);
    assert_eq!(likelihood(&TPIUPacket::Data(TraceSourceID(1), vec![1, 2, 3])), 100);
    assert_eq!(likelihood(&TPIUPacket::Data(TraceSourceID(6), vec![1, 2, 3])), 80);
    assert_eq!(likelihood(&TPIUPacket::Data(TraceSourceID(5), vec![1])), 80);
    assert_eq!(likelihood(&TPIUPacket::Data(TraceSourceID(9), vec![1])), 64);
    assert_eq!(likelihood(&TPIUPacket::Trigger(vec![1])), 100);
    assert_eq!(likelihood(&TPIUPacket::Trigger(vec![1, 2])), 80);
    assert_eq!(likelihood(&TPIUPacket::Null(vec![0, 0])), 100);
    assert_eq!(likelihood(&TPIUPacket::Null(vec![0, 1])), 50);
    assert_eq!(likelihood(&TPIUPacket::Reserved(vec![0])), 20);
    assert_eq!(likelihood(&TPIUPacket::Invalid(String::from("x"))), 0);
}

#[test]
fn formatter_starting_point() {
    assert_eq!(find_starting_point(&[]), 0);
    let frame = vec![0x03, 0x17, 0x14, 0x02, 0x00, 0x08, 0x01, 0x00,
                     0x00, 0x00, 0x00, 0x00, 0x00, 0x00, 0x00, 0x00];
    assert_eq!(find_starting_point(&frame), 0);
    let r = find_starting_point(&[0xFF; 40]);
    assert!(r < 4);
}
