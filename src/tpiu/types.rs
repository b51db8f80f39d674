//! Packet types of the trace port formatter.

use vstd::prelude::*;
use vstd::string::StringExecFns;

verus! {

/// The packets of the formatter layer.
#[derive(Debug, PartialEq, Eq)]
pub enum TPIUPacket {
    /// Full frame synchronization, sent between frames.
    FrameSynchronization,
    /// Halfword synchronization, between or within frames.
    HalfwordSynchronization,
    /// Bytes of a trace source.
    Data(TraceSourceID, Vec<u8>),
    /// Bytes of the trigger source.
    Trigger(Vec<u8>),
    /// Bytes of the null source, that is padding.
    Null(Vec<u8>),
    /// Bytes of a source whose ID no range defines.
    Reserved(Vec<u8>),
    /// Bytes that cannot be attributed, with an explanation.
    Invalid(String),
}

/// A formatter packet as a mathematical value.
pub enum FramePacket {
    FrameSynchronization,
    HalfwordSynchronization,
    Data(u8, Seq<u8>),
    Trigger(Seq<u8>),
    Null(Seq<u8>),
    Reserved(Seq<u8>),
    Invalid(Seq<char>),
}

impl View for TPIUPacket {
    type V = FramePacket;

    open spec fn view(&self) -> FramePacket {
        match self {
            TPIUPacket::FrameSynchronization => FramePacket::FrameSynchronization,
            TPIUPacket::HalfwordSynchronization => FramePacket::HalfwordSynchronization,
            TPIUPacket::Data(id, bytes) => FramePacket::Data(id.0, bytes@),
            TPIUPacket::Trigger(bytes) => FramePacket::Trigger(bytes@),
            TPIUPacket::Null(bytes) => FramePacket::Null(bytes@),
            TPIUPacket::Reserved(bytes) => FramePacket::Reserved(bytes@),
            TPIUPacket::Invalid(message) => FramePacket::Invalid(message@),
        }
    }
}

/// A trace source ID.
#[derive(Clone, Copy, Debug, PartialEq, Eq, Structural, PartialOrd, Ord)]
pub struct TraceSourceID(pub u8);

/// The explanation carried for bytes of the invalid source.
pub open spec fn invalid_source_message() -> Seq<char> {
    "TraceSourceID 0x7F is invalid"@
}

/// The packet that carries `data` for source `id`: 0x00 is the null source,
/// 0x01 to 0x6F are data sources, 0x7D is the trigger source, 0x7F is
/// invalid, and the other IDs are reserved.
pub open spec fn packet_for(id: u8, data: Seq<u8>) -> FramePacket {
    if id == 0x00 {
        FramePacket::Null(data)
    } else if 0x01 <= id <= 0x6F {
        FramePacket::Data(id, data)
    } else if id == 0x7D {
        FramePacket::Trigger(data)
    } else if id == 0x7F {
        FramePacket::Invalid(invalid_source_message())
    } else {
        FramePacket::Reserved(data)
    }
}

impl TraceSourceID {
    /// Wraps `data` in the packet for this source.
    pub fn to_packet(&self, data: Vec<u8>) -> (r: TPIUPacket)
        ensures
            r@ == packet_for(self.0, data@),
    {
        if self.0 == 0x00 {
            TPIUPacket::Null(data)
        } else if 0x01 <= self.0 && self.0 <= 0x6F {
            TPIUPacket::Data(*self, data)
        } else if self.0 == 0x7D {
            TPIUPacket::Trigger(data)
        } else if self.0 == 0x7F {
            TPIUPacket::Invalid(String::from_str("TraceSourceID 0x7F is invalid"))
        } else {
            TPIUPacket::Reserved(data)
        }
    }
}

} // verus!
