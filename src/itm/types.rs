//! Packet types of the instrumentation trace stream, following the
//! ARMv7-M Architecture Reference Manual, appendix D.2.

use vstd::prelude::*;

verus! {

/// The decoded packets of the instrumentation trace stream.
#[derive(Debug, PartialEq, Eq)]
pub enum ITMPacket {
    /// Sent periodically so that the receiver can find byte boundaries.
    Synchronization,
    /// Data was dropped because a buffer overflowed.
    Overflow,
    /// The timestamp delta since the previous local timestamp.
    LocalTimestamp(TimestampSync, LocalTimestampDelta),
    /// A global timestamp update.
    GlobalTimestamp(GlobalTimestampValue),
    /// Page of the software instrumentation ports that follow.
    SoftwarePageNumber(InstrumentationPort),
    /// A message written by target software to an instrumentation port.
    Software(InstrumentationPort, DataValue),
    /// One or more event counters wrapped back to zero.
    EventCounter(EventCounterFlags),
    /// A periodically sampled program counter.
    ProgramCounter(Address),
    /// A periodic sample taken while the processor sleeps.
    SleepMode,
    /// Exception (interrupt handler) entry, exit or return.
    Exception(ExceptionEvent, ExceptionNumber),
    /// Program counter of the instruction that hit a data watchpoint.
    DataTracePC(ComparatorIndex, Address),
    /// Address offset inside the range of a watchpoint comparator.
    DataTraceOffset(ComparatorIndex, Address),
    /// Value read from memory.
    DataTraceReadData(ComparatorIndex, DataValue),
    /// Value written to memory.
    DataTraceWriteData(ComparatorIndex, DataValue),
    /// Extended information about a source.
    Extension(ExtendedInformation),
    /// A well formed header that no packet type defines.
    Reserved(u8),
    /// A packet whose payload is inconsistent, with an explanation.
    Invalid(String),
}

/// A memory address on the target processor.
#[derive(Clone, Copy, Debug, PartialEq, Eq, Structural, PartialOrd, Ord)]
pub struct Address(pub u32);

/// An exception or interrupt number.
#[derive(Clone, Copy, Debug, PartialEq, Eq, Structural, PartialOrd, Ord)]
pub struct ExceptionNumber(pub u32);

/// The index of a watchpoint comparator.
#[derive(Clone, Copy, Debug, PartialEq, Eq, Structural, PartialOrd, Ord)]
pub struct ComparatorIndex(pub u32);

/// A software instrumentation port number.
#[derive(Clone, Copy, Debug, PartialEq, Eq, Structural, PartialOrd, Ord)]
pub struct InstrumentationPort(pub u32);

/// A local timestamp delta.
#[derive(Clone, Copy, Debug, PartialEq, Eq, Structural, PartialOrd, Ord)]
pub struct LocalTimestampDelta(pub u32);

/// A global timestamp; `known_mask` tells which bits of `timestamp` are valid.
#[derive(Clone, Copy, Debug, PartialEq, Eq, Structural, PartialOrd, Ord)]
pub struct GlobalTimestampValue {
    pub timestamp: u64,
    pub known_mask: u64,
    pub wrap: bool,
    pub clock_change: bool,
}

/// A value of one, two or four bytes, as wide as the bus access.
#[derive(Clone, Copy, Debug, PartialEq, Eq, Structural, PartialOrd, Ord)]
pub enum DataValue {
    U8(u8),
    U16(u16),
    U32(u32),
}

impl DataValue {
    /// The value as an unsigned integer.
    pub open spec fn value(self) -> u32 {
        match self {
            DataValue::U8(byte) => byte as u32,
            DataValue::U16(word) => word as u32,
            DataValue::U32(word) => word,
        }
    }

    /// The value as an unsigned integer.
    pub fn to_u32(&self) -> (r: u32)
        ensures
            r == self.value(),
    {
        match *self {
            DataValue::U8(byte) => byte as u32,
            DataValue::U16(word) => word as u32,
            DataValue::U32(word) => word,
        }
    }
}

/// How a timestamp relates to the other trace events.
#[derive(Clone, Copy, Debug, PartialEq, Eq, Structural, PartialOrd, Ord)]
pub enum TimestampSync {
    /// The timestamp is synchronous to the data packet.
    Synchronous,
    /// The timestamp packet is delayed relative to the data packet.
    TimestampDelayed,
    /// The data packet is delayed relative to its event.
    DataDelayed,
    /// Both the timestamp and the data packets are delayed.
    BothDelayed,
}

/// Which event counters wrapped.
#[derive(Clone, Copy, Debug, PartialEq, Eq, Structural, PartialOrd, Ord)]
pub struct EventCounterFlags {
    pub cpicnt: bool,
    pub exccnt: bool,
    pub sleepcnt: bool,
    pub lsucnt: bool,
    pub foldcnt: bool,
    pub postcnt: bool,
}

/// What happened to an exception handler.
#[derive(Clone, Copy, Debug, PartialEq, Eq, Structural, PartialOrd, Ord)]
pub enum ExceptionEvent {
    /// The handler started from its beginning.
    Enter,
    /// The handler finished.
    Exit,
    /// The handler resumed after a higher priority exception preempted it.
    Resume,
}

/// Extended information about a source.
#[derive(Clone, Copy, Debug, PartialEq, Eq, Structural, PartialOrd, Ord)]
pub struct ExtendedInformation {
    pub data: u32,
    pub bitcount: u8,
    pub source: u8,
}

} // verus!
