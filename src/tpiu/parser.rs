//! Splits a stream of formatter frames into the byte blocks of each source.

use vstd::prelude::*;
use std::collections::VecDeque;

use super::types::{packet_for, FramePacket, TPIUPacket, TraceSourceID};
use crate::itm::parser::DecodeError;
use crate::readpos::ReadPos;

verus! {

/// The length of a formatter frame.
pub const FRAME_LEN: usize = 16;

/// What the deframer holds between two byte pairs of a frame: the packets
/// closed so far, the bytes of the current source, and the current source.
pub struct Deframing {
    pub packets: Seq<FramePacket>,
    pub data: Seq<u8>,
    pub source: u8,
}

/// The auxiliary bit for the byte at even index `i`: bit `i / 2` of the
/// last byte of the frame.
pub open spec fn aux_bit(f: Seq<u8>, i: int) -> u8 {
    (f[15] >> ((i / 2) as u8)) & 1
}

/// `st` with the bytes of the current source, if any, closed as a packet.
pub open spec fn flushed(st: Deframing) -> Seq<FramePacket> {
    if st.data.len() > 0 {
        st.packets.push(packet_for(st.source, st.data))
    } else {
        st.packets
    }
}

/// The byte pair at even index `i` of frame `f` applied to `st`. A byte with
/// its low bit clear is data, whose low bit is the auxiliary bit; one with
/// its low bit set names a new source in its upper seven bits, and the
/// auxiliary bit says whether the byte after it still belongs to the old
/// source (1) or already to the new one (0). Index 14 has no byte after it.
pub open spec fn pair_step(f: Seq<u8>, i: int, st: Deframing) -> Deframing {
    let aux = aux_bit(f, i);
    if f[i] & 1 == 0 {
        let d = st.data.push((f[i] & 0xFE) | aux);
        Deframing {
            packets: st.packets,
            data: if i != 14 {
                d.push(f[i + 1])
            } else {
                d
            },
            source: st.source,
        }
    } else {
        let old_data = if i != 14 && aux == 1 {
            st.data.push(f[i + 1])
        } else {
            st.data
        };
        Deframing {
            packets: flushed(Deframing { packets: st.packets, data: old_data, source: st.source }),
            data: if i != 14 && aux == 0 {
                seq![f[i + 1]]
            } else {
                Seq::empty()
            },
            source: f[i] >> 1,
        }
    }
}

/// The state after the first `k` byte pairs of frame `f`, starting from
/// source `source`.
pub open spec fn deframe_pairs(f: Seq<u8>, source: u8, k: nat) -> Deframing
    decreases k,
{
    if k == 0 {
        Deframing { packets: Seq::empty(), data: Seq::empty(), source }
    } else {
        pair_step(f, 2 * (k - 1), deframe_pairs(f, source, (k - 1) as nat))
    }
}

/// The packets of frame `f` when the current source is `source` at its
/// start, and the current source at its end.
pub open spec fn deframe(f: Seq<u8>, source: u8) -> (Seq<FramePacket>, u8) {
    let st = deframe_pairs(f, source, 8);
    (flushed(st), st.source)
}

/// The packets of the whole frames of `s`, the current source being
/// `source` at the start of the first.
pub open spec fn frame_stream(s: Seq<u8>, source: u8) -> Seq<FramePacket>
    decreases s.len(),
{
    if s.len() < 16 {
        Seq::empty()
    } else {
        let (packets, next) = deframe(s.take(16), source);
        packets + frame_stream(s.skip(16), next)
    }
}

/// The views of a sequence of packets.
pub open spec fn views(s: Seq<TPIUPacket>) -> Seq<FramePacket> {
    s.map_values(|p: TPIUPacket| p@)
}

/// Decodes formatter frames into source packets, one at a time.
pub struct Parser {
    input: ReadPos,
    source: TraceSourceID,
    error: Option<DecodeError>,
    buffer: VecDeque<TPIUPacket>,
}

impl Parser {
    /// The reader the parser consumes.
    pub closed spec fn reader(&self) -> ReadPos {
        self.input
    }

    /// The current source.
    pub closed spec fn current_source(&self) -> u8 {
        self.source.0
    }

    /// The packets of the last frame not handed out yet.
    pub closed spec fn pending(&self) -> Seq<FramePacket> {
        views(self.buffer@)
    }

    /// Whether the input ended inside a frame, or before one.
    pub closed spec fn ended(&self) -> bool {
        self.error is Some
    }

    /// The invariant that every method keeps.
    pub open spec fn wf(&self) -> bool {
        &&& self.reader().wf()
        &&& self.failure_is_end_of_input()
    }

    /// The only error kept is the end of the input.
    pub closed spec fn failure_is_end_of_input(&self) -> bool {
        self.error matches Some(e) ==> e == DecodeError::UnexpectedEof
    }

    /// A parser that deframes `input` from where it stands, the null
    /// source being current.
    pub fn new(input: ReadPos) -> (r: Parser)
        requires
            input.wf(),
        ensures
            r.wf(),
            r.reader() == input,
            r.current_source() == 0,
            r.pending() == Seq::<FramePacket>::empty(),
            !r.ended(),
    {
        Parser {
            input,
            source: TraceSourceID(0),
            error: None,
            buffer: VecDeque::with_capacity(16),
        }
    }

    /// The number of bytes consumed so far.
    pub fn position(&self) -> (r: usize)
        ensures
            r == self.reader().pos(),
    {
        self.input.position()
    }

    /// The error that ended the input, if any.
    pub fn error(&self) -> (r: Option<&DecodeError>)
        requires
            self.wf(),
        ensures
            r is Some == self.ended(),
            r matches Some(e) ==> *e == DecodeError::UnexpectedEof,
    {
        match &self.error {
            Some(e) => Some(e),
            None => None,
        }
    }

    /// Reads one frame and appends its packets. A short frame ends the input.
    fn parse_frame(&mut self)
        requires
            old(self).wf(),
            old(self).pending().len() == 0,
        ensures
            final(self).wf(),
            old(self).reader().rest().len() < 16 ==> {
                &&& final(self).reader().exhausted(old(self).reader())
                &&& final(self).ended()
                &&& final(self).pending() == old(self).pending()
                &&& final(self).current_source() == old(self).current_source()
            },
            old(self).reader().rest().len() >= 16 ==> {
                let (packets, source) = deframe(
                    old(self).reader().rest().take(16),
                    old(self).current_source(),
                );
                &&& final(self).reader().advanced(old(self).reader(), 16)
                &&& final(self).ended() == old(self).ended()
                &&& final(self).pending() == packets
                &&& final(self).current_source() == source
            },
    {
        let mut frame: [u8; 16] = [0; 16];
        let n = self.input.read(&mut frame);
        if n < FRAME_LEN {
            self.error = Some(DecodeError::UnexpectedEof);
            return;
        }
        let ghost f = frame@;
        let ghost start = self.source.0;
        let ghost reader = self.input;
        let mut data: Vec<u8> = Vec::with_capacity(16);
        let mut i: usize = 0;
        while i < 15
            invariant
                f == frame@,
                f.len() == 16,
                i % 2 == 0,
                i <= 16,
                self.wf(),
                self.input == reader,
                self.error == old(self).error,
                ({
                    let st = deframe_pairs(f, start, (i / 2) as nat);
                    &&& views(self.buffer@) == st.packets
                    &&& data@ == st.data
                    &&& self.source.0 == st.source
                }),
            decreases 16 - i,
        {
            assert(deframe_pairs(f, start, (i / 2 + 1) as nat) == pair_step(
                f,
                i as int,
                deframe_pairs(f, start, (i / 2) as nat),
            ));
            let aux_bit = (frame[15] >> ((i / 2) as u8)) & 1;
            if (frame[i] & 0x01) == 0 {
                data.push((frame[i] & 0xFE) | aux_bit);
                if i != 14 {
                    data.push(frame[i + 1]);
                }
            } else {
                if i != 14 && aux_bit == 1 {
                    data.push(frame[i + 1]);
                }
                if data.len() > 0 {
                    let packet = self.source.to_packet(data);
                    let ghost before = self.buffer@;
                    self.buffer.push_back(packet);
                    assert(views(self.buffer@) =~= views(before).push(packet@));
                    data = Vec::with_capacity(16);
                }
                self.source = TraceSourceID(frame[i] >> 1);
                if i != 14 && aux_bit == 0 {
                    data.push(frame[i + 1]);
                }
            }
            i += 2;
        }
        assert(i / 2 == 8);
        let ghost st = deframe_pairs(f, start, 8);
        if data.len() > 0 {
            let packet = self.source.to_packet(data);
            let ghost before = self.buffer@;
            self.buffer.push_back(packet);
            assert(views(self.buffer@) =~= views(before).push(packet@));
        }
        assert(views(self.buffer@) == flushed(st));
        assert(frame@ =~= old(self).reader().rest().take(16));
    }

    /// The next packet; `None` once the input has ended.
    pub fn next(&mut self) -> (r: Option<TPIUPacket>)
        requires
            old(self).wf(),
        ensures
            final(self).wf(),
            old(self).pending().len() > 0 ==> {
                &&& r is Some
                &&& r->Some_0@ == old(self).pending()[0]
                &&& final(self).pending() == old(self).pending().drop_first()
                &&& final(self).reader() == old(self).reader()
                &&& final(self).current_source() == old(self).current_source()
            },
            old(self).pending().len() == 0 && old(self).reader().rest().len() < 16 ==> {
                &&& r is None
                &&& final(self).ended()
                &&& final(self).reader().exhausted(old(self).reader())
                &&& final(self).current_source() == old(self).current_source()
            },
            old(self).pending().len() == 0 && old(self).reader().rest().len() >= 16 ==> {
                let (packets, source) = deframe(
                    old(self).reader().rest().take(16),
                    old(self).current_source(),
                );
                &&& final(self).reader().advanced(old(self).reader(), 16)
                &&& final(self).current_source() == source
                &&& packets.len() == 0 ==> r is None && final(self).pending().len() == 0
                &&& packets.len() > 0 ==> {
                    &&& r is Some
                    &&& r->Some_0@ == packets[0]
                    &&& final(self).pending() == packets.drop_first()
                }
            },
    {
        if self.buffer.len() == 0 {
            self.parse_frame();
        }
        let ghost before = self.buffer@;
        let r = self.buffer.pop_front();
        if r.is_some() {
            assert(views(self.buffer@) =~= views(before).drop_first());
        }
        r
    }
}

} // verus!
