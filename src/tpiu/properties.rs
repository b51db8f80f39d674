//! Laws of the deframer: every byte of a frame is accounted for, and the
//! current source carries over from one frame to the next.

use vstd::prelude::*;

use super::parser::{aux_bit, deframe, deframe_pairs, flushed, frame_stream, pair_step, Deframing};
use super::types::{packet_for, FramePacket};

verus! {

/// The number of data bytes a packet carries.
pub open spec fn payload_len(p: FramePacket) -> nat {
    match p {
        FramePacket::Data(_, d) => d.len(),
        FramePacket::Trigger(d) => d.len(),
        FramePacket::Null(d) => d.len(),
        FramePacket::Reserved(d) => d.len(),
        _ => 0,
    }
}

/// The number of data bytes the packets carry together.
pub open spec fn total_payload(ps: Seq<FramePacket>) -> nat
    decreases ps.len(),
{
    if ps.len() == 0 {
        0
    } else {
        total_payload(ps.drop_last()) + payload_len(ps.last())
    }
}

/// The number of source change bytes among the first `k` byte pairs.
pub open spec fn source_changes(f: Seq<u8>, k: nat) -> nat
    decreases k,
{
    if k == 0 {
        0
    } else {
        source_changes(f, (k - 1) as nat) + if f[2 * (k - 1)] & 1 == 1 {
            1nat
        } else {
            0nat
        }
    }
}

/// The number of bytes the first `k` byte pairs hold: two each, but the
/// last pair is the single byte 14.
pub open spec fn pair_bytes(k: nat) -> nat {
    if k <= 7 {
        2 * k
    } else {
        15
    }
}

/// No byte of frame `f` goes to the invalid source 0x7F: neither the
/// current source at its start nor a source it changes to is 0x7F.
pub open spec fn well_formed_frame(f: Seq<u8>, source: u8) -> bool {
    &&& f.len() == 16
    &&& source != 0x7F
    &&& forall|k: int| 0 <= k < 8 ==> #[trigger] f[2 * k] & 1 == 1 ==> f[2 * k] >> 1 != 0x7F
}

proof fn lemma_push_payload(ps: Seq<FramePacket>, p: FramePacket)
    ensures
        total_payload(ps.push(p)) == total_payload(ps) + payload_len(p),
{
    assert(ps.push(p).drop_last() =~= ps);
}

proof fn lemma_flushed_payload(st: Deframing)
    requires
        st.source != 0x7F,
    ensures
        total_payload(flushed(st)) == total_payload(st.packets) + st.data.len(),
{
    if st.data.len() > 0 {
        lemma_push_payload(st.packets, packet_for(st.source, st.data));
    }
}

proof fn lemma_pairs_conserve(f: Seq<u8>, source: u8, k: nat)
    requires
        well_formed_frame(f, source),
        k <= 8,
    ensures
        deframe_pairs(f, source, k).source != 0x7F,
        total_payload(deframe_pairs(f, source, k).packets) + deframe_pairs(f, source, k).data.len()
            + source_changes(f, k) == pair_bytes(k),
    decreases k,
{
    if k > 0 {
        let j = (k - 1) as nat;
        lemma_pairs_conserve(f, source, j);
        let st = deframe_pairs(f, source, j);
        let i: int = 2 * (j as int);
        let next = pair_step(f, i, st);
        assert(deframe_pairs(f, source, k) == next);
        assert(source_changes(f, k) == source_changes(f, j) + if f[i] & 1 == 1 {
            1nat
        } else {
            0nat
        });
        assert(f[2 * (j as int)] & 1 == 1 ==> f[2 * (j as int)] >> 1 != 0x7F);
        let last = f[15];
        let shift = (i / 2) as u8;
        assert((last >> shift) & 1 == 0 || (last >> shift) & 1 == 1) by (bit_vector);
        assert(i == 14 <==> k == 8);
        if f[i] & 1 == 1 {
            let aux = aux_bit(f, i);
            let old_data = if i != 14 && aux == 1 {
                st.data.push(f[i + 1])
            } else {
                st.data
            };
            lemma_flushed_payload(Deframing { packets: st.packets, data: old_data, source: st.source });
            assert(next.source != 0x7F);
        } else {
            let b = f[i];
            assert(b & 1 != 1 ==> b & 1 == 0) by (bit_vector);
        }
    }
}

/// Every byte of a well formed frame but its auxiliary byte is either a
/// data byte of an emitted packet or a source change byte.
pub proof fn deframe_conserves_bytes(f: Seq<u8>, source: u8)
    requires
        well_formed_frame(f, source),
    ensures
        total_payload(deframe(f, source).0) + source_changes(f, 8) == 15,
{
    lemma_pairs_conserve(f, source, 8);
    lemma_flushed_payload(deframe_pairs(f, source, 8));
}

/// Deframing a stream frame by frame hands the current source at the end
/// of each frame to the start of the next one.
pub proof fn source_carries_over(f: Seq<u8>, rest: Seq<u8>, source: u8)
    requires
        f.len() == 16,
    ensures
        frame_stream(f + rest, source) == deframe(f, source).0 + frame_stream(
            rest,
            deframe(f, source).1,
        ),
{
    assert((f + rest).take(16) =~= f);
    assert((f + rest).skip(16) =~= rest);
}

} // verus!
