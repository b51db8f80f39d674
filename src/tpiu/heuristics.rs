//! Finds where a capture starts to be aligned on formatter frames, by
//! scoring how plausible the packets decoded from each offset are.

use vstd::prelude::*;

use super::parser::{aux_bit, deframe, deframe_pairs, frame_stream, pair_step, Parser};
use super::types::{FramePacket, TPIUPacket};
use crate::readpos::ReadPos;
use crate::score::{mean_at_least, mean_is_at_least};

verus! {

/// How likely a packet is to come from a correctly aligned stream, in
/// hundredths: 0 for the least likely.
pub open spec fn likelihood_of(packet: FramePacket) -> nat {
    match packet {
        FramePacket::FrameSynchronization => 100,
        FramePacket::HalfwordSynchronization => 50,
        FramePacket::Data(id, payload) => {
            let id_prob: nat = if id <= 5 {
                10
            } else {
                8
            };
            let data_prob: nat = if payload.len() >= 3 {
                10
            } else {
                8
            };
            id_prob * data_prob
        },
        FramePacket::Trigger(payload) => if payload.len() == 1 {
            100
        } else {
            80
        },
        FramePacket::Null(payload) => if zeros_only(payload) {
            100
        } else {
            50
        },
        FramePacket::Reserved(_) => 20,
        FramePacket::Invalid(_) => 0,
    }
}

/// Every byte of `s` is zero.
pub open spec fn zeros_only(s: Seq<u8>) -> bool {
    forall|i: int| 0 <= i < s.len() ==> s[i] == 0
}

/// Whether every byte of `bytes` is zero.
fn all_zero(bytes: &Vec<u8>) -> (r: bool)
    ensures
        r == zeros_only(bytes@),
{
    let mut i: usize = 0;
    while i < bytes.len()
        invariant
            i <= bytes@.len(),
            forall|j: int| 0 <= j < i ==> bytes@[j] == 0,
        decreases bytes@.len() - i,
    {
        if bytes[i] != 0 {
            return false;
        }
        i += 1;
    }
    true
}

/// The likelihood of `packet`, in hundredths.
pub fn likelihood(packet: &TPIUPacket) -> (r: u32)
    ensures
        r == likelihood_of(packet@),
        r <= 100,
{
    match packet {
        // Frame synchronization realigns everything after it.
        TPIUPacket::FrameSynchronization => 100,
        // Halfword synchronization helps less, and is rare.
        TPIUPacket::HalfwordSynchronization => 50,
        // Mostly the lowest source IDs are used, and most blocks hold at
        // least three bytes.
        TPIUPacket::Data(id, payload) => {
            let wide = payload.len() >= 3;
            if id.0 <= 5 {
                if wide {
                    100
                } else {
                    80
                }
            } else {
                if wide {
                    80
                } else {
                    64
                }
            }
        },
        // Simultaneous triggers give several bytes, but one is usual.
        TPIUPacket::Trigger(payload) => if payload.len() == 1 {
            100
        } else {
            80
        },
        // Padding should hold only zeros.
        TPIUPacket::Null(payload) => if all_zero(payload) {
            100
        } else {
            50
        },
        TPIUPacket::Reserved(_) => 20,
        TPIUPacket::Invalid(_) => 0,
    }
}

/// The sum of the likelihoods of `ps`, and their number.
pub open spec fn packets_score(ps: Seq<FramePacket>) -> (nat, nat)
    decreases ps.len(),
{
    if ps.len() == 0 {
        (0, 0)
    } else {
        let rest = packets_score(ps.drop_first());
        (likelihood_of(ps[0]) + rest.0, rest.1 + 1)
    }
}

/// The score of the packets decoded from `block` when decoding starts at
/// offset `k`, with the null source current.
pub open spec fn candidate(block: Seq<u8>, k: nat) -> (nat, nat) {
    if k <= block.len() {
        packets_score(frame_stream(block.skip(k as int), 0))
    } else {
        (0, 0)
    }
}

/// Offset `k` considered after `best`: it wins when it decodes some packet
/// and its mean is at least the best one so far.
pub open spec fn pick(block: Seq<u8>, best: Option<nat>, k: nat) -> Option<nat> {
    let c = candidate(block, k);
    if c.1 > 0 && (best is None || mean_at_least(c, candidate(block, best->0))) {
        Some(k)
    } else {
        best
    }
}

/// The best of the offsets from `k` to 3, tried from 3 down to `k`.
pub open spec fn picked_from(block: Seq<u8>, k: nat) -> Option<nat>
    decreases 4 - k,
{
    if k >= 4 {
        None
    } else {
        pick(block, picked_from(block, k + 1), k)
    }
}

/// The offset with the highest mean likelihood, ties going to the
/// smallest; 0 when no offset decodes any packet.
pub open spec fn starting_point(block: Seq<u8>) -> nat {
    match picked_from(block, 0) {
        Some(k) => k,
        None => 0,
    }
}

proof fn lemma_score_append(a: Seq<FramePacket>, b: Seq<FramePacket>)
    ensures
        packets_score(a + b).0 == packets_score(a).0 + packets_score(b).0,
        packets_score(a + b).1 == packets_score(a).1 + packets_score(b).1,
    decreases a.len(),
{
    if a.len() > 0 {
        assert((a + b).drop_first() =~= a.drop_first() + b);
        lemma_score_append(a.drop_first(), b);
    } else {
        assert(a + b =~= b);
    }
}

proof fn lemma_score_bound(ps: Seq<FramePacket>)
    ensures
        packets_score(ps).0 <= 100 * packets_score(ps).1,
    decreases ps.len(),
{
    if ps.len() > 0 {
        lemma_score_bound(ps.drop_first());
    }
}

proof fn lemma_count_is_len(ps: Seq<FramePacket>)
    ensures
        packets_score(ps).1 == ps.len(),
    decreases ps.len(),
{
    if ps.len() > 0 {
        lemma_count_is_len(ps.drop_first());
    }
}

proof fn lemma_pairs_len(f: Seq<u8>, source: u8, k: nat)
    requires
        f.len() == 16,
        k <= 8,
    ensures
        deframe_pairs(f, source, k).packets.len() <= k,
        k >= 1 ==> deframe_pairs(f, source, k).packets.len() > 0 || deframe_pairs(
            f,
            source,
            k,
        ).data.len() > 0,
    decreases k,
{
    if k > 0 {
        let j = (k - 1) as nat;
        lemma_pairs_len(f, source, j);
        let i: int = 2 * (j as int);
        let last = f[15];
        let shift = (i / 2) as u8;
        assert((last >> shift) & 1 == 0 || (last >> shift) & 1 == 1) by (bit_vector);
        assert(aux_bit(f, i) == (last >> shift) & 1);
        assert(deframe_pairs(f, source, k) == pair_step(f, i, deframe_pairs(f, source, j)));
    }
}

/// A frame always yields at least one packet, and at most nine.
proof fn lemma_frame_len(f: Seq<u8>, source: u8)
    requires
        f.len() == 16,
    ensures
        1 <= deframe(f, source).0.len() <= 9,
{
    lemma_pairs_len(f, source, 8);
}

proof fn lemma_stream_count(s: Seq<u8>, source: u8)
    ensures
        packets_score(frame_stream(s, source)).1 <= s.len(),
    decreases s.len(),
{
    if s.len() >= 16 {
        let (packets, next) = deframe(s.take(16), source);
        lemma_stream_count(s.skip(16), next);
        lemma_score_append(packets, frame_stream(s.skip(16), next));
        lemma_frame_len(s.take(16), source);
        lemma_count_is_len(packets);
    }
}

/// Decodes the whole frames of `input` and returns the score of their
/// packets.
fn score_stream(input: ReadPos) -> (r: (u128, u64))
    requires
        input.wf(),
    ensures
        r.0 == packets_score(frame_stream(input.rest(), 0)).0,
        r.1 == packets_score(frame_stream(input.rest(), 0)).1,
        r.1 <= input.rest().len(),
        r.0 <= 100 * r.1,
{
    let ghost s = input.rest();
    let ghost total = packets_score(frame_stream(s, 0));
    proof {
        lemma_stream_count(s, 0);
    }
    let mut parser = Parser::new(input);
    assert(packets_score(parser.pending()) == (0nat, 0nat));
    let mut sum: u128 = 0;
    let mut count: u64 = 0;
    loop
        invariant
            parser.wf(),
            s == input.rest(),
            s.len() <= usize::MAX,
            total == packets_score(frame_stream(s, 0)),
            total.1 <= s.len(),
            sum <= 100 * count,
            total.0 == sum + packets_score(parser.pending()).0 + packets_score(
                frame_stream(parser.reader().rest(), parser.current_source()),
            ).0,
            total.1 == count + packets_score(parser.pending()).1 + packets_score(
                frame_stream(parser.reader().rest(), parser.current_source()),
            ).1,
        decreases parser.reader().rest().len(), parser.pending().len(),
    {
        let ghost before = parser;
        let ghost rest = parser.reader().rest();
        proof {
            if rest.len() >= 16 {
                let (packets, next) = deframe(rest.take(16), parser.current_source());
                lemma_frame_len(rest.take(16), parser.current_source());
                lemma_score_append(packets, frame_stream(rest.skip(16), next));
            }
        }
        match parser.next() {
            Some(packet) => {
                proof {
                    if before.pending().len() == 0 {
                        assert(parser.reader().rest() =~= rest.skip(16));
                    }
                }
                sum = sum + likelihood(&packet) as u128;
                count = count + 1;
            },
            None => {
                return (sum, count);
            },
        }
    }
}

/// The offset, from 0 to 3, at which deframing `block` gives the packets
/// with the highest mean likelihood.
pub fn find_starting_point(block: &[u8]) -> (r: usize)
    ensures
        r == starting_point(block@),
        r < 4,
{
    let mut best: Option<(usize, u128, u64)> = None;
    let mut k: usize = 4;
    while k > 0
        invariant
            k <= 4,
            best matches Some(b) ==> picked_from(block@, k as nat) == Some(b.0 as nat),
            best is None ==> picked_from(block@, k as nat) is None,
            best matches Some(b) ==> {
                &&& b.0 < 4
                &&& b.1 == candidate(block@, b.0 as nat).0
                &&& b.2 == candidate(block@, b.0 as nat).1
                &&& b.2 > 0
                &&& b.1 <= 100 * b.2
            },
        decreases k,
    {
        k = k - 1;
        let (sum, count) = if k <= block.len() {
            let rest = vstd::slice::slice_to_vec(&block[k..block.len()]);
            let input = ReadPos::new(rest);
            assert(input.rest() =~= block@.skip(k as int));
            score_stream(input)
        } else {
            (0, 0)
        };
        let better = match best {
            None => count > 0,
            Some((_, best_sum, best_count)) => count > 0 && mean_is_at_least(
                sum,
                count,
                best_sum,
                best_count,
            ),
        };
        if better {
            best = Some((k, sum, count));
        }
    }
    match best {
        Some((k, _, _)) => k,
        None => 0,
    }
}

} // verus!
