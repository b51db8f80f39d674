//! Finds where a capture starts to be aligned on packet boundaries, by
//! scoring how plausible the packets decoded from each offset are.

use vstd::prelude::*;

use super::parser::{decode, Parser, Step};
use super::types::ITMPacket;
use crate::readpos::ReadPos;
use crate::score::{mean_at_least, mean_is_at_least};

verus! {

/// How likely a packet is to come from a correctly aligned stream, in
/// tenths: 0 for the least likely. Packets that rarely appear when the
/// stream is misaligned score high; ones that look like noise score low.
pub open spec fn likelihood_of(packet: ITMPacket) -> nat {
    match packet {
        ITMPacket::Synchronization => 10,
        ITMPacket::Overflow => 9,
        ITMPacket::Software(_, _) => 4,
        ITMPacket::Extension(_) => 2,
        ITMPacket::Reserved(_) => 1,
        ITMPacket::Invalid(_) => 0,
        _ => 5,
    }
}

/// The likelihood of `packet`, in tenths.
pub fn likelihood(packet: &ITMPacket) -> (r: u32)
    ensures
        r == likelihood_of(*packet),
        r <= 10,
{
    match packet {
        // A synchronization packet decodes correctly even after a
        // misaligned stretch.
        ITMPacket::Synchronization => 10,
        // A single byte of 0x70, which misalignment rarely produces.
        ITMPacket::Overflow => 9,
        // Common, but also easily produced by misalignment.
        ITMPacket::Software(_, _) => 4,
        ITMPacket::Extension(_) => 2,
        ITMPacket::Reserved(_) => 1,
        ITMPacket::Invalid(_) => 0,
        _ => 5,
    }
}

/// The sum of the likelihoods of the packets decoded from `s` until it
/// ends, and their number.
pub open spec fn stream_score(s: Seq<u8>) -> (nat, nat)
    decreases s.len(),
{
    match decode(s) {
        Step::Done(p, n) => if 0 < n <= s.len() {
            let rest = stream_score(s.skip(n as int));
            (likelihood_of(p) + rest.0, rest.1 + 1)
        } else {
            (0, 0)
        },
        Step::Malformed(_, n) => if 0 < n <= s.len() {
            let rest = stream_score(s.skip(n as int));
            (rest.0, rest.1 + 1)
        } else {
            (0, 0)
        },
        Step::End => (0, 0),
    }
}

/// The score of the packets decoded from `block` when decoding starts at
/// offset `k`.
pub open spec fn candidate(block: Seq<u8>, k: nat) -> (nat, nat) {
    if k <= block.len() {
        stream_score(block.skip(k as int))
    } else {
        (0, 0)
    }
}

/// Offset `k` considered after `best`: it wins when it decodes some packet
/// and its mean is at least the best one so far.
pub open spec fn pick(block: Seq<u8>, best: Option<nat>, k: nat) -> Option<nat> {
    let c = candidate(block, k);
    if c.1 > 0 && (best is None || mean_at_least(c, candidate(block, best->0))) {
        Some(k)
    } else {
        best
    }
}

/// The best of the offsets from `k` to 3, tried from 3 down to `k`.
pub open spec fn picked_from(block: Seq<u8>, k: nat) -> Option<nat>
    decreases 4 - k,
{
    if k >= 4 {
        None
    } else {
        pick(block, picked_from(block, k + 1), k)
    }
}

/// The offset with the highest mean likelihood, the offsets being tried
/// from 3 down to 0 so that a tie goes to the smallest; 0 when no offset
/// decodes any packet.
pub open spec fn starting_point(block: Seq<u8>) -> nat {
    match picked_from(block, 0) {
        Some(k) => k,
        None => 0,
    }
}

proof fn lemma_decode_progress(s: Seq<u8>)
    ensures
        decode(s) matches Step::Done(_, n) ==> n >= 1,
        decode(s) matches Step::Malformed(_, n) ==> n >= 1,
{
}

/// Decodes all of `input` and returns the score of its packets.
fn score_stream(input: ReadPos) -> (r: (u128, u64))
    requires
        input.wf(),
    ensures
        r.0 == stream_score(input.rest()).0,
        r.1 == stream_score(input.rest()).1,
        r.1 <= input.rest().len(),
        r.0 <= 10 * r.1,
{
    let ghost s = input.rest();
    let mut parser = Parser::new(input);
    let mut sum: u128 = 0;
    let mut count: u64 = 0;
    loop
        invariant
            parser.wf(),
            s == input.rest(),
            s.len() <= usize::MAX,
            count + parser.reader().rest().len() <= s.len(),
            sum <= 10 * count,
            stream_score(s).0 == sum + stream_score(parser.reader().rest()).0,
            stream_score(s).1 == count + stream_score(parser.reader().rest()).1,
        decreases parser.reader().rest().len(),
    {
        let ghost before = parser.reader();
        proof {
            lemma_decode_progress(before.rest());
        }
        match parser.next() {
            Some(packet) => {
                assert(parser.reader().rest() =~= before.rest().skip(
                    parser.reader().pos() - before.pos(),
                ));
                sum = sum + likelihood(&packet) as u128;
                count = count + 1;
            },
            None => {
                return (sum, count);
            },
        }
    }
}

/// The offset, from 0 to 3, at which decoding `block` gives the packets
/// with the highest mean likelihood.
pub fn find_starting_point(block: &[u8]) -> (r: usize)
    ensures
        r == starting_point(block@),
        r < 4,
{
    let mut best: Option<(usize, u128, u64)> = None;
    let mut k: usize = 4;
    while k > 0
        invariant
            k <= 4,
            best matches Some(b) ==> picked_from(block@, k as nat) == Some(b.0 as nat),
            best is None ==> picked_from(block@, k as nat) is None,
            best matches Some(b) ==> {
                &&& b.0 < 4
                &&& b.1 == candidate(block@, b.0 as nat).0
                &&& b.2 == candidate(block@, b.0 as nat).1
                &&& b.2 > 0
                &&& b.1 <= 10 * b.2
            },
        decreases k,
    {
        k = k - 1;
        let (sum, count) = if k <= block.len() {
            let rest = vstd::slice::slice_to_vec(&block[k..block.len()]);
            let input = ReadPos::new(rest);
            assert(input.rest() =~= block@.skip(k as int));
            score_stream(input)
        } else {
            (0, 0)
        };
        let better = match best {
            None => count > 0,
            Some((_, best_sum, best_count)) => count > 0 && mean_is_at_least(
                sum,
                count,
                best_sum,
                best_count,
            ),
        };
        if better {
            best = Some((k, sum, count));
        }
    }
    match best {
        Some((k, _, _)) => k,
        None => 0,
    }
}

} // verus!
