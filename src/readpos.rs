//! An in-memory byte source that counts the bytes consumed so far, so that
//! decoded packets can be correlated with their offset in the capture.

use vstd::prelude::*;
use byteorder::{ByteOrder, LittleEndian};

verus! {

/// Two bytes read least significant first.
pub open spec fn le16(s: Seq<u8>) -> int {
    s[0] + 256 * s[1]
}

/// Four bytes read least significant first.
pub open spec fn le32(s: Seq<u8>) -> int {
    s[0] + 256 * s[1] + 65536 * s[2] + 16777216 * s[3]
}

/// Relies on `byteorder::LittleEndian::read_u16`: the first two bytes of
/// `buf`, least significant first. It panics on a shorter slice.
#[verifier::external_body]
fn le_u16(buf: &[u8]) -> (r: u16)
    requires
        buf@.len() >= 2,
    ensures
        r == le16(buf@),
{
    LittleEndian::read_u16(buf)
}

/// Relies on `byteorder::LittleEndian::read_u32`: the first four bytes of
/// `buf`, least significant first. It panics on a shorter slice.
#[verifier::external_body]
fn le_u32(buf: &[u8]) -> (r: u32)
    requires
        buf@.len() >= 4,
    ensures
        r == le32(buf@),
{
    LittleEndian::read_u32(buf)
}

/// A byte source over a captured buffer, with the count of bytes consumed.
pub struct ReadPos {
    inner: Vec<u8>,
    position: usize,
}

impl ReadPos {
    /// The whole captured input.
    pub closed spec fn input(&self) -> Seq<u8> {
        self.inner@
    }

    /// The number of bytes consumed so far.
    pub closed spec fn pos(&self) -> nat {
        self.position as nat
    }

    /// The bytes not consumed yet.
    pub open spec fn rest(&self) -> Seq<u8> {
        self.input().skip(self.pos() as int)
    }

    /// The invariant that every method keeps.
    pub open spec fn wf(&self) -> bool {
        &&& self.pos() <= self.input().len()
        &&& self.input().len() <= usize::MAX
    }

    /// `self` is `old` with `n` more bytes consumed.
    pub open spec fn advanced(&self, old: ReadPos, n: nat) -> bool {
        &&& self.wf()
        &&& self.input() == old.input()
        &&& self.pos() == old.pos() + n
    }

    /// `self` is `old` read to its end.
    pub open spec fn exhausted(&self, old: ReadPos) -> bool {
        &&& self.wf()
        &&& self.input() == old.input()
        &&& self.pos() == self.input().len()
    }

    /// A reader at the start of `inner`.
    pub fn new(inner: Vec<u8>) -> (r: ReadPos)
        ensures
            r.wf(),
            r.input() == inner@,
            r.pos() == 0,
    {
        assert(inner@.len() == inner.len());
        ReadPos { inner, position: 0 }
    }

    /// The number of bytes consumed so far.
    pub fn position(&self) -> (r: usize)
        ensures
            r == self.pos(),
    {
        self.position
    }

    /// Copies as many bytes as fit into `buf` and returns how many it copied;
    /// zero at the end of the input.
    pub fn read(&mut self, buf: &mut [u8]) -> (n: usize)
        requires
            old(self).wf(),
        ensures
            n == if old(buf)@.len() <= old(self).rest().len() {
                old(buf)@.len()
            } else {
                old(self).rest().len()
            },
            final(self).advanced(*old(self), n as nat),
            final(buf)@ == old(self).rest().take(n as int) + old(buf)@.skip(n as int),
    {
        let avail = self.inner.len() - self.position;
        let n = if buf.len() <= avail {
            buf.len()
        } else {
            avail
        };
        let ghost start = buf@;
        let p = self.position;
        let end = p + n;
        let mut i: usize = 0;
        while i < n
            invariant
                n <= buf@.len(),
                buf@.len() == start.len(),
                p == self.position,
                p + n == end,
                end <= self.inner@.len(),
                0 <= i <= n,
                forall|k: int| 0 <= k < i ==> #[trigger] buf@[k] == self.inner@[self.position + k],
                forall|k: int| i <= k < buf@.len() ==> #[trigger] buf@[k] == start[k],
            decreases n - i,
        {
            buf[i] = self.inner[p + i];
            i += 1;
        }
        assert(buf@ =~= self.rest().take(n as int) + start.skip(n as int));
        self.position = self.position + n;
        n
    }

    /// Reads one byte; `None` at the end of the input.
    pub fn read_u8(&mut self) -> (r: Option<u8>)
        requires
            old(self).wf(),
        ensures
            old(self).rest().len() == 0 ==> r is None && final(self).exhausted(*old(self)),
            old(self).rest().len() > 0 ==> r == Some(old(self).rest()[0]) && final(self).advanced(
                *old(self),
                1,
            ),
    {
        if self.position < self.inner.len() {
            let b = self.inner[self.position];
            self.position = self.position + 1;
            Some(b)
        } else {
            None
        }
    }

    /// Reads a little-endian 16-bit value. When fewer than two bytes are
    /// left, returns `None` having consumed the rest of the input.
    pub fn read_u16_le(&mut self) -> (r: Option<u16>)
        requires
            old(self).wf(),
        ensures
            old(self).rest().len() < 2 ==> r is None && final(self).exhausted(*old(self)),
            old(self).rest().len() >= 2 ==> r == Some(le16(old(self).rest()) as u16)
                && final(self).advanced(*old(self), 2),
    {
        if self.inner.len() - self.position >= 2 {
            let v = le_u16(&self.inner.as_slice()[self.position..self.inner.len()]);
            self.position = self.position + 2;
            Some(v)
        } else {
            self.position = self.inner.len();
            None
        }
    }

    /// Reads a little-endian 32-bit value. When fewer than four bytes are
    /// left, returns `None` having consumed the rest of the input.
    pub fn read_u32_le(&mut self) -> (r: Option<u32>)
        requires
            old(self).wf(),
        ensures
            old(self).rest().len() < 4 ==> r is None && final(self).exhausted(*old(self)),
            old(self).rest().len() >= 4 ==> r == Some(le32(old(self).rest()) as u32)
                && final(self).advanced(*old(self), 4),
    {
        if self.inner.len() - self.position >= 4 {
            let v = le_u32(&self.inner.as_slice()[self.position..self.inner.len()]);
            self.position = self.position + 4;
            Some(v)
        } else {
            self.position = self.inner.len();
            None
        }
    }
}

/// The sum of `ns`.
pub open spec fn total(ns: Seq<nat>) -> nat
    decreases ns.len(),
{
    if ns.len() == 0 {
        0
    } else {
        total(ns.drop_last()) + ns.last()
    }
}

/// A reader that starts at the beginning and is then advanced by a series
/// of calls, the `i`-th consuming `ns[i]` bytes, stands at their sum.
pub proof fn position_is_total_consumed(rs: Seq<ReadPos>, ns: Seq<nat>)
    requires
        rs.len() == ns.len() + 1,
        rs[0].pos() == 0,
        forall|i: int| 0 <= i < ns.len() ==> #[trigger] rs[i + 1].advanced(rs[i], ns[i]),
    ensures
        rs.last().pos() == total(ns),
    decreases ns.len(),
{
    if ns.len() > 0 {
        let rs0 = rs.drop_last();
        let ns0 = ns.drop_last();
        assert forall|i: int| 0 <= i < ns0.len() implies #[trigger] rs0[i + 1].advanced(
            rs0[i],
            ns0[i],
        ) by {
            assert(rs[i + 1].advanced(rs[i], ns[i]));
        }
        position_is_total_consumed(rs0, ns0);
        assert(rs[ns.len() as int].advanced(rs[ns.len() - 1], ns[ns.len() - 1]));
    }
}

} // verus!
