use vstd::prelude::*;
use vstd::slice::slice_subrange;
use vstd::string::StringSliceAdditionalSpecFns;

use crate::error::DnsError;
use crate::text::text_bytes;
use crate::name::{
    join_labels, labels_bytes, labels_fit, lemma_split_nonempty, name_fits, qname_bytes,
    split_labels, walk_name, DOT, MAX_JUMPS, MAX_LABEL,
};
use crate::text::{ascii_lower, lossy_string, lower_bytes, to_ascii_lower, lossy_text};

verus! {

/// Size of a DNS datagram that every IPv4 host can reassemble, less the IP
/// and UDP headers.
pub const PACKET_SIZE: usize = 508;

/// A fixed-capacity byte buffer with a cursor, used to read and write DNS
/// datagrams.
pub struct BytePacketBuffer {
    pub buf: Vec<u8>,
    pub pos: usize,
    pub max_size: usize,
}

/// Number of bytes of a write of `n` bytes at `pos` that land below `max`.
pub open spec fn room(pos: int, max: int, n: int) -> int {
    if pos >= max {
        0
    } else if n <= max - pos {
        n
    } else {
        max - pos
    }
}

/// `buf` after writing `data` at `pos`, dropping what falls at or past `max`.
pub open spec fn put(buf: Seq<u8>, pos: int, max: int, data: Seq<u8>) -> Seq<u8> {
    Seq::new(
        buf.len(),
        |i: int|
            if pos <= i < pos + room(pos, max, data.len() as int) {
                data[i - pos]
            } else {
                buf[i]
            },
    )
}

/// Big-endian value of two bytes.
pub open spec fn be16(hi: u8, lo: u8) -> u16 {
    ((hi as u16) << 8u16) | (lo as u16)
}

/// Big-endian value of four bytes.
pub open spec fn be32(b0: u8, b1: u8, b2: u8, b3: u8) -> u32 {
    ((b0 as u32) << 24u32) | ((b1 as u32) << 16u32) | ((b2 as u32) << 8u32) | (b3 as u32)
}

/// Big-endian bytes of a 16-bit value.
pub open spec fn u16_bytes(v: u16) -> Seq<u8> {
    seq![(v >> 8u16) as u8, (v & 0xffu16) as u8]
}

/// Big-endian bytes of a 32-bit value.
pub open spec fn u32_bytes(v: u32) -> Seq<u8> {
    seq![(v >> 24u32) as u8, (v >> 16u32) as u8, (v >> 8u32) as u8, (v & 0xffu32) as u8]
}

/// Reading back the bytes of a 16-bit value gives the value.
pub proof fn lemma_be16_round_trip(v: u16)
    ensures
        be16(u16_bytes(v)[0], u16_bytes(v)[1]) == v,
{
    assert((((v >> 8u16) as u8) as u16) << 8u16 | (((v & 0xffu16) as u8) as u16) == v)
        by (bit_vector);
}

/// Reading back the bytes of a 32-bit value gives the value.
pub proof fn lemma_be32_round_trip(v: u32)
    ensures
        be32(u32_bytes(v)[0], u32_bytes(v)[1], u32_bytes(v)[2], u32_bytes(v)[3]) == v,
{
    assert((((v >> 24u32) as u8) as u32) << 24u32 | (((v >> 16u32) as u8) as u32) << 16u32 | (((
    v >> 8u32) as u8) as u32) << 8u32 | (((v & 0xffu32) as u8) as u32) == v) by (bit_vector);
}

/// The labels of a prefix of a name are, one by one, no longer than those of
/// the whole name.
pub proof fn lemma_split_grow(s: Seq<u8>, j: int)
    requires
        0 <= j <= s.len(),
    ensures
        split_labels(s.take(j)).len() <= split_labels(s).len(),
        forall|i: int|
            0 <= i < split_labels(s.take(j)).len() ==> #[trigger] split_labels(s.take(j))[i].len()
                <= split_labels(s)[i].len(),
    decreases s.len() - j,
{
    if j < s.len() {
        lemma_split_grow(s, j + 1);
        assert(s.take(j + 1).drop_last() =~= s.take(j));
        lemma_split_nonempty(s.take(j));
        let a = split_labels(s.take(j));
        let b = split_labels(s.take(j + 1));
        assert(forall|i: int| 0 <= i < a.len() ==> #[trigger] a[i].len() <= b[i].len());
    } else {
        assert(s.take(j) =~= s);
    }
}

/// Two writes in a row amount to one write of both byte runs.
pub proof fn lemma_wrote_chain(
    a: &BytePacketBuffer,
    b: &BytePacketBuffer,
    c: &BytePacketBuffer,
    d1: Seq<u8>,
    d2: Seq<u8>,
)
    requires
        a.wf(),
        b.wrote(a, d1),
        c.wrote(b, d2),
    ensures
        c.wrote(a, d1 + d2),
{
    let max = a.max_size as int;
    let first_room = room(a.pos as int, max, d1.len() as int);
    let second_room = room(b.pos as int, max, d2.len() as int);
    assert(room(a.pos as int, max, (d1 + d2).len() as int) == first_room + second_room);
    assert(c.buf@ =~= put(a.buf@, a.pos as int, max, d1 + d2));
}

/// A write of nothing changes nothing.
pub proof fn lemma_wrote_nothing(a: &BytePacketBuffer)
    ensures
        a.wrote(a, seq![]),
{
    assert(a.buf@ =~= put(a.buf@, a.pos as int, a.max_size as int, seq![]));
}

impl BytePacketBuffer {
    /// The buffer's storage has its fixed size and the write ceiling lies
    /// within it.
    pub open spec fn wf(&self) -> bool {
        &&& self.buf@.len() == PACKET_SIZE
        &&& self.max_size <= PACKET_SIZE
    }

    /// `self` is `before` with `data` written at its cursor: the bytes that
    /// fit below the ceiling are stored, the rest are dropped.
    pub open spec fn wrote(&self, before: &BytePacketBuffer, data: Seq<u8>) -> bool {
        let k = room(before.pos as int, before.max_size as int, data.len() as int);
        &&& self.max_size == before.max_size
        &&& self.pos == before.pos + k
        &&& self.buf@ == put(before.buf@, before.pos as int, before.max_size as int, data)
    }

    pub fn new() -> (r: BytePacketBuffer)
        ensures
            r.wf(),
            r.pos == 0,
            r.max_size == PACKET_SIZE,
            r.buf@ == Seq::new(PACKET_SIZE as nat, |i: int| 0u8),
    {
        let buf = vec![0u8; PACKET_SIZE];
        proof {
            assert(buf@ =~= Seq::new(PACKET_SIZE as nat, |i: int| 0u8));
        }
        BytePacketBuffer { buf, pos: 0, max_size: PACKET_SIZE }
    }

    pub fn pos(&self) -> (r: usize)
        ensures
            r == self.pos,
    {
        self.pos
    }

    /// Moves the cursor forward; fails when that would pass the end.
    pub fn step(&mut self, steps: usize) -> (r: Result<(), DnsError>)
        requires
            old(self).wf(),
        ensures
            final(self).wf(),
            final(self).buf == old(self).buf,
            final(self).max_size == old(self).max_size,
            old(self).pos + steps <= PACKET_SIZE ==> r is Ok && final(self).pos == old(self).pos + steps,
            old(self).pos + steps > PACKET_SIZE ==> r == Err::<(), DnsError>(DnsError::EndOfBuffer)
                && final(self).pos == old(self).pos,
    {
        if steps > self.buf.len() || self.pos > self.buf.len() - steps {
            return Err(DnsError::EndOfBuffer);
        }
        self.pos = self.pos + steps;
        Ok(())
    }

    pub fn seek(&mut self, pos: usize)
        ensures
            final(self).pos == pos,
            final(self).buf == old(self).buf,
            final(self).max_size == old(self).max_size,
    {
        self.pos = pos;
    }

    /// Reads the byte at the cursor and advances past it.
    pub fn read(&mut self) -> (r: Result<u8, DnsError>)
        requires
            old(self).wf(),
        ensures
            final(self).buf == old(self).buf,
            final(self).max_size == old(self).max_size,
            old(self).pos < PACKET_SIZE ==> r == Ok::<u8, DnsError>(old(self).buf@[old(self).pos as int])
                && final(self).pos == old(self).pos + 1,
            old(self).pos >= PACKET_SIZE ==> r == Err::<u8, DnsError>(DnsError::EndOfBuffer)
                && final(self).pos == old(self).pos,
    {
        if self.pos >= self.buf.len() {
            return Err(DnsError::EndOfBuffer);
        }
        let response = self.buf[self.pos];
        self.pos = self.pos + 1;
        Ok(response)
    }

    /// The byte at `pos`, without moving the cursor.
    pub fn get(&self, pos: usize) -> (r: Result<u8, DnsError>)
        requires
            self.wf(),
        ensures
            pos < PACKET_SIZE ==> r == Ok::<u8, DnsError>(self.buf@[pos as int]),
            pos >= PACKET_SIZE ==> r == Err::<u8, DnsError>(DnsError::EndOfBuffer),
    {
        if pos >= self.buf.len() {
            return Err(DnsError::EndOfBuffer);
        }
        Ok(self.buf[pos])
    }

    /// The `len` bytes from `start`, without moving the cursor.
    pub fn get_range(&self, start: usize, len: usize) -> (r: Result<&[u8], DnsError>)
        requires
            self.wf(),
        ensures
            start + len <= PACKET_SIZE ==> r is Ok && r->Ok_0@ == self.buf@.subrange(
                start as int,
                start + len,
            ),
            start + len > PACKET_SIZE ==> r == Err::<&[u8], DnsError>(DnsError::EndOfBuffer),
    {
        if len > self.buf.len() || start > self.buf.len() - len {
            return Err(DnsError::EndOfBuffer);
        }
        Ok(slice_subrange(self.buf.as_slice(), start, start + len))
    }

    pub fn read_u16(&mut self) -> (r: Result<u16, DnsError>)
        requires
            old(self).wf(),
        ensures
            final(self).buf == old(self).buf,
            final(self).max_size == old(self).max_size,
            old(self).pos + 2 <= PACKET_SIZE ==> r == Ok::<u16, DnsError>(
                be16(old(self).buf@[old(self).pos as int], old(self).buf@[old(self).pos + 1]),
            ) && final(self).pos == old(self).pos + 2,
            old(self).pos + 2 > PACKET_SIZE ==> r == Err::<u16, DnsError>(DnsError::EndOfBuffer),
    {
        let hi = self.read()?;
        let lo = self.read()?;
        Ok(((hi as u16) << 8u16) | (lo as u16))
    }

    pub fn read_u32(&mut self) -> (r: Result<u32, DnsError>)
        requires
            old(self).wf(),
        ensures
            final(self).buf == old(self).buf,
            final(self).max_size == old(self).max_size,
            old(self).pos + 4 <= PACKET_SIZE ==> r == Ok::<u32, DnsError>(
                be32(
                    old(self).buf@[old(self).pos as int],
                    old(self).buf@[old(self).pos + 1],
                    old(self).buf@[old(self).pos + 2],
                    old(self).buf@[old(self).pos + 3],
                ),
            ) && final(self).pos == old(self).pos + 4,
            old(self).pos + 4 > PACKET_SIZE ==> r == Err::<u32, DnsError>(DnsError::EndOfBuffer),
    {
        let b0 = self.read()?;
        let b1 = self.read()?;
        let b2 = self.read()?;
        let b3 = self.read()?;
        Ok(((b0 as u32) << 24u32) | ((b1 as u32) << 16u32) | ((b2 as u32) << 8u32) | (b3 as u32))
    }

    fn write(&mut self, val: u8)
        requires
            old(self).wf(),
        ensures
            final(self).wf(),
            final(self).wrote(old(self), seq![val]),
    {
        if self.pos >= self.max_size {
            proof {
                assert(self.buf@ =~= put(self.buf@, self.pos as int, self.max_size as int, seq![val]));
            }
            return;
        }
        self.buf.set(self.pos, val);
        self.pos = self.pos + 1;
        proof {
            assert(self.buf@ =~= put(old(self).buf@, old(self).pos as int, old(self).max_size as int, seq![val]));
        }
    }

    pub fn write_u8(&mut self, val: u8)
        requires
            old(self).wf(),
        ensures
            final(self).wf(),
            final(self).wrote(old(self), seq![val]),
    {
        self.write(val);
    }

    pub fn write_u16(&mut self, val: u16)
        requires
            old(self).wf(),
        ensures
            final(self).wf(),
            final(self).wrote(old(self), u16_bytes(val)),
    {
        let ghost s0 = *self;
        self.write((val >> 8u16) as u8);
        let ghost s1 = *self;
        self.write((val & 0xffu16) as u8);
        proof {
            lemma_wrote_chain(&s0, &s1, self, seq![(val >> 8u16) as u8], seq![(val & 0xffu16) as u8]);
            assert(seq![(val >> 8u16) as u8] + seq![(val & 0xffu16) as u8] =~= u16_bytes(val));
        }
    }

    pub fn write_u32(&mut self, val: u32)
        requires
            old(self).wf(),
        ensures
            final(self).wf(),
            final(self).wrote(old(self), u32_bytes(val)),
    {
        let ghost s0 = *self;
        self.write((val >> 24u32) as u8);
        let ghost s1 = *self;
        self.write((val >> 16u32) as u8);
        let ghost s2 = *self;
        self.write((val >> 8u32) as u8);
        let ghost s3 = *self;
        self.write((val & 0xffu32) as u8);
        proof {
            let d0 = seq![(val >> 24u32) as u8];
            let d1 = seq![(val >> 16u32) as u8];
            let d2 = seq![(val >> 8u32) as u8];
            let d3 = seq![(val & 0xffu32) as u8];
            lemma_wrote_chain(&s0, &s1, &s2, d0, d1);
            lemma_wrote_chain(&s0, &s2, &s3, d0 + d1, d2);
            lemma_wrote_chain(&s0, &s3, self, d0 + d1 + d2, d3);
            assert(d0 + d1 + d2 + d3 =~= u32_bytes(val));
        }
    }

    /// Decodes the name at the cursor, following compression pointers, and
    /// appends it, case-folded and dotted, to `outstr`. The cursor ends past
    /// the first pointer if one was followed, else past the terminating zero.
    /// Fails with `JumpsExceeded` on a sixth pointer and with `EndOfBuffer`
    /// when the name runs past the buffer.
    pub fn read_qname(&mut self, outstr: &mut String) -> (r: Result<(), DnsError>)
        requires
            old(self).wf(),
        ensures
            final(self).wf(),
            final(self).buf == old(self).buf,
            final(self).max_size == old(self).max_size,
            match walk_name(old(self).buf@, old(self).pos as int, 0) {
                Ok((ls, end)) => r is Ok && final(self).pos == end && final(outstr)@ == old(outstr)@
                    + lossy_text(join_labels(ls)),
                Err(e) => r == Err::<(), DnsError>(e),
            },
    {
        let name = self.read_name_bytes()?;
        let text = lossy_string(name.as_slice());
        outstr.append(text.as_str());
        Ok(())
    }

    /// The case-folded, dotted bytes of the name at the cursor; see
    /// `read_qname`.
    pub fn read_name_bytes(&mut self) -> (r: Result<Vec<u8>, DnsError>)
        requires
            old(self).wf(),
        ensures
            final(self).wf(),
            final(self).buf == old(self).buf,
            final(self).max_size == old(self).max_size,
            match walk_name(old(self).buf@, old(self).pos as int, 0) {
                Ok((ls, end)) => r is Ok && final(self).pos == end && r->Ok_0@ == join_labels(ls),
                Err(e) => r == Err::<Vec<u8>, DnsError>(e),
            },
    {
        let ghost buf = self.buf@;
        let ghost start = self.pos as int;
        if self.pos >= self.buf.len() {
            return Err(DnsError::EndOfBuffer);
        }
        let mut pos = self.pos;
        let mut jumped = false;
        let mut jumps: usize = 0;
        let mut out: Vec<u8> = Vec::new();
        let mut first = true;
        let ghost mut acc: Seq<Seq<u8>> = seq![];
        loop
            invariant
                self.wf(),
                self.buf@ == buf,
                self.buf == old(self).buf,
                self.max_size == old(self).max_size,
                buf.len() == PACKET_SIZE,
                start == old(self).pos,
                jumps <= MAX_JUMPS,
                pos <= PACKET_SIZE,
                !jumped ==> self.pos == old(self).pos,
                out@ == join_labels(acc),
                first == (acc.len() == 0),
                walk_name(buf, start, 0) == match walk_name(buf, pos as int, jumps as int) {
                    Ok((ls, end)) => Ok((acc + ls, if jumped { self.pos as int } else { end })),
                    Err(e) => Err::<(Seq<Seq<u8>>, int), DnsError>(e),
                },
            decreases MAX_JUMPS - jumps, PACKET_SIZE - pos,
        {
            let len = self.get(pos)?;
            if len & 0xC0 == 0xC0 {
                let b2 = self.get(pos + 1)?;
                if !jumped {
                    self.pos = pos + 2;
                }
                let offset: usize = ((len & 0x3F) as usize) * 256 + (b2 as usize);
                proof {
                    let inner = walk_name(buf, offset as int, jumps + 1);
                    assert(walk_name(buf, pos as int, jumps as int) == match inner {
                        Ok((ls, _)) => Ok((ls, pos + 2)),
                        Err(e) => Err::<(Seq<Seq<u8>>, int), DnsError>(e),
                    });
                    if jumps >= MAX_JUMPS {
                        assert(inner == Err::<(Seq<Seq<u8>>, int), DnsError>(DnsError::JumpsExceeded));
                    } else if offset >= PACKET_SIZE {
                        assert(inner == Err::<(Seq<Seq<u8>>, int), DnsError>(DnsError::EndOfBuffer));
                    }
                }
                jumped = true;
                if jumps >= MAX_JUMPS {
                    return Err(DnsError::JumpsExceeded);
                }
                jumps = jumps + 1;
                if offset >= self.buf.len() {
                    return Err(DnsError::EndOfBuffer);
                }
                pos = offset;
            } else {
                if len == 0 {
                    if !jumped {
                        self.pos = pos + 1;
                    }
                    proof {
                        assert(acc + Seq::<Seq<u8>>::empty() =~= acc);
                    }
                    return Ok(out);
                }
                let range = self.get_range(pos + 1, len as usize)?;
                let ghost label = lower_bytes(buf.subrange(pos + 1, pos + 1 + len));
                if !first {
                    out.push(DOT);
                }
                first = false;
                let ghost head = out@;
                let mut i: usize = 0;
                while i < range.len()
                    invariant
                        i <= range@.len(),
                        range@ == buf.subrange(pos + 1, pos + 1 + len),
                        out@ == head + lower_bytes(range@.take(i as int)),
                    decreases range@.len() - i,
                {
                    out.push(to_ascii_lower(range[i]));
                    proof {
                        assert(lower_bytes(range@.take(i + 1)) =~= lower_bytes(range@.take(i as int))
                            .push(ascii_lower(range@[i as int])));
                    }
                    i = i + 1;
                }
                proof {
                    assert(range@.take(i as int) =~= range@);
                    let na = acc.push(label);
                    assert(na.drop_last() =~= acc);
                    if acc.len() == 0 {
                        assert(head =~= Seq::<u8>::empty());
                        assert(out@ =~= label);
                    }
                    assert(out@ == join_labels(na));
                    assert(acc + (seq![label] + Seq::<Seq<u8>>::empty()) =~= na + Seq::<Seq<u8>>::empty());
                    match walk_name(buf, pos + 1 + len, jumps as int) {
                        Ok((ls, end)) => {
                            assert(acc + (seq![label] + ls) =~= na + ls);
                        },
                        Err(e) => {},
                    }
                    acc = na;
                }
                pos = pos + 1 + len as usize;
            }
        }
    }

    /// Writes a dotted name in wire form: each label length-prefixed, then a
    /// zero byte. Fails, once a label longer than 63 bytes is reached, with
    /// `LabelTooLong`. On success returns how far the cursor moved.
    pub fn write_qname(&mut self, qname: &str) -> (r: Result<usize, DnsError>)
        requires
            old(self).wf(),
        ensures
            final(self).wf(),
            final(self).max_size == old(self).max_size,
            r is Ok <==> name_fits(text_bytes(qname@)),
            r is Ok ==> final(self).wrote(old(self), qname_bytes(text_bytes(qname@)))
                && r->Ok_0 == final(self).pos - old(self).pos,
    {
        let bytes = qname.as_bytes();
        let ghost s = bytes@;
        let ghost s0 = *self;
        let start_pos = self.pos;
        let ghost mut done: Seq<Seq<u8>> = seq![];
        let mut start: usize = 0;
        proof {
            lemma_wrote_nothing(self);
            assert(s.take(0) =~= Seq::<u8>::empty());
            assert(done.push(Seq::<u8>::empty()) =~= seq![Seq::<u8>::empty()]);
        }
        loop
            invariant
                self.wf(),
                self.max_size == s0.max_size,
                s0.wf(),
                start_pos == s0.pos,
                s0 == *old(self),
                s == text_bytes(qname@),
                bytes@ == s,
                start <= s.len(),
                split_labels(s.take(start as int)) == done.push(Seq::<u8>::empty()),
                labels_fit(done),
                self.wrote(&s0, labels_bytes(done)),
            decreases s.len() - start,
        {
            let mut end = start;
            proof {
                assert(s.subrange(start as int, start as int) =~= Seq::<u8>::empty());
            }
            while end < bytes.len() && bytes[end] != DOT
                invariant
                    start <= end <= s.len(),
                    bytes@ == s,
                    self.wf(),
                    self.max_size == s0.max_size,
                    s0.wf(),
                    start_pos == s0.pos,
                    s0 == *old(self),
                    labels_fit(done),
                    self.wrote(&s0, labels_bytes(done)),
                    split_labels(s.take(end as int)) == done.push(s.subrange(start as int, end as int)),
                decreases s.len() - end,
            {
                proof {
                    assert(s.take(end + 1).drop_last() =~= s.take(end as int));
                    assert(s.subrange(start as int, end as int).push(s[end as int]) =~= s.subrange(
                        start as int,
                        end + 1,
                    ));
                    assert(done.push(s.subrange(start as int, end as int)).update(
                        done.len() as int,
                        s.subrange(start as int, end + 1),
                    ) =~= done.push(s.subrange(start as int, end + 1)));
                }
                end = end + 1;
            }
            let len = end - start;
            if len > MAX_LABEL {
                proof {
                    lemma_split_grow(s, end as int);
                    let big = split_labels(s.take(end as int));
                    assert(big[done.len() as int].len() > MAX_LABEL);
                    assert(split_labels(s)[done.len() as int].len() > MAX_LABEL);
                }
                return Err(DnsError::LabelTooLong);
            }
            let ghost label = s.subrange(start as int, end as int);
            let ghost before = *self;
            self.write_u8(len as u8);
            proof {
                lemma_wrote_chain(&s0, &before, self, labels_bytes(done), seq![len as u8]);
                assert(labels_bytes(done) + seq![len as u8] + s.subrange(start as int, start as int)
                    =~= labels_bytes(done) + seq![len as u8]);
            }
            let mut k = start;
            while k < end
                invariant
                    start <= k <= end <= s.len(),
                    len == end - start,
                    len <= MAX_LABEL,
                    bytes@ == s,
                    self.wf(),
                    self.max_size == s0.max_size,
                    s0.wf(),
                    start_pos == s0.pos,
                    s0 == *old(self),
                    labels_fit(done),
                    split_labels(s.take(end as int)) == done.push(s.subrange(start as int, end as int)),
                    self.wrote(&s0, labels_bytes(done) + seq![len as u8] + s.subrange(start as int, k as int)),
                decreases end - k,
            {
                let ghost mid = *self;
                self.write_u8(bytes[k]);
                proof {
                    let prev = labels_bytes(done) + seq![len as u8] + s.subrange(start as int, k as int);
                    lemma_wrote_chain(&s0, &mid, self, prev, seq![s[k as int]]);
                    assert(prev + seq![s[k as int]] =~= labels_bytes(done) + seq![len as u8] + s.subrange(
                        start as int,
                        k + 1,
                    ));
                }
                k = k + 1;
            }
            proof {
                let nd = done.push(label);
                assert(nd.drop_last() =~= done);
                assert(labels_bytes(nd) == labels_bytes(done) + seq![(label.len() % 256) as u8] + label);
                assert(len as u8 == (label.len() % 256) as u8);
                done = nd;
            }
            if end == bytes.len() {
                proof {
                    assert(s.take(end as int) =~= s);
                    assert(split_labels(s) == done);
                }
                let ghost last = *self;
                self.write_u8(0);
                proof {
                    lemma_wrote_chain(&s0, &last, self, labels_bytes(done), seq![0u8]);
                }
                return Ok(self.pos - start_pos);
            }
            proof {
                assert(s.take(end + 1).drop_last() =~= s.take(end as int));
                assert(s.take(end + 1).last() == DOT);
            }
            start = end + 1;
        }
    }

    /// Writes the bytes of `data` in order at the cursor.
    pub fn write_bytes(&mut self, data: &[u8])
        requires
            old(self).wf(),
        ensures
            final(self).wf(),
            final(self).wrote(old(self), data@),
    {
        let ghost s0 = *self;
        let mut i: usize = 0;
        proof {
            lemma_wrote_nothing(self);
            assert(data@.take(0) =~= Seq::<u8>::empty());
        }
        while i < data.len()
            invariant
                i <= data@.len(),
                self.wf(),
                s0.wf(),
                s0 == *old(self),
                self.wrote(&s0, data@.take(i as int)),
            decreases data@.len() - i,
        {
            let ghost mid = *self;
            self.write_u8(data[i]);
            proof {
                lemma_wrote_chain(&s0, &mid, self, data@.take(i as int), seq![data@[i as int]]);
                assert(data@.take(i as int) + seq![data@[i as int]] =~= data@.take(i + 1));
            }
            i = i + 1;
        }
        proof {
            assert(data@.take(i as int) =~= data@);
        }
    }

    /// Zeroes the whole buffer and moves the cursor to the start.
    pub fn reset(&mut self)
        requires
            old(self).wf(),
        ensures
            final(self).wf(),
            final(self).pos == 0,
            final(self).max_size == old(self).max_size,
            final(self).buf@ == Seq::new(PACKET_SIZE as nat, |i: int| 0u8),
    {
        let mut i: usize = 0;
        while i < self.buf.len()
            invariant
                i <= PACKET_SIZE,
                self.wf(),
                self.max_size == old(self).max_size,
                forall|j: int| 0 <= j < i ==> self.buf@[j] == 0u8,
            decreases PACKET_SIZE - i,
        {
            self.buf.set(i, 0);
            i = i + 1;
        }
        self.pos = 0;
        proof {
            assert(self.buf@ =~= Seq::new(PACKET_SIZE as nat, |i: int| 0u8));
        }
    }

    /// Overwrites the byte at `pos` without moving the cursor.
    pub fn set(&mut self, pos: usize, val: u8)
        requires
            old(self).wf(),
            pos < PACKET_SIZE,
        ensures
            final(self).wf(),
            final(self).pos == old(self).pos,
            final(self).max_size == old(self).max_size,
            final(self).buf@ == old(self).buf@.update(pos as int, val),
    {
        self.buf.set(pos, val);
    }

    /// Overwrites the two bytes at `pos` with a big-endian value, without
    /// moving the cursor.
    pub fn set_u16(&mut self, pos: usize, val: u16)
        requires
            old(self).wf(),
            pos + 1 < PACKET_SIZE,
        ensures
            final(self).wf(),
            final(self).pos == old(self).pos,
            final(self).max_size == old(self).max_size,
            final(self).buf@ == old(self).buf@.update(pos as int, u16_bytes(val)[0]).update(
                pos + 1,
                u16_bytes(val)[1],
            ),
    {
        self.set(pos, (val >> 8u16) as u8);
        self.set(pos + 1, (val & 0xffu16) as u8);
    }
}

} // verus!
