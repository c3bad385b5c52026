use vstd::prelude::*;

use crate::error::DnsError;
use crate::text::{ascii_lower, lower_bytes};

verus! {

/// The byte that separates the labels of a dotted name.
pub const DOT: u8 = 46;

/// The longest label a name may hold.
pub const MAX_LABEL: usize = 63;

/// How many compression pointers the decoder follows before it gives up.
pub const MAX_JUMPS: usize = 5;

/// The labels of a dotted name, as `str::split('.')` yields them.
pub open spec fn split_labels(s: Seq<u8>) -> Seq<Seq<u8>>
    decreases s.len(),
{
    if s.len() == 0 {
        seq![Seq::<u8>::empty()]
    } else {
        let init = split_labels(s.drop_last());
        if s.last() == DOT {
            init.push(Seq::<u8>::empty())
        } else {
            init.update(init.len() - 1, init.last().push(s.last()))
        }
    }
}

/// Each label length-prefixed, one after the other.
pub open spec fn labels_bytes(ls: Seq<Seq<u8>>) -> Seq<u8>
    decreases ls.len(),
{
    if ls.len() == 0 {
        Seq::<u8>::empty()
    } else {
        labels_bytes(ls.drop_last()) + seq![(ls.last().len() % 256) as u8] + ls.last()
    }
}

/// The wire form of a dotted name: each label length-prefixed, then a zero
/// byte. No compression is used.
pub open spec fn qname_bytes(s: Seq<u8>) -> Seq<u8> {
    labels_bytes(split_labels(s)) + seq![0u8]
}

/// Every label of the sequence is at most 63 bytes long.
pub open spec fn labels_fit(ls: Seq<Seq<u8>>) -> bool {
    forall|i: int| 0 <= i < ls.len() ==> #[trigger] ls[i].len() <= MAX_LABEL
}

/// Every label of the dotted name is at most 63 bytes long.
pub open spec fn name_fits(s: Seq<u8>) -> bool {
    labels_fit(split_labels(s))
}

/// Labels joined with dots.
pub open spec fn join_labels(ls: Seq<Seq<u8>>) -> Seq<u8>
    decreases ls.len(),
{
    if ls.len() == 0 {
        Seq::<u8>::empty()
    } else if ls.len() == 1 {
        ls[0]
    } else {
        join_labels(ls.drop_last()) + seq![DOT] + ls.last()
    }
}

/// The labels that the decoder collects from position `pos` of `buf`, with
/// `jumps` pointers already followed, and where the reader's cursor ends:
/// past the first pointer if there is one, else past the terminating zero.
/// Labels are case-folded.
pub open spec fn walk_name(buf: Seq<u8>, pos: int, jumps: int) -> Result<(Seq<Seq<u8>>, int), DnsError>
    decreases (MAX_JUMPS + 1 - jumps) as nat, (buf.len() + 1 - pos) as nat,
{
    if jumps > MAX_JUMPS || jumps < 0 {
        Err(DnsError::JumpsExceeded)
    } else if pos < 0 || pos >= buf.len() {
        Err(DnsError::EndOfBuffer)
    } else {
        let len = buf[pos];
        if len & 0xC0 == 0xC0 {
            if pos + 1 >= buf.len() {
                Err(DnsError::EndOfBuffer)
            } else {
                let target = ((len & 0x3F) as int) * 256 + buf[pos + 1] as int;
                match walk_name(buf, target, jumps + 1) {
                    Ok((ls, _)) => Ok((ls, pos + 2)),
                    Err(e) => Err(e),
                }
            }
        } else if len == 0 {
            Ok((Seq::<Seq<u8>>::empty(), pos + 1))
        } else if pos + 1 + len > buf.len() {
            Err(DnsError::EndOfBuffer)
        } else {
            let label = lower_bytes(buf.subrange(pos + 1, pos + 1 + len));
            match walk_name(buf, pos + 1 + len, jumps) {
                Ok((ls, end)) => Ok((seq![label] + ls, end)),
                Err(e) => Err(e),
            }
        }
    }
}

/// The encoded form of a dotted name is two bytes longer than the name.
pub proof fn lemma_qname_len(s: Seq<u8>)
    ensures
        labels_bytes(split_labels(s)).len() == s.len() + 1,
        qname_bytes(s).len() == s.len() + 2,
    decreases s.len(),
{
    if s.len() == 0 {
        let ls = split_labels(s);
        assert(ls.drop_last() =~= Seq::<Seq<u8>>::empty());
        assert(labels_bytes(ls) == labels_bytes(ls.drop_last()) + seq![(ls.last().len() % 256) as u8]
            + ls.last());
    } else {
        lemma_qname_len(s.drop_last());
        lemma_split_nonempty(s.drop_last());
        let init = split_labels(s.drop_last());
        let ls = split_labels(s);
        if s.last() != DOT {
            assert(ls.drop_last() =~= init.drop_last());
            assert(labels_bytes(init) == labels_bytes(init.drop_last()) + seq![(init.last().len() % 256) as u8]
                + init.last());
            assert(labels_bytes(ls) == labels_bytes(ls.drop_last()) + seq![(ls.last().len() % 256) as u8]
                + ls.last());
        } else {
            assert(ls.drop_last() =~= init);
            assert(labels_bytes(ls) == labels_bytes(ls.drop_last()) + seq![(ls.last().len() % 256) as u8]
                + ls.last());
        }
    }
}

/// The labels of a name always number at least one.
pub proof fn lemma_split_nonempty(s: Seq<u8>)
    ensures
        split_labels(s).len() >= 1,
    decreases s.len(),
{
    if s.len() > 0 {
        lemma_split_nonempty(s.drop_last());
    }
}

/// A name whose labels are all non-empty and at most 63 bytes long.
pub open spec fn legal_name(s: Seq<u8>) -> bool {
    forall|i: int|
        0 <= i < split_labels(s).len() ==> 1 <= #[trigger] split_labels(s)[i].len() <= MAX_LABEL
}

/// The first label of a non-empty label run comes first in its wire form.
pub proof fn lemma_labels_bytes_front(ls: Seq<Seq<u8>>)
    requires
        ls.len() > 0,
    ensures
        labels_bytes(ls) == seq![(ls[0].len() % 256) as u8] + ls[0] + labels_bytes(ls.drop_first()),
    decreases ls.len(),
{
    if ls.len() == 1 {
        assert(ls.drop_last() =~= Seq::<Seq<u8>>::empty());
        assert(ls.drop_first() =~= Seq::<Seq<u8>>::empty());
        assert(labels_bytes(ls.drop_last()) == Seq::<u8>::empty());
        assert(labels_bytes(ls.drop_first()) == Seq::<u8>::empty());
        assert(ls.last() == ls[0]);
        assert(labels_bytes(ls) == labels_bytes(ls.drop_last()) + seq![(ls.last().len() % 256) as u8]
            + ls.last());
        assert(labels_bytes(ls) =~= seq![(ls[0].len() % 256) as u8] + ls[0] + labels_bytes(
            ls.drop_first(),
        ));
    } else {
        lemma_labels_bytes_front(ls.drop_last());
        assert(ls.drop_last().drop_first() =~= ls.drop_first().drop_last());
        assert(ls.drop_first().last() == ls.last());
        assert(labels_bytes(ls.drop_first()) == labels_bytes(ls.drop_first().drop_last()) + seq![
            (ls.last().len() % 256) as u8,
        ] + ls.last());
    }
}

/// The case-folded labels of a run.
pub open spec fn lower_labels(ls: Seq<Seq<u8>>) -> Seq<Seq<u8>> {
    ls.map_values(|l: Seq<u8>| lower_bytes(l))
}

/// The decoder, run on the wire form of non-empty labels of at most 63
/// bytes followed by a zero byte, collects those labels case-folded and ends
/// just past the zero.
pub proof fn lemma_walk_encoded(buf: Seq<u8>, pos: int, ls: Seq<Seq<u8>>, jumps: int)
    requires
        0 <= jumps <= MAX_JUMPS,
        0 <= pos,
        pos + labels_bytes(ls).len() + 1 <= buf.len(),
        buf.subrange(pos, pos + labels_bytes(ls).len() + 1) == labels_bytes(ls) + seq![0u8],
        forall|i: int| 0 <= i < ls.len() ==> 1 <= #[trigger] ls[i].len() <= MAX_LABEL,
    ensures
        walk_name(buf, pos, jumps) == Ok::<(Seq<Seq<u8>>, int), DnsError>(
            (lower_labels(ls), pos + labels_bytes(ls).len() + 1),
        ),
    decreases ls.len(),
{
    let e = pos + labels_bytes(ls).len() + 1;
    assert(buf.subrange(pos, e)[0] == buf[pos]);
    if ls.len() == 0 {
        assert(labels_bytes(ls) == Seq::<u8>::empty());
        assert(buf[pos] == (labels_bytes(ls) + seq![0u8])[0]);
        assert(buf[pos] == 0);
        assert(0u8 & 0xC0u8 == 0u8) by (bit_vector);
        assert(lower_labels(ls) =~= Seq::<Seq<u8>>::empty());
        assert(walk_name(buf, pos, jumps) == Ok::<(Seq<Seq<u8>>, int), DnsError>(
            (Seq::<Seq<u8>>::empty(), pos + 1),
        ));
    } else {
        lemma_labels_bytes_front(ls);
        let l0 = ls[0];
        let rest = ls.drop_first();
        let n = l0.len();
        let whole = labels_bytes(ls) + seq![0u8];
        assert(buf[pos] == whole[0]);
        assert(whole[0] == (n % 256) as u8);
        assert((n % 256) as u8 == n as u8);
        let len = buf[pos];
        assert(len == n);
        assert(len & 0xC0 != 0xC0) by (bit_vector)
            requires
                1 <= len <= 63,
        ;
        assert(buf.subrange(pos + 1, pos + 1 + len) =~= l0) by {
            assert forall|k: int| 0 <= k < n implies buf.subrange(pos + 1, pos + 1 + len)[k] == l0[k] by {
                assert(buf[pos + 1 + k] == whole[1 + k]);
            }
        }
        let next = pos + 1 + n;
        assert forall|i: int| 0 <= i < rest.len() implies 1 <= #[trigger] rest[i].len() <= MAX_LABEL by {
            assert(rest[i] == ls[i + 1]);
        }
        assert(buf.subrange(next, next + labels_bytes(rest).len() + 1) =~= labels_bytes(rest) + seq![0u8]) by {
            assert forall|k: int| 0 <= k < labels_bytes(rest).len() + 1 implies buf.subrange(
                next,
                next + labels_bytes(rest).len() + 1,
            )[k] == (labels_bytes(rest) + seq![0u8])[k] by {
                assert(buf[next + k] == whole[1 + n + k]);
            }
        }
        lemma_walk_encoded(buf, next, rest, jumps);
        assert(lower_labels(ls) =~= seq![lower_bytes(l0)] + lower_labels(rest));
        assert(labels_bytes(ls).len() == 1 + n + labels_bytes(rest).len());
        assert(pos + 1 + len <= buf.len());
        assert(len != 0);
        assert(walk_name(buf, pos, jumps) == match walk_name(buf, pos + 1 + len, jumps) {
            Ok((more, end)) => Ok((seq![lower_bytes(buf.subrange(pos + 1, pos + 1 + len))] + more, end)),
            Err(err) => Err::<(Seq<Seq<u8>>, int), DnsError>(err),
        });
    }
}

/// Splitting a name at its dots and joining the labels back gives the name.
pub proof fn lemma_join_split(s: Seq<u8>)
    ensures
        join_labels(split_labels(s)) == s,
    decreases s.len(),
{
    if s.len() == 0 {
        assert(join_labels(split_labels(s)) =~= s);
    } else {
        lemma_join_split(s.drop_last());
        lemma_split_nonempty(s.drop_last());
        let init = split_labels(s.drop_last());
        let ls = split_labels(s);
        if s.last() == DOT {
            assert(ls.drop_last() =~= init);
            assert(join_labels(ls) =~= s);
        } else {
            if init.len() == 1 {
                assert(join_labels(init) == init[0]);
                assert(ls.len() == 1);
                assert(ls[0] == init[0].push(s.last()));
                assert(join_labels(ls) == ls[0]);
                assert(join_labels(ls) =~= s);
            } else {
                assert(ls.drop_last() =~= init.drop_last());
                assert(ls.last() == init.last().push(s.last()));
                assert(join_labels(init) == join_labels(init.drop_last()) + seq![DOT] + init.last());
                assert(join_labels(ls) == join_labels(ls.drop_last()) + seq![DOT] + ls.last());
                assert(join_labels(ls) =~= join_labels(init).push(s.last()));
                assert(join_labels(ls) =~= s);
            }
        }
    }
}

/// Case folding commutes with joining labels by dots.
pub proof fn lemma_join_lower(ls: Seq<Seq<u8>>)
    ensures
        join_labels(lower_labels(ls)) == lower_bytes(join_labels(ls)),
    decreases ls.len(),
{
    if ls.len() == 0 {
        assert(lower_bytes(Seq::<u8>::empty()) =~= Seq::<u8>::empty());
    } else if ls.len() == 1 {
    } else {
        lemma_join_lower(ls.drop_last());
        assert(lower_labels(ls).drop_last() =~= lower_labels(ls.drop_last()));
        assert(lower_bytes(join_labels(ls)) =~= lower_bytes(join_labels(ls.drop_last())) + seq![DOT]
            + lower_bytes(ls.last()));
    }
}

/// Decoding a buffer that holds the wire form of a legal name, wherever it
/// sits, gives the name case-folded, and leaves the cursor just past it.
pub proof fn lemma_name_round_trip(buf: Seq<u8>, pos: int, s: Seq<u8>)
    requires
        legal_name(s),
        0 <= pos,
        pos + qname_bytes(s).len() <= buf.len(),
        buf.subrange(pos, pos + qname_bytes(s).len()) == qname_bytes(s),
    ensures
        walk_name(buf, pos, 0) is Ok,
        join_labels(walk_name(buf, pos, 0)->Ok_0.0) == lower_bytes(s),
        walk_name(buf, pos, 0)->Ok_0.1 == pos + qname_bytes(s).len(),
{
    let ls = split_labels(s);
    lemma_walk_encoded(buf, pos, ls, 0);
    lemma_join_lower(ls);
    lemma_join_split(s);
}

/// A run of compression pointers that only point into itself: every
/// position `cyc` marks holds a pointer to another marked position.
pub open spec fn pointer_cycle(buf: Seq<u8>, cyc: spec_fn(int) -> bool) -> bool {
    forall|q: int|
        #[trigger] cyc(q) ==> 0 <= q && q + 1 < buf.len() && buf[q] & 0xC0 == 0xC0 && cyc(
            ((buf[q] & 0x3F) as int) * 256 + buf[q + 1] as int,
        )
}

/// Decoding a name that enters a pointer cycle fails with `JumpsExceeded`
/// once the sixth pointer is reached, whatever the number of pointers
/// already followed.
pub proof fn lemma_pointer_cycle_fails(buf: Seq<u8>, cyc: spec_fn(int) -> bool, q: int, jumps: int)
    requires
        pointer_cycle(buf, cyc),
        cyc(q),
        0 <= jumps,
    ensures
        walk_name(buf, q, jumps) == Err::<(Seq<Seq<u8>>, int), DnsError>(DnsError::JumpsExceeded),
    decreases MAX_JUMPS + 1 - jumps,
{
    if jumps <= MAX_JUMPS {
        let t = ((buf[q] & 0x3F) as int) * 256 + buf[q + 1] as int;
        lemma_pointer_cycle_fails(buf, cyc, t, jumps + 1);
    }
}

} // verus!
