use vstd::prelude::*;
use vstd::utf8::{encode_utf8_decode_utf8, encode_utf8_valid_utf8};

use crate::buffer::{be16, be32, lemma_be16_round_trip, lemma_be32_round_trip, put, u16_bytes, u32_bytes, PACKET_SIZE};
use crate::header::{header_from, header_bytes, lemma_header_round_trip, query_type_canonical, query_type_num, query_type_of, QueryType};
use crate::packet::{known_count, packet_at, question_at, questions_at, questions_bytes, records_at, records_bytes, scan_from, sent_bytes, sent_header, write_plan, PacketModel};
use crate::question::question_bytes;
use crate::name::{lemma_name_round_trip, lemma_qname_len, legal_name, qname_bytes};
use crate::record::{name_at, name_wire, record_at, record_bytes, rr_head, with_len, u16s_at, u16s_bytes, RecordModel, lemma_u16s_len};
use crate::text::{lower_bytes, lossy_text, text_bytes};

verus! {

/// A name that encodes and decodes back to itself: legal labels, and no
/// upper-case ASCII letter.
pub open spec fn stable_name(n: Seq<char>) -> bool {
    legal_name(text_bytes(n)) && lower_bytes(text_bytes(n)) == text_bytes(n)
}

/// Where a buffer holds `x` followed by `y`, it holds `x`, then `y`.
pub proof fn lemma_split_at(buf: Seq<u8>, pos: int, x: Seq<u8>, y: Seq<u8>)
    requires
        0 <= pos,
        pos + x.len() + y.len() <= buf.len(),
        buf.subrange(pos, pos + x.len() + y.len()) == x + y,
    ensures
        buf.subrange(pos, pos + x.len()) == x,
        buf.subrange(pos + x.len(), pos + x.len() + y.len()) == y,
{
    let whole = buf.subrange(pos, pos + x.len() + y.len());
    assert(buf.subrange(pos, pos + x.len()) =~= x) by {
        assert forall|k: int| 0 <= k < x.len() implies buf.subrange(pos, pos + x.len())[k] == x[k] by {
            assert(whole[k] == (x + y)[k]);
        }
    }
    assert(buf.subrange(pos + x.len(), pos + x.len() + y.len()) =~= y) by {
        assert forall|k: int| 0 <= k < y.len() implies buf.subrange(pos + x.len(), pos + x.len() + y.len())[k] == y[k] by {
            assert(whole[x.len() + k] == (x + y)[x.len() + k]);
        }
    }
}

/// The two bytes a buffer holds, read as a big-endian value.
pub proof fn lemma_read_u16(buf: Seq<u8>, pos: int, v: u16)
    requires
        0 <= pos,
        pos + 2 <= buf.len(),
        buf.subrange(pos, pos + 2) == u16_bytes(v),
    ensures
        be16(buf[pos], buf[pos + 1]) == v,
{
    assert(buf[pos] == buf.subrange(pos, pos + 2)[0]);
    assert(buf[pos + 1] == buf.subrange(pos, pos + 2)[1]);
    lemma_be16_round_trip(v);
}

/// The four bytes a buffer holds, read as a big-endian value.
pub proof fn lemma_read_u32(buf: Seq<u8>, pos: int, v: u32)
    requires
        0 <= pos,
        pos + 4 <= buf.len(),
        buf.subrange(pos, pos + 4) == u32_bytes(v),
    ensures
        be32(buf[pos], buf[pos + 1], buf[pos + 2], buf[pos + 3]) == v,
{
    let s = buf.subrange(pos, pos + 4);
    assert(buf[pos] == s[0] && buf[pos + 1] == s[1] && buf[pos + 2] == s[2] && buf[pos + 3] == s[3]);
    lemma_be32_round_trip(v);
}

/// A stable name held by a buffer decodes to itself, and the cursor ends
/// just past it.
pub proof fn lemma_name_at_wire(buf: Seq<u8>, pos: int, n: Seq<char>)
    requires
        stable_name(n),
        0 <= pos,
        pos + name_wire(n).len() <= buf.len(),
        buf.subrange(pos, pos + name_wire(n).len()) == name_wire(n),
    ensures
        name_at(buf, pos) == Ok::<(Seq<char>, int), crate::error::DnsError>((n, pos + name_wire(n).len())),
{
    lemma_name_round_trip(buf, pos, text_bytes(n));
    encode_utf8_valid_utf8(n);
    encode_utf8_decode_utf8(n);
}

/// The payload of a record behind its 16-bit length: the length read back,
/// and the payload where it was written.
pub proof fn lemma_with_len(buf: Seq<u8>, at: int, payload: Seq<u8>)
    requires
        0 <= at,
        at + 2 + payload.len() <= buf.len(),
        buf.subrange(at, at + 2 + payload.len()) == with_len(payload),
    ensures
        be16(buf[at], buf[at + 1]) == (payload.len() % 65536) as u16,
        buf.subrange(at + 2, at + 2 + payload.len()) == payload,
{
    let l = u16_bytes((payload.len() % 65536) as u16);
    lemma_split_at(buf, at, l, payload);
    lemma_read_u16(buf, at, (payload.len() % 65536) as u16);
}

/// The fixed part of a record held by a buffer: its name, type, class and
/// TTL read back, and what follows where it was written.
pub proof fn lemma_head(buf: Seq<u8>, pos: int, domain: Seq<char>, t: u16, ttl: u32, rest: Seq<u8>)
    requires
        stable_name(domain),
        0 <= pos,
        pos + rr_head(domain, t, 1, ttl).len() + rest.len() <= buf.len(),
        buf.subrange(pos, pos + rr_head(domain, t, 1, ttl).len() + rest.len()) == rr_head(
            domain,
            t,
            1,
            ttl,
        ) + rest,
    ensures
        name_at(buf, pos) == Ok::<(Seq<char>, int), crate::error::DnsError>(
            (domain, pos + name_wire(domain).len()),
        ),
        rr_head(domain, t, 1, ttl).len() == name_wire(domain).len() + 8,
        be16(buf[pos + name_wire(domain).len()], buf[pos + name_wire(domain).len() + 1]) == t,
        be16(buf[pos + name_wire(domain).len() + 2], buf[pos + name_wire(domain).len() + 3]) == 1,
        be32(
            buf[pos + name_wire(domain).len() + 4],
            buf[pos + name_wire(domain).len() + 5],
            buf[pos + name_wire(domain).len() + 6],
            buf[pos + name_wire(domain).len() + 7],
        ) == ttl,
        buf.subrange(
            pos + name_wire(domain).len() + 8,
            pos + name_wire(domain).len() + 8 + rest.len(),
        ) == rest,
{
    let nw = name_wire(domain);
    let a = u16_bytes(t);
    let c = u16_bytes(1);
    let d = u32_bytes(ttl);
    assert(rr_head(domain, t, 1, ttl) == nw + a + c + d);
    lemma_split_at(buf, pos, nw + a + c + d, rest);
    lemma_split_at(buf, pos, nw + a + c, d);
    lemma_split_at(buf, pos, nw + a, c);
    lemma_split_at(buf, pos, nw, a);
    lemma_name_at_wire(buf, pos, domain);
    let p = pos + nw.len();
    lemma_read_u16(buf, p, t);
    lemma_read_u16(buf, p + 2, 1);
    lemma_read_u32(buf, p + 4, ttl);
}

/// The bytes of a run of 16-bit values, pair by pair.
pub proof fn lemma_u16s_index(s: Seq<u16>, i: int)
    requires
        0 <= i < s.len(),
    ensures
        u16s_bytes(s).len() == 2 * s.len(),
        u16s_bytes(s)[2 * i] == u16_bytes(s[i])[0],
        u16s_bytes(s)[2 * i + 1] == u16_bytes(s[i])[1],
    decreases s.len(),
{
    lemma_u16s_len(s);
    lemma_u16s_len(s.drop_last());
    if i < s.len() - 1 {
        lemma_u16s_index(s.drop_last(), i);
    }
}

/// Sixteen bytes holding eight 16-bit values read back as those values.
pub proof fn lemma_read_u16s(buf: Seq<u8>, q: int, s: Seq<u16>)
    requires
        s.len() == 8,
        0 <= q,
        q + 16 <= buf.len(),
        buf.subrange(q, q + 16) == u16s_bytes(s),
    ensures
        u16s_at(buf, q, 8) == s,
{
    assert forall|i: int| 0 <= i < 8 implies #[trigger] u16s_at(buf, q, 8)[i] == s[i] by {
        lemma_u16s_index(s, i);
        assert(buf[q + 2 * i] == buf.subrange(q, q + 16)[2 * i]);
        assert(buf[q + 2 * i + 1] == buf.subrange(q, q + 16)[2 * i + 1]);
        lemma_be16_round_trip(s[i]);
    }
    assert(u16s_at(buf, q, 8) =~= s);
}

/// A text of fewer than 65536 bytes, held by a buffer, read back.
pub proof fn lemma_text_at(buf: Seq<u8>, q: int, data: Seq<char>)
    requires
        0 <= q,
        text_bytes(data).len() < 65536,
        q + text_bytes(data).len() <= buf.len(),
        buf.subrange(q, q + text_bytes(data).len()) == text_bytes(data),
    ensures
        lossy_text(buf.subrange(q, q + text_bytes(data).len())) == data,
{
    encode_utf8_valid_utf8(data);
    encode_utf8_decode_utf8(data);
}

/// A record that writing and reading give back unchanged: a known type,
/// stable names, addresses of the right size, and texts shorter than 65536
/// bytes.
pub open spec fn stable_record(m: RecordModel) -> bool {
    match m {
        RecordModel::Unknown { .. } => false,
        RecordModel::A { domain, addr, .. } => stable_name(domain) && addr.len() == 4,
        RecordModel::NS { domain, host, .. } => stable_name(domain) && stable_name(host),
        RecordModel::CNAME { domain, host, .. } => stable_name(domain) && stable_name(host),
        RecordModel::SOA { domain, m_name, r_name, .. } => stable_name(domain) && stable_name(m_name)
            && stable_name(r_name),
        RecordModel::MX { domain, host, .. } => stable_name(domain) && stable_name(host),
        RecordModel::TXT { domain, data, .. } => stable_name(domain) && text_bytes(data).len() < 65536,
        RecordModel::AAAA { domain, addr, .. } => stable_name(domain) && addr.len() == 8,
        RecordModel::SRV { domain, host, .. } => stable_name(domain) && stable_name(host),
        RecordModel::OPT { data, .. } => text_bytes(data).len() < 65536,
    }
}

/// A record of type A held by a buffer reads back as itself.
#[verifier::spinoff_prover]
#[verifier::rlimit(60)]
pub proof fn lemma_rt_a(buf: Seq<u8>, pos: int, m: RecordModel)
    requires
        m is A,
        stable_record(m),
        0 <= pos,
        pos + record_bytes(m).len() <= buf.len(),
        buf.subrange(pos, pos + record_bytes(m).len()) == record_bytes(m),
    ensures
        record_at(buf, pos) == Ok::<(RecordModel, int), crate::error::DnsError>(
            (m, pos + record_bytes(m).len()),
        ),
{
    match m {
        RecordModel::A { domain, addr, ttl } => {
        let rest = with_len(addr);
        assert(record_bytes(m) == rr_head(domain, 1, 1, ttl) + rest);
        lemma_head(buf, pos, domain, 1, ttl, rest);
        let p = pos + name_wire(domain).len();
        lemma_with_len(buf, p + 8, addr);
        },
        _ => {},
    }
}

/// A record of type NS held by a buffer reads back as itself.
#[verifier::spinoff_prover]
#[verifier::rlimit(60)]
pub proof fn lemma_rt_ns(buf: Seq<u8>, pos: int, m: RecordModel)
    requires
        m is NS,
        stable_record(m),
        0 <= pos,
        pos + record_bytes(m).len() <= buf.len(),
        buf.subrange(pos, pos + record_bytes(m).len()) == record_bytes(m),
    ensures
        record_at(buf, pos) == Ok::<(RecordModel, int), crate::error::DnsError>(
            (m, pos + record_bytes(m).len()),
        ),
{
    match m {
        RecordModel::NS { domain, host, ttl } => {
        let rest = with_len(name_wire(host));
        assert(record_bytes(m) == rr_head(domain, 2, 1, ttl) + rest);
        lemma_head(buf, pos, domain, 2, ttl, rest);
        let p = pos + name_wire(domain).len();
        lemma_with_len(buf, p + 8, name_wire(host));
        lemma_name_at_wire(buf, p + 10, host);
        },
        _ => {},
    }
}

/// A record of type CNAME held by a buffer reads back as itself.
#[verifier::spinoff_prover]
#[verifier::rlimit(60)]
pub proof fn lemma_rt_cname(buf: Seq<u8>, pos: int, m: RecordModel)
    requires
        m is CNAME,
        stable_record(m),
        0 <= pos,
        pos + record_bytes(m).len() <= buf.len(),
        buf.subrange(pos, pos + record_bytes(m).len()) == record_bytes(m),
    ensures
        record_at(buf, pos) == Ok::<(RecordModel, int), crate::error::DnsError>(
            (m, pos + record_bytes(m).len()),
        ),
{
    match m {
        RecordModel::CNAME { domain, host, ttl } => {
        let rest = with_len(name_wire(host));
        assert(record_bytes(m) == rr_head(domain, 5, 1, ttl) + rest);
        lemma_head(buf, pos, domain, 5, ttl, rest);
        let p = pos + name_wire(domain).len();
        lemma_with_len(buf, p + 8, name_wire(host));
        lemma_name_at_wire(buf, p + 10, host);
        },
        _ => {},
    }
}

/// A record of type MX held by a buffer reads back as itself.
#[verifier::spinoff_prover]
#[verifier::rlimit(60)]
pub proof fn lemma_rt_mx(buf: Seq<u8>, pos: int, m: RecordModel)
    requires
        m is MX,
        stable_record(m),
        0 <= pos,
        pos + record_bytes(m).len() <= buf.len(),
        buf.subrange(pos, pos + record_bytes(m).len()) == record_bytes(m),
    ensures
        record_at(buf, pos) == Ok::<(RecordModel, int), crate::error::DnsError>(
            (m, pos + record_bytes(m).len()),
        ),
{
    match m {
        RecordModel::MX { domain, priority, host, ttl } => {
        let payload = u16_bytes(priority) + name_wire(host);
        let rest = with_len(payload);
        assert(record_bytes(m) == rr_head(domain, 15, 1, ttl) + rest);
        lemma_head(buf, pos, domain, 15, ttl, rest);
        let p = pos + name_wire(domain).len();
        lemma_with_len(buf, p + 8, payload);
        let q = p + 10;
        lemma_split_at(buf, q, u16_bytes(priority), name_wire(host));
        lemma_read_u16(buf, q, priority);
        lemma_name_at_wire(buf, q + 2, host);
        },
        _ => {},
    }
}

/// A record of type TXT held by a buffer reads back as itself.
#[verifier::spinoff_prover]
#[verifier::rlimit(60)]
pub proof fn lemma_rt_txt(buf: Seq<u8>, pos: int, m: RecordModel)
    requires
        m is TXT,
        stable_record(m),
        0 <= pos,
        pos + record_bytes(m).len() <= buf.len(),
        buf.subrange(pos, pos + record_bytes(m).len()) == record_bytes(m),
    ensures
        record_at(buf, pos) == Ok::<(RecordModel, int), crate::error::DnsError>(
            (m, pos + record_bytes(m).len()),
        ),
{
    match m {
        RecordModel::TXT { domain, data, ttl } => {
        let rest = with_len(text_bytes(data));
        assert(record_bytes(m) == rr_head(domain, 16, 1, ttl) + rest);
        lemma_head(buf, pos, domain, 16, ttl, rest);
        let p = pos + name_wire(domain).len();
        lemma_with_len(buf, p + 8, text_bytes(data));
        lemma_text_at(buf, p + 10, data);
        },
        _ => {},
    }
}

/// A record of type AAAA held by a buffer reads back as itself.
#[verifier::spinoff_prover]
#[verifier::rlimit(60)]
pub proof fn lemma_rt_aaaa(buf: Seq<u8>, pos: int, m: RecordModel)
    requires
        m is AAAA,
        stable_record(m),
        0 <= pos,
        pos + record_bytes(m).len() <= buf.len(),
        buf.subrange(pos, pos + record_bytes(m).len()) == record_bytes(m),
    ensures
        record_at(buf, pos) == Ok::<(RecordModel, int), crate::error::DnsError>(
            (m, pos + record_bytes(m).len()),
        ),
{
    match m {
        RecordModel::AAAA { domain, addr, ttl } => {
        lemma_u16s_len(addr);
        let rest = with_len(u16s_bytes(addr));
        assert(record_bytes(m) == rr_head(domain, 28, 1, ttl) + rest);
        lemma_head(buf, pos, domain, 28, ttl, rest);
        let p = pos + name_wire(domain).len();
        lemma_with_len(buf, p + 8, u16s_bytes(addr));
        lemma_read_u16s(buf, p + 10, addr);
        },
        _ => {},
    }
}

/// A record of type SRV held by a buffer reads back as itself.
#[verifier::spinoff_prover]
#[verifier::rlimit(60)]
pub proof fn lemma_rt_srv(buf: Seq<u8>, pos: int, m: RecordModel)
    requires
        m is SRV,
        stable_record(m),
        0 <= pos,
        pos + record_bytes(m).len() <= buf.len(),
        buf.subrange(pos, pos + record_bytes(m).len()) == record_bytes(m),
    ensures
        record_at(buf, pos) == Ok::<(RecordModel, int), crate::error::DnsError>(
            (m, pos + record_bytes(m).len()),
        ),
{
    match m {
        RecordModel::SRV { domain, priority, weight, port, host, ttl } => {
        let a = u16_bytes(priority);
        let b = u16_bytes(weight);
        let c = u16_bytes(port);
        let payload = a + b + c + name_wire(host);
        let rest = with_len(payload);
        assert(record_bytes(m) == rr_head(domain, 33, 1, ttl) + rest);
        lemma_head(buf, pos, domain, 33, ttl, rest);
        let p = pos + name_wire(domain).len();
        lemma_with_len(buf, p + 8, payload);
        let q = p + 10;
        lemma_split_at(buf, q, a + b + c, name_wire(host));
        lemma_split_at(buf, q, a + b, c);
        lemma_split_at(buf, q, a, b);
        lemma_read_u16(buf, q, priority);
        lemma_read_u16(buf, q + 2, weight);
        lemma_read_u16(buf, q + 4, port);
        lemma_name_at_wire(buf, q + 6, host);
        },
        _ => {},
    }
}

/// A record of type SOA held by a buffer reads back as itself.
#[verifier::spinoff_prover]
#[verifier::rlimit(60)]
pub proof fn lemma_rt_soa(buf: Seq<u8>, pos: int, m: RecordModel)
    requires
        m is SOA,
        stable_record(m),
        0 <= pos,
        pos + record_bytes(m).len() <= buf.len(),
        buf.subrange(pos, pos + record_bytes(m).len()) == record_bytes(m),
    ensures
        record_at(buf, pos) == Ok::<(RecordModel, int), crate::error::DnsError>(
            (m, pos + record_bytes(m).len()),
        ),
{
    match m {
        RecordModel::SOA { domain, m_name, r_name, serial, refresh, retry, expire, minimum, ttl } => {
        let nm = name_wire(m_name);
        let nr = name_wire(r_name);
        let w1 = u32_bytes(serial);
        let w2 = u32_bytes(refresh);
        let w3 = u32_bytes(retry);
        let w4 = u32_bytes(expire);
        let w5 = u32_bytes(minimum);
        let payload = nm + nr + w1 + w2 + w3 + w4 + w5;
        let rest = with_len(payload);
        assert(record_bytes(m) == rr_head(domain, 6, 1, ttl) + rest);
        lemma_head(buf, pos, domain, 6, ttl, rest);
        let p = pos + name_wire(domain).len();
        lemma_with_len(buf, p + 8, payload);
        let q = p + 10;
        lemma_split_at(buf, q, nm + nr + w1 + w2 + w3 + w4, w5);
        lemma_split_at(buf, q, nm + nr + w1 + w2 + w3, w4);
        lemma_split_at(buf, q, nm + nr + w1 + w2, w3);
        lemma_split_at(buf, q, nm + nr + w1, w2);
        lemma_split_at(buf, q, nm + nr, w1);
        lemma_split_at(buf, q, nm, nr);
        lemma_name_at_wire(buf, q, m_name);
        lemma_name_at_wire(buf, q + nm.len(), r_name);
        let e2 = q + nm.len() + nr.len();
        lemma_read_u32(buf, e2, serial);
        lemma_read_u32(buf, e2 + 4, refresh);
        lemma_read_u32(buf, e2 + 8, retry);
        lemma_read_u32(buf, e2 + 12, expire);
        lemma_read_u32(buf, e2 + 16, minimum);
        },
        _ => {},
    }
}

/// A record of type OPT held by a buffer reads back as itself.
#[verifier::spinoff_prover]
#[verifier::rlimit(60)]
pub proof fn lemma_rt_opt(buf: Seq<u8>, pos: int, m: RecordModel)
    requires
        m is OPT,
        stable_record(m),
        0 <= pos,
        pos + record_bytes(m).len() <= buf.len(),
        buf.subrange(pos, pos + record_bytes(m).len()) == record_bytes(m),
    ensures
        record_at(buf, pos) == Ok::<(RecordModel, int), crate::error::DnsError>(
            (m, pos + record_bytes(m).len()),
        ),
{
    match m {
        RecordModel::OPT { packet_len, flags, data } => {
        let z = seq![0u8];
        let a = u16_bytes(41);
        let b = u16_bytes(packet_len);
        let c = u32_bytes(flags);
        let rest = with_len(text_bytes(data));
        assert(record_bytes(m) == z + a + b + c + rest);
        lemma_split_at(buf, pos, z + a + b + c, rest);
        lemma_split_at(buf, pos, z + a + b, c);
        lemma_split_at(buf, pos, z + a, b);
        lemma_split_at(buf, pos, z, a);
        assert(buf[pos] == buf.subrange(pos, pos + 1)[0]);
        assert(0u8 & 0xC0u8 == 0u8) by (bit_vector);
        assert(crate::name::join_labels(Seq::<Seq<u8>>::empty()) == Seq::<u8>::empty());
        encode_utf8_valid_utf8(Seq::<char>::empty());
        encode_utf8_decode_utf8(Seq::<char>::empty());
        assert(text_bytes(Seq::<char>::empty()) =~= Seq::<u8>::empty());
        assert(name_at(buf, pos) == Ok::<(Seq<char>, int), crate::error::DnsError>((Seq::<char>::empty(), pos + 1)));
        lemma_read_u16(buf, pos + 1, 41);
        lemma_read_u16(buf, pos + 3, packet_len);
        lemma_read_u32(buf, pos + 5, flags);
        lemma_with_len(buf, pos + 9, text_bytes(data));
        lemma_text_at(buf, pos + 11, data);
        },
        _ => {},
    }
}

/// A stable record held by a buffer reads back as itself, and the cursor
/// ends just past it.
pub proof fn lemma_record_round_trip(buf: Seq<u8>, pos: int, m: RecordModel)
    requires
        stable_record(m),
        0 <= pos,
        pos + record_bytes(m).len() <= buf.len(),
        buf.subrange(pos, pos + record_bytes(m).len()) == record_bytes(m),
    ensures
        record_at(buf, pos) == Ok::<(RecordModel, int), crate::error::DnsError>(
            (m, pos + record_bytes(m).len()),
        ),
{
    match m {
        RecordModel::A { .. } => lemma_rt_a(buf, pos, m),
        RecordModel::NS { .. } => lemma_rt_ns(buf, pos, m),
        RecordModel::CNAME { .. } => lemma_rt_cname(buf, pos, m),
        RecordModel::SOA { .. } => lemma_rt_soa(buf, pos, m),
        RecordModel::MX { .. } => lemma_rt_mx(buf, pos, m),
        RecordModel::TXT { .. } => lemma_rt_txt(buf, pos, m),
        RecordModel::AAAA { .. } => lemma_rt_aaaa(buf, pos, m),
        RecordModel::SRV { .. } => lemma_rt_srv(buf, pos, m),
        RecordModel::OPT { .. } => lemma_rt_opt(buf, pos, m),
        RecordModel::Unknown { .. } => {},
    }
}


/// The first record of a non-empty run comes first in its wire form.
pub proof fn lemma_records_front(rs: Seq<RecordModel>)
    requires
        rs.len() > 0,
    ensures
        records_bytes(rs) == record_bytes(rs[0]) + records_bytes(rs.drop_first()),
    decreases rs.len(),
{
    if rs.len() == 1 {
        assert(rs.drop_last() =~= Seq::<RecordModel>::empty());
        assert(rs.drop_first() =~= Seq::<RecordModel>::empty());
        assert(records_bytes(rs) =~= record_bytes(rs[0]) + records_bytes(rs.drop_first()));
    } else {
        lemma_records_front(rs.drop_last());
        assert(rs.drop_last().drop_first() =~= rs.drop_first().drop_last());
        assert(records_bytes(rs.drop_first()) == records_bytes(rs.drop_first().drop_last())
            + record_bytes(rs.drop_first().last()));
    }
}

/// The first question of a non-empty run comes first in its wire form.
pub proof fn lemma_questions_front(qs: Seq<(Seq<char>, QueryType)>)
    requires
        qs.len() > 0,
    ensures
        questions_bytes(qs) == question_bytes(qs[0].0, qs[0].1) + questions_bytes(qs.drop_first()),
    decreases qs.len(),
{
    if qs.len() == 1 {
        assert(qs.drop_last() =~= Seq::<(Seq<char>, QueryType)>::empty());
        assert(qs.drop_first() =~= Seq::<(Seq<char>, QueryType)>::empty());
        assert(questions_bytes(qs) =~= question_bytes(qs[0].0, qs[0].1) + questions_bytes(
            qs.drop_first(),
        ));
    } else {
        lemma_questions_front(qs.drop_last());
        assert(qs.drop_last().drop_first() =~= qs.drop_first().drop_last());
        assert(questions_bytes(qs.drop_first()) == questions_bytes(qs.drop_first().drop_last())
            + question_bytes(qs.drop_first().last().0, qs.drop_first().last().1));
    }
}

/// A run of stable records held by a buffer reads back as itself.
#[verifier::spinoff_prover]
#[verifier::rlimit(100)]
pub proof fn lemma_records_round_trip(buf: Seq<u8>, pos: int, rs: Seq<RecordModel>)
    requires
        forall|i: int| 0 <= i < rs.len() ==> stable_record(#[trigger] rs[i]),
        0 <= pos,
        pos + records_bytes(rs).len() <= buf.len(),
        buf.subrange(pos, pos + records_bytes(rs).len()) == records_bytes(rs),
    ensures
        records_at(buf, pos, rs.len()) == Ok::<(Seq<RecordModel>, int), crate::error::DnsError>(
            (rs, pos + records_bytes(rs).len()),
        ),
    decreases rs.len(),
{
    if rs.len() == 0 {
        assert(records_bytes(rs) == Seq::<u8>::empty());
        assert(rs =~= Seq::<RecordModel>::empty());
    } else {
        lemma_records_front(rs);
        let first = record_bytes(rs[0]);
        let rest = records_bytes(rs.drop_first());
        lemma_split_at(buf, pos, first, rest);
        lemma_record_round_trip(buf, pos, rs[0]);
        assert forall|i: int| 0 <= i < rs.drop_first().len() implies stable_record(
            #[trigger] rs.drop_first()[i],
        ) by {
            assert(rs.drop_first()[i] == rs[i + 1]);
        }
        lemma_records_round_trip(buf, pos + first.len(), rs.drop_first());
        assert(seq![rs[0]] + rs.drop_first() =~= rs);
        let n = rs.len();
        assert((n - 1) as nat == rs.drop_first().len());
        assert(record_at(buf, pos) == Ok::<(RecordModel, int), crate::error::DnsError>(
            (rs[0], pos + first.len()),
        ));
        assert(records_at(buf, pos + first.len(), (n - 1) as nat) == Ok::<(Seq<RecordModel>, int), crate::error::DnsError>(
            (rs.drop_first(), pos + first.len() + rest.len()),
        ));
        assert(records_at(buf, pos, n) == Ok::<(Seq<RecordModel>, int), crate::error::DnsError>(
            (seq![rs[0]] + rs.drop_first(), pos + first.len() + rest.len()),
        ));
    }
}

/// A question that writing and reading give back unchanged.
pub open spec fn stable_question(q: (Seq<char>, QueryType)) -> bool {
    stable_name(q.0) && query_type_canonical(q.1)
}

/// A run of stable questions held by a buffer reads back as itself.
pub proof fn lemma_questions_round_trip(buf: Seq<u8>, pos: int, qs: Seq<(Seq<char>, QueryType)>)
    requires
        forall|i: int| 0 <= i < qs.len() ==> stable_question(#[trigger] qs[i]),
        0 <= pos,
        pos + questions_bytes(qs).len() <= buf.len(),
        buf.subrange(pos, pos + questions_bytes(qs).len()) == questions_bytes(qs),
    ensures
        questions_at(buf, pos, qs.len()) == Ok::<
            (Seq<(Seq<char>, QueryType)>, int),
            crate::error::DnsError,
        >((qs, pos + questions_bytes(qs).len())),
    decreases qs.len(),
{
    if qs.len() == 0 {
        assert(questions_bytes(qs) == Seq::<u8>::empty());
        assert(qs =~= Seq::<(Seq<char>, QueryType)>::empty());
    } else {
        lemma_questions_front(qs);
        let q = qs[0];
        let first = question_bytes(q.0, q.1);
        let rest = questions_bytes(qs.drop_first());
        lemma_split_at(buf, pos, first, rest);
        let nw = name_wire(q.0);
        let t = u16_bytes(query_type_num(q.1));
        let c = u16_bytes(1);
        assert(first == nw + t + c);
        lemma_split_at(buf, pos, nw + t, c);
        lemma_split_at(buf, pos, nw, t);
        lemma_name_at_wire(buf, pos, q.0);
        lemma_read_u16(buf, pos + nw.len(), query_type_num(q.1));
        assert(question_at(buf, pos) == Ok::<((Seq<char>, QueryType), int), crate::error::DnsError>(
            (q, pos + first.len()),
        ));
        assert forall|i: int| 0 <= i < qs.drop_first().len() implies stable_question(
            #[trigger] qs.drop_first()[i],
        ) by {
            assert(qs.drop_first()[i] == qs[i + 1]);
        }
        lemma_questions_round_trip(buf, pos + first.len(), qs.drop_first());
        assert(seq![q] + qs.drop_first() =~= qs);
        let n = qs.len();
        assert((n - 1) as nat == qs.drop_first().len());
        assert(questions_at(buf, pos + first.len(), (n - 1) as nat) == Ok::<(Seq<(Seq<char>, QueryType)>, int), crate::error::DnsError>(
            (qs.drop_first(), pos + first.len() + rest.len()),
        ));
        assert(questions_at(buf, pos, n) == Ok::<(Seq<(Seq<char>, QueryType)>, int), crate::error::DnsError>(
            (seq![q] + qs.drop_first(), pos + first.len() + rest.len()),
        ));
    }
}


/// What a scan keeps takes, in wire form, the room it used up; from a
/// non-negative room some room is left.
pub proof fn lemma_scan_bytes(s: Seq<RecordModel>, i: int, room: int)
    requires
        0 <= i <= s.len(),
    ensures
        i <= scan_from(s, i, room).0 <= s.len(),
        records_bytes(s.subrange(i, scan_from(s, i, room).0)).len() == room - scan_from(s, i, room).1,
        room >= 0 ==> scan_from(s, i, room).1 >= 0,
    decreases s.len() - i,
{
    let k = scan_from(s, i, room).0;
    if i == s.len() {
        assert(s.subrange(i, k) =~= Seq::<RecordModel>::empty());
    } else if s[i] is Unknown {
        lemma_scan_bytes(s, i + 1, room);
        lemma_records_front(s.subrange(i, k));
        assert(s.subrange(i, k).drop_first() =~= s.subrange(i + 1, k));
    } else if record_bytes(s[i]).len() <= room {
        let l = record_bytes(s[i]).len() as int;
        lemma_scan_bytes(s, i + 1, room - l);
        lemma_records_front(s.subrange(i, k));
        assert(s.subrange(i, k).drop_first() =~= s.subrange(i + 1, k));
    } else {
        assert(s.subrange(i, k) =~= Seq::<RecordModel>::empty());
    }
}

/// Every record of a run of stable records is written and counted, and
/// takes at least one byte.
pub proof fn lemma_stable_records_count(rs: Seq<RecordModel>)
    requires
        forall|i: int| 0 <= i < rs.len() ==> stable_record(#[trigger] rs[i]),
    ensures
        known_count(rs) == rs.len(),
        records_bytes(rs).len() >= rs.len(),
    decreases rs.len(),
{
    if rs.len() > 0 {
        assert forall|i: int| 0 <= i < rs.drop_last().len() implies stable_record(
            #[trigger] rs.drop_last()[i],
        ) by {
            assert(rs.drop_last()[i] == rs[i]);
        }
        lemma_stable_records_count(rs.drop_last());
        let m = rs.last();
        assert(stable_record(m));
        crate::record::lemma_record_len(m);
    }
}

/// Every question takes at least one byte.
pub proof fn lemma_questions_len(qs: Seq<(Seq<char>, QueryType)>)
    ensures
        questions_bytes(qs).len() >= qs.len(),
    decreases qs.len(),
{
    if qs.len() > 0 {
        lemma_questions_len(qs.drop_last());
        lemma_qname_len(text_bytes(qs.last().0));
    }
}

/// A message that writing and reading give back as sent: a 4-bit opcode,
/// stable questions, and stable records.
pub open spec fn stable_packet(p: PacketModel) -> bool {
    &&& p.header.op_code < 16
    &&& forall|i: int| 0 <= i < p.questions.len() ==> stable_question(#[trigger] p.questions[i])
    &&& forall|i: int| 0 <= i < p.answers.len() ==> stable_record(#[trigger] p.answers[i])
    &&& forall|i: int| 0 <= i < p.authorities.len() ==> stable_record(#[trigger] p.authorities[i])
    &&& forall|i: int| 0 <= i < p.resources.len() ==> stable_record(#[trigger] p.resources[i])
}

/// The message as written into a buffer with ceiling `max`: the header
/// sent, every question, and the records that fit.
pub open spec fn as_sent(p: PacketModel, max: int) -> PacketModel {
    let (ka, kb, kc, t) = write_plan(p, max);
    PacketModel {
        header: sent_header(p, max),
        questions: p.questions,
        answers: p.answers.take(ka),
        authorities: p.authorities.take(kb),
        resources: p.resources.take(kc),
    }
}

/// The records of a stable run up to `k` are stable.
proof fn lemma_take_stable(rs: Seq<RecordModel>, k: int)
    requires
        0 <= k <= rs.len(),
        forall|i: int| 0 <= i < rs.len() ==> stable_record(#[trigger] rs[i]),
    ensures
        forall|i: int| 0 <= i < rs.take(k).len() ==> stable_record(#[trigger] rs.take(k)[i]),
{
    assert forall|i: int| 0 <= i < rs.take(k).len() implies stable_record(#[trigger] rs.take(k)[i]) by {
        assert(rs.take(k)[i] == rs[i]);
    }
}

/// The plan of a message whose header and questions fit: the kept records
/// fit too.
#[verifier::spinoff_prover]
#[verifier::rlimit(100)]
pub proof fn lemma_plan_sizes(p: PacketModel, max: int)
    requires
        0 <= max <= PACKET_SIZE,
        12 + questions_bytes(p.questions).len() <= max,
    ensures
        ({
            let (ka, kb, kc, t) = write_plan(p, max);
            &&& 0 <= ka <= p.answers.len()
            &&& 0 <= kb <= p.authorities.len()
            &&& 0 <= kc <= p.resources.len()
            &&& 12 + questions_bytes(p.questions).len() + records_bytes(p.answers.take(ka)).len()
                + records_bytes(p.authorities.take(kb)).len() + records_bytes(p.resources.take(kc)).len()
                <= max
        }),
{
    let qb = questions_bytes(p.questions);
    let r0 = max - 12 - qb.len();
    lemma_scan_bytes(p.answers, 0, r0);
    let (ka, r1, sa) = scan_from(p.answers, 0, r0);
    lemma_scan_bytes(p.authorities, 0, r1);
    let (kb0, r2, sb) = scan_from(p.authorities, 0, r1);
    lemma_scan_bytes(p.resources, 0, r2);
    let (kc0, r3, sc) = scan_from(p.resources, 0, r2);
    assert(p.answers.subrange(0, ka) =~= p.answers.take(ka));
    assert(p.authorities.subrange(0, kb0) =~= p.authorities.take(kb0));
    assert(p.resources.subrange(0, kc0) =~= p.resources.take(kc0));
    assert(p.authorities.take(0) =~= Seq::<RecordModel>::empty());
    assert(p.resources.take(0) =~= Seq::<RecordModel>::empty());
}

/// The plan of a message whose header and questions fit: the sent header
/// counts what is written.
#[verifier::spinoff_prover]
#[verifier::rlimit(100)]
pub proof fn lemma_plan_fits(p: PacketModel, max: int)
    requires
        stable_packet(p),
        0 <= max <= PACKET_SIZE,
        12 + questions_bytes(p.questions).len() <= max,
    ensures
        ({
            let (ka, kb, kc, t) = write_plan(p, max);
            let h = sent_header(p, max);
            &&& 0 <= ka <= p.answers.len()
            &&& 0 <= kb <= p.authorities.len()
            &&& 0 <= kc <= p.resources.len()
            &&& sent_bytes(p, max) == header_bytes(h) + questions_bytes(p.questions) + records_bytes(
                p.answers.take(ka),
            ) + records_bytes(p.authorities.take(kb)) + records_bytes(p.resources.take(kc))
            &&& sent_bytes(p, max).len() <= max
            &&& h.questions == p.questions.len()
            &&& h.answers == ka
            &&& h.authoritative_entries == kb
            &&& h.resource_entries == kc
            &&& h.op_code == p.header.op_code
        }),
{
    lemma_plan_sizes(p, max);
    let (pa, pb, pc, t) = write_plan(p, max);
    let h = sent_header(p, max);
    lemma_header_round_trip(h);
    lemma_questions_len(p.questions);
    lemma_take_stable(p.answers, pa);
    lemma_take_stable(p.authorities, pb);
    lemma_take_stable(p.resources, pc);
    lemma_stable_records_count(p.answers.take(pa));
    lemma_stable_records_count(p.authorities.take(pb));
    lemma_stable_records_count(p.resources.take(pc));
}

/// Reading back a message written into a freshly zeroed buffer gives the
/// message as sent: the same header but for its counts, which match what
/// was written, and its truncation flag, raised when records were left out;
/// every question; and the records that fit. A message that fits whole reads
/// back as itself, with its counts set.
#[verifier::spinoff_prover]
#[verifier::rlimit(100)]
pub proof fn lemma_packet_round_trip(p: PacketModel, max: int)
    requires
        stable_packet(p),
        0 <= max <= PACKET_SIZE,
        12 + questions_bytes(p.questions).len() <= max,
    ensures
        packet_at(put(Seq::new(PACKET_SIZE as nat, |i: int| 0u8), 0, max, sent_bytes(p, max)), 0)
            == Ok::<PacketModel, crate::error::DnsError>(as_sent(p, max)),
{
    lemma_plan_fits(p, max);
    let (pa, pb, pc, t) = write_plan(p, max);
    let h = sent_header(p, max);
    let hb = header_bytes(h);
    let qb = questions_bytes(p.questions);
    let a = records_bytes(p.answers.take(pa));
    let b = records_bytes(p.authorities.take(pb));
    let c = records_bytes(p.resources.take(pc));
    lemma_header_round_trip(h);
    let bytes = sent_bytes(p, max);
    let zeros = Seq::new(PACKET_SIZE as nat, |i: int| 0u8);
    let buf = put(zeros, 0, max, bytes);
    assert(buf.subrange(0, bytes.len() as int) =~= bytes);
    lemma_split_at(buf, 0, hb + qb + a + b, c);
    lemma_split_at(buf, 0, hb + qb + a, b);
    lemma_split_at(buf, 0, hb + qb, a);
    lemma_split_at(buf, 0, hb, qb);
    lemma_take_stable(p.answers, pa);
    lemma_take_stable(p.authorities, pb);
    lemma_take_stable(p.resources, pc);
    assert(header_from(buf.subrange(0, 12)) == h);
    lemma_questions_round_trip(buf, 12, p.questions);
    lemma_records_round_trip(buf, (12 + qb.len()) as int, p.answers.take(pa));
    lemma_records_round_trip(buf, (12 + qb.len() + a.len()) as int, p.authorities.take(pb));
    lemma_records_round_trip(buf, (12 + qb.len() + a.len() + b.len()) as int, p.resources.take(pc));
}

} // verus!
