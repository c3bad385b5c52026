use vstd::prelude::*;
use vstd::arithmetic::div_mod::lemma_add_mod_noop;
use vstd::string::StringSliceAdditionalSpecFns;

use crate::buffer::{
    be16, be32, lemma_wrote_chain, lemma_wrote_nothing, u16_bytes, u32_bytes, BytePacketBuffer,
    PACKET_SIZE,
};
use crate::error::DnsError;
use crate::header::{query_type_of, QueryType};
use crate::name::{join_labels, lemma_qname_len, name_fits, qname_bytes, walk_name};
use crate::question::CLASS_IN;
use crate::text::{lossy_string, text_bytes, lossy_text};

verus! {

/// A time to live, in seconds.
#[derive(Copy, Clone, Debug, Eq, Ord, PartialEq, PartialOrd, Hash, Structural)]
pub struct TransientTtl(pub u32);

/// A resource record, by type.
#[derive(Debug, Clone, Eq, PartialEq, Hash, Ord, PartialOrd)]
#[allow(inconsistent_fields)]
pub enum DnsRecord {
    UNKNOWN { domain: String, qtype: u16, data_len: u16, ttl: TransientTtl },
    A { domain: String, addr: [u8; 4], ttl: TransientTtl },
    NS { domain: String, host: String, ttl: TransientTtl },
    CNAME { domain: String, host: String, ttl: TransientTtl },
    SOA {
        domain: String,
        m_name: String,
        r_name: String,
        serial: u32,
        refresh: u32,
        retry: u32,
        expire: u32,
        minimum: u32,
        ttl: TransientTtl,
    },
    MX { domain: String, priority: u16, host: String, ttl: TransientTtl },
    TXT { domain: String, data: String, ttl: TransientTtl },
    AAAA { domain: String, addr: [u16; 8], ttl: TransientTtl },
    SRV {
        domain: String,
        priority: u16,
        weight: u16,
        port: u16,
        host: String,
        ttl: TransientTtl,
    },
    OPT { packet_len: u16, flags: u32, data: String },
}

/// What a record holds, with its texts as character sequences.
#[allow(inconsistent_fields)]
pub enum RecordModel {
    Unknown { domain: Seq<char>, qtype: u16, data_len: u16, ttl: u32 },
    A { domain: Seq<char>, addr: Seq<u8>, ttl: u32 },
    NS { domain: Seq<char>, host: Seq<char>, ttl: u32 },
    CNAME { domain: Seq<char>, host: Seq<char>, ttl: u32 },
    SOA {
        domain: Seq<char>,
        m_name: Seq<char>,
        r_name: Seq<char>,
        serial: u32,
        refresh: u32,
        retry: u32,
        expire: u32,
        minimum: u32,
        ttl: u32,
    },
    MX { domain: Seq<char>, priority: u16, host: Seq<char>, ttl: u32 },
    TXT { domain: Seq<char>, data: Seq<char>, ttl: u32 },
    AAAA { domain: Seq<char>, addr: Seq<u16>, ttl: u32 },
    SRV {
        domain: Seq<char>,
        priority: u16,
        weight: u16,
        port: u16,
        host: Seq<char>,
        ttl: u32,
    },
    OPT { packet_len: u16, flags: u32, data: Seq<char> },
}

impl View for DnsRecord {
    type V = RecordModel;

    open spec fn view(&self) -> RecordModel {
        match self {
            DnsRecord::UNKNOWN { domain, qtype, data_len, ttl } => RecordModel::Unknown {
                domain: domain@,
                qtype: *qtype,
                data_len: *data_len,
                ttl: ttl.0,
            },
            DnsRecord::A { domain, addr, ttl } => RecordModel::A {
                domain: domain@,
                addr: addr@,
                ttl: ttl.0,
            },
            DnsRecord::NS { domain, host, ttl } => RecordModel::NS {
                domain: domain@,
                host: host@,
                ttl: ttl.0,
            },
            DnsRecord::CNAME { domain, host, ttl } => RecordModel::CNAME {
                domain: domain@,
                host: host@,
                ttl: ttl.0,
            },
            DnsRecord::SOA {
                domain,
                m_name,
                r_name,
                serial,
                refresh,
                retry,
                expire,
                minimum,
                ttl,
            } => RecordModel::SOA {
                domain: domain@,
                m_name: m_name@,
                r_name: r_name@,
                serial: *serial,
                refresh: *refresh,
                retry: *retry,
                expire: *expire,
                minimum: *minimum,
                ttl: ttl.0,
            },
            DnsRecord::MX { domain, priority, host, ttl } => RecordModel::MX {
                domain: domain@,
                priority: *priority,
                host: host@,
                ttl: ttl.0,
            },
            DnsRecord::TXT { domain, data, ttl } => RecordModel::TXT {
                domain: domain@,
                data: data@,
                ttl: ttl.0,
            },
            DnsRecord::AAAA { domain, addr, ttl } => RecordModel::AAAA {
                domain: domain@,
                addr: addr@,
                ttl: ttl.0,
            },
            DnsRecord::SRV { domain, priority, weight, port, host, ttl } => RecordModel::SRV {
                domain: domain@,
                priority: *priority,
                weight: *weight,
                port: *port,
                host: host@,
                ttl: ttl.0,
            },
            DnsRecord::OPT { packet_len, flags, data } => RecordModel::OPT {
                packet_len: *packet_len,
                flags: *flags,
                data: data@,
            },
        }
    }
}

/// The wire form of a name given as text.
pub open spec fn name_wire(s: Seq<char>) -> Seq<u8> {
    qname_bytes(text_bytes(s))
}

/// The name, type, class and TTL that open a record.
pub open spec fn rr_head(domain: Seq<char>, t: u16, class: u16, ttl: u32) -> Seq<u8> {
    name_wire(domain) + u16_bytes(t) + u16_bytes(class) + u32_bytes(ttl)
}

/// A payload preceded by its 16-bit length.
pub open spec fn with_len(payload: Seq<u8>) -> Seq<u8> {
    u16_bytes((payload.len() % 65536) as u16) + payload
}

/// The big-endian bytes of a run of 16-bit values.
pub open spec fn u16s_bytes(s: Seq<u16>) -> Seq<u8>
    decreases s.len(),
{
    if s.len() == 0 {
        Seq::<u8>::empty()
    } else {
        u16s_bytes(s.drop_last()) + u16_bytes(s.last())
    }
}

/// The wire form of a record. Records of an unknown type carry no payload to
/// write and take no bytes.
pub open spec fn record_bytes(m: RecordModel) -> Seq<u8> {
    match m {
        RecordModel::Unknown { .. } => Seq::<u8>::empty(),
        RecordModel::A { domain, addr, ttl } => rr_head(domain, 1, CLASS_IN, ttl) + with_len(addr),
        RecordModel::NS { domain, host, ttl } => rr_head(domain, 2, CLASS_IN, ttl) + with_len(
            name_wire(host),
        ),
        RecordModel::CNAME { domain, host, ttl } => rr_head(domain, 5, CLASS_IN, ttl) + with_len(
            name_wire(host),
        ),
        RecordModel::SOA {
            domain,
            m_name,
            r_name,
            serial,
            refresh,
            retry,
            expire,
            minimum,
            ttl,
        } => rr_head(domain, 6, CLASS_IN, ttl) + with_len(
            name_wire(m_name) + name_wire(r_name) + u32_bytes(serial) + u32_bytes(refresh)
                + u32_bytes(retry) + u32_bytes(expire) + u32_bytes(minimum),
        ),
        RecordModel::MX { domain, priority, host, ttl } => rr_head(domain, 15, CLASS_IN, ttl)
            + with_len(u16_bytes(priority) + name_wire(host)),
        RecordModel::TXT { domain, data, ttl } => rr_head(domain, 16, CLASS_IN, ttl) + with_len(
            text_bytes(data),
        ),
        RecordModel::AAAA { domain, addr, ttl } => rr_head(domain, 28, CLASS_IN, ttl) + with_len(
            u16s_bytes(addr),
        ),
        RecordModel::SRV { domain, priority, weight, port, host, ttl } => rr_head(
            domain,
            33,
            CLASS_IN,
            ttl,
        ) + with_len(u16_bytes(priority) + u16_bytes(weight) + u16_bytes(port) + name_wire(host)),
        RecordModel::OPT { packet_len, flags, data } => seq![0u8] + u16_bytes(41) + u16_bytes(
            packet_len,
        ) + u32_bytes(flags) + with_len(text_bytes(data)),
    }
}

/// Every name that writing the record encodes has labels of at most 63
/// bytes.
pub open spec fn record_names_fit(m: RecordModel) -> bool {
    match m {
        RecordModel::Unknown { .. } => true,
        RecordModel::A { domain, .. } => name_fits(text_bytes(domain)),
        RecordModel::NS { domain, host, .. } => name_fits(text_bytes(domain)) && name_fits(
            text_bytes(host),
        ),
        RecordModel::CNAME { domain, host, .. } => name_fits(text_bytes(domain)) && name_fits(
            text_bytes(host),
        ),
        RecordModel::SOA { domain, m_name, r_name, .. } => name_fits(text_bytes(domain))
            && name_fits(text_bytes(m_name)) && name_fits(text_bytes(r_name)),
        RecordModel::MX { domain, host, .. } => name_fits(text_bytes(domain)) && name_fits(
            text_bytes(host),
        ),
        RecordModel::TXT { domain, .. } => name_fits(text_bytes(domain)),
        RecordModel::AAAA { domain, .. } => name_fits(text_bytes(domain)),
        RecordModel::SRV { domain, host, .. } => name_fits(text_bytes(domain)) && name_fits(
            text_bytes(host),
        ),
        RecordModel::OPT { .. } => true,
    }
}

/// The name decoded at `pos`, as text, and where the cursor ends.
pub open spec fn name_at(buf: Seq<u8>, pos: int) -> Result<(Seq<char>, int), DnsError> {
    match walk_name(buf, pos, 0) {
        Ok((ls, end)) => Ok((lossy_text(join_labels(ls)), end)),
        Err(e) => Err(e),
    }
}

/// The 16-bit values of `2 * n` bytes from `pos`.
pub open spec fn u16s_at(buf: Seq<u8>, pos: int, n: nat) -> Seq<u16> {
    Seq::new(n, |i: int| be16(buf[pos + 2 * i], buf[pos + 2 * i + 1]))
}

/// The record's type-specific part, which starts at `q`, given the fields of
/// its fixed part.
pub open spec fn payload_at(
    buf: Seq<u8>,
    domain: Seq<char>,
    t: u16,
    class: u16,
    ttl: u32,
    dl: u16,
    q: int,
) -> Result<(RecordModel, int), DnsError> {
    let len = buf.len() as int;
    match query_type_of(t) {
        QueryType::UNKNOWN(_) => if q + dl > len {
            Err(DnsError::EndOfBuffer)
        } else {
            Ok((RecordModel::Unknown { domain, qtype: t, data_len: dl, ttl }, q + dl))
        },
        QueryType::A => if q + 4 > len {
            Err(DnsError::EndOfBuffer)
        } else {
            Ok((RecordModel::A { domain, addr: buf.subrange(q, q + 4), ttl }, q + 4))
        },
        QueryType::NS => match name_at(buf, q) {
            Ok((host, end)) => Ok((RecordModel::NS { domain, host, ttl }, end)),
            Err(e) => Err(e),
        },
        QueryType::CNAME => match name_at(buf, q) {
            Ok((host, end)) => Ok((RecordModel::CNAME { domain, host, ttl }, end)),
            Err(e) => Err(e),
        },
        QueryType::MX => if q + 2 > len {
            Err(DnsError::EndOfBuffer)
        } else {
            match name_at(buf, q + 2) {
                Ok((host, end)) => Ok(
                    (
                        RecordModel::MX { domain, priority: be16(buf[q], buf[q + 1]), host, ttl },
                        end,
                    ),
                ),
                Err(e) => Err(e),
            }
        },
        QueryType::AAAA => if q + 16 > len {
            Err(DnsError::EndOfBuffer)
        } else {
            Ok((RecordModel::AAAA { domain, addr: u16s_at(buf, q, 8), ttl }, q + 16))
        },
        QueryType::SOA => match name_at(buf, q) {
            Err(e) => Err(e),
            Ok((m_name, e1)) => match name_at(buf, e1) {
                Err(e) => Err(e),
                Ok((r_name, e2)) => if e2 + 20 > len {
                    Err(DnsError::EndOfBuffer)
                } else {
                    Ok(
                        (
                            RecordModel::SOA {
                                domain,
                                m_name,
                                r_name,
                                serial: be32(buf[e2], buf[e2 + 1], buf[e2 + 2], buf[e2 + 3]),
                                refresh: be32(buf[e2 + 4], buf[e2 + 5], buf[e2 + 6], buf[e2 + 7]),
                                retry: be32(buf[e2 + 8], buf[e2 + 9], buf[e2 + 10], buf[e2 + 11]),
                                expire: be32(buf[e2 + 12], buf[e2 + 13], buf[e2 + 14], buf[e2 + 15]),
                                minimum: be32(buf[e2 + 16], buf[e2 + 17], buf[e2 + 18], buf[e2 + 19]),
                                ttl,
                            },
                            e2 + 20,
                        ),
                    )
                },
            },
        },
        QueryType::TXT => if q + dl > len {
            Err(DnsError::EndOfBuffer)
        } else {
            Ok(
                (
                    RecordModel::TXT { domain, data: lossy_text(buf.subrange(q, q + dl)), ttl },
                    q + dl,
                ),
            )
        },
        QueryType::SRV => if q + 6 > len {
            Err(DnsError::EndOfBuffer)
        } else {
            match name_at(buf, q + 6) {
                Ok((host, end)) => Ok(
                    (
                        RecordModel::SRV {
                            domain,
                            priority: be16(buf[q], buf[q + 1]),
                            weight: be16(buf[q + 2], buf[q + 3]),
                            port: be16(buf[q + 4], buf[q + 5]),
                            host,
                            ttl,
                        },
                        end,
                    ),
                ),
                Err(e) => Err(e),
            }
        },
        QueryType::OPT => if q + dl > len {
            Err(DnsError::EndOfBuffer)
        } else {
            Ok(
                (
                    RecordModel::OPT {
                        packet_len: class,
                        flags: ttl,
                        data: lossy_text(buf.subrange(q, q + dl)),
                    },
                    q + dl,
                ),
            )
        },
    }
}

/// The record that the bytes at `pos` encode, and where the cursor ends.
pub open spec fn record_at(buf: Seq<u8>, pos: int) -> Result<(RecordModel, int), DnsError> {
    match name_at(buf, pos) {
        Err(e) => Err(e),
        Ok((domain, p)) => if p + 10 > buf.len() {
            Err(DnsError::EndOfBuffer)
        } else {
            payload_at(
                buf,
                domain,
                be16(buf[p], buf[p + 1]),
                be16(buf[p + 2], buf[p + 3]),
                be32(buf[p + 4], buf[p + 5], buf[p + 6], buf[p + 7]),
                be16(buf[p + 8], buf[p + 9]),
                p + 10,
            )
        },
    }
}

/// Length of a record's wire form, from the lengths of its texts.
pub open spec fn record_len(m: RecordModel) -> nat {
    match m {
        RecordModel::Unknown { .. } => 0,
        RecordModel::A { domain, .. } => text_bytes(domain).len() + 16,
        RecordModel::NS { domain, host, .. } => text_bytes(domain).len() + text_bytes(host).len() + 14,
        RecordModel::CNAME { domain, host, .. } => text_bytes(domain).len() + text_bytes(host).len()
            + 14,
        RecordModel::SOA { domain, m_name, r_name, .. } => text_bytes(domain).len() + text_bytes(
            m_name,
        ).len() + text_bytes(r_name).len() + 36,
        RecordModel::MX { domain, host, .. } => text_bytes(domain).len() + text_bytes(host).len() + 16,
        RecordModel::TXT { domain, data, .. } => text_bytes(domain).len() + text_bytes(data).len() + 12,
        RecordModel::AAAA { domain, .. } => text_bytes(domain).len() + 28,
        RecordModel::SRV { domain, host, .. } => text_bytes(domain).len() + text_bytes(host).len() + 20,
        RecordModel::OPT { data, .. } => text_bytes(data).len() + 11,
    }
}

/// A record's time to live; zero for OPT, which has none.
pub open spec fn record_ttl(m: RecordModel) -> u32 {
    match m {
        RecordModel::Unknown { ttl, .. } => ttl,
        RecordModel::A { ttl, .. } => ttl,
        RecordModel::NS { ttl, .. } => ttl,
        RecordModel::CNAME { ttl, .. } => ttl,
        RecordModel::SOA { ttl, .. } => ttl,
        RecordModel::MX { ttl, .. } => ttl,
        RecordModel::TXT { ttl, .. } => ttl,
        RecordModel::AAAA { ttl, .. } => ttl,
        RecordModel::SRV { ttl, .. } => ttl,
        RecordModel::OPT { .. } => 0,
    }
}

/// A run of 16-bit values takes two bytes each.
pub proof fn lemma_u16s_len(s: Seq<u16>)
    ensures
        u16s_bytes(s).len() == 2 * s.len(),
    decreases s.len(),
{
    if s.len() > 0 {
        lemma_u16s_len(s.drop_last());
    }
}

/// The wire form of a record has the length `record_len` gives, for an
/// address of the right size.
#[verifier::spinoff_prover]
#[verifier::rlimit(100)]
pub proof fn lemma_record_len(m: RecordModel)
    requires
        m is A ==> m->A_addr.len() == 4,
        m is AAAA ==> m->AAAA_addr.len() == 8,
    ensures
        record_bytes(m).len() == record_len(m),
{
    assert(forall|v: u16| #[trigger] u16_bytes(v).len() == 2);
    assert(forall|v: u32| #[trigger] u32_bytes(v).len() == 4);
    match m {
        RecordModel::A { domain, .. } => lemma_qname_len(text_bytes(domain)),
        RecordModel::NS { domain, host, .. } => {
            lemma_qname_len(text_bytes(domain));
            lemma_qname_len(text_bytes(host));
        },
        RecordModel::CNAME { domain, host, .. } => {
            lemma_qname_len(text_bytes(domain));
            lemma_qname_len(text_bytes(host));
        },
        RecordModel::SOA { domain, m_name, r_name, .. } => {
            lemma_qname_len(text_bytes(domain));
            lemma_qname_len(text_bytes(m_name));
            lemma_qname_len(text_bytes(r_name));
        },
        RecordModel::MX { domain, host, .. } => {
            lemma_qname_len(text_bytes(domain));
            lemma_qname_len(text_bytes(host));
        },
        RecordModel::TXT { domain, .. } => lemma_qname_len(text_bytes(domain)),
        RecordModel::AAAA { domain, addr, .. } => {
            lemma_qname_len(text_bytes(domain));
            lemma_u16s_len(addr);
        },
        RecordModel::SRV { domain, host, .. } => {
            lemma_qname_len(text_bytes(domain));
            lemma_qname_len(text_bytes(host));
        },
        _ => {},
    }
}

/// Reads a name at the cursor into a fresh string.
fn read_name(buffer: &mut BytePacketBuffer) -> (r: Result<String, DnsError>)
    requires
        old(buffer).wf(),
    ensures
        final(buffer).wf(),
        final(buffer).buf == old(buffer).buf,
        final(buffer).max_size == old(buffer).max_size,
        match name_at(old(buffer).buf@, old(buffer).pos as int) {
            Ok((text, end)) => r is Ok && r->Ok_0@ == text && final(buffer).pos == end,
            Err(e) => r == Err::<String, DnsError>(e),
        },
{
    let mut name = String::new();
    let r = buffer.read_qname(&mut name);
    proof {
        match walk_name(old(buffer).buf@, old(buffer).pos as int, 0) {
            Ok((ls, end)) => {
                assert(Seq::<char>::empty() + lossy_text(join_labels(ls)) =~= lossy_text(
                    join_labels(ls),
                ));
            },
            Err(e) => {},
        }
    }
    match r {
        Ok(()) => Ok(name),
        Err(e) => Err(e),
    }
}

/// `(a + b) mod 65536`.
fn add16(a: usize, b: usize) -> (r: usize)
    ensures
        r < 65536,
        r == (a + b) % 65536,
{
    proof {
        lemma_add_mod_noop(a as int, b as int, 65536);
    }
    ((a % 65536) + (b % 65536)) % 65536
}

/// Bytes of a text.
fn text_len(s: &String) -> (r: usize)
    ensures
        r == text_bytes(s@).len(),
{
    s.as_str().as_bytes().len()
}

/// Length of the wire form of a name, mod 65536.
fn name_len16(s: &String) -> (r: usize)
    ensures
        r == name_wire(s@).len() % 65536,
{
    proof {
        lemma_qname_len(text_bytes(s@));
    }
    add16(text_len(s), 2)
}

/// Writes the name, type, class IN and TTL that open a record.
fn write_head(buffer: &mut BytePacketBuffer, domain: &String, t: u16, ttl: u32) -> (r: Result<
    (),
    DnsError,
>)
    requires
        old(buffer).wf(),
    ensures
        final(buffer).wf(),
        final(buffer).max_size == old(buffer).max_size,
        r is Ok <==> name_fits(text_bytes(domain@)),
        r is Ok ==> final(buffer).wrote(old(buffer), rr_head(domain@, t, CLASS_IN, ttl)),
{
    let ghost b0 = *buffer;
    buffer.write_qname(domain.as_str())?;
    let ghost b1 = *buffer;
    buffer.write_u16(t);
    let ghost b2 = *buffer;
    buffer.write_u16(CLASS_IN);
    let ghost b3 = *buffer;
    buffer.write_u32(ttl);
    proof {
        let d0 = name_wire(domain@);
        lemma_wrote_chain(&b0, &b1, &b2, d0, u16_bytes(t));
        lemma_wrote_chain(&b0, &b2, &b3, d0 + u16_bytes(t), u16_bytes(CLASS_IN));
        lemma_wrote_chain(&b0, &b3, buffer, d0 + u16_bytes(t) + u16_bytes(CLASS_IN), u32_bytes(ttl));
    }
    Ok(())
}

/// Writes a 16-bit length given mod 65536.
fn write_len(buffer: &mut BytePacketBuffer, n: usize)
    requires
        old(buffer).wf(),
        n < 65536,
    ensures
        final(buffer).wf(),
        final(buffer).wrote(old(buffer), u16_bytes(n as u16)),
{
    buffer.write_u16(n as u16);
}

/// Writes a run of 16-bit values, big-endian.
fn write_u16s(buffer: &mut BytePacketBuffer, s: &[u16])
    requires
        old(buffer).wf(),
    ensures
        final(buffer).wf(),
        final(buffer).wrote(old(buffer), u16s_bytes(s@)),
{
    let ghost b0 = *buffer;
    let mut i: usize = 0;
    proof {
        lemma_wrote_nothing(buffer);
        assert(s@.take(0) =~= Seq::<u16>::empty());
    }
    while i < s.len()
        invariant
            i <= s@.len(),
            buffer.wf(),
            b0.wf(),
            b0 == *old(buffer),
            buffer.wrote(&b0, u16s_bytes(s@.take(i as int))),
        decreases s@.len() - i,
    {
        let ghost mid = *buffer;
        buffer.write_u16(s[i]);
        proof {
            lemma_wrote_chain(&b0, &mid, buffer, u16s_bytes(s@.take(i as int)), u16_bytes(s@[i as int]));
            assert(s@.take(i + 1).drop_last() =~= s@.take(i as int));
        }
        i = i + 1;
    }
    proof {
        assert(s@.take(i as int) =~= s@);
    }
}

/// Writes a byte payload preceded by its length.
fn write_with_len(buffer: &mut BytePacketBuffer, data: &[u8])
    requires
        old(buffer).wf(),
    ensures
        final(buffer).wf(),
        final(buffer).wrote(old(buffer), with_len(data@)),
{
    let ghost b0 = *buffer;
    write_len(buffer, data.len() % 65536);
    let ghost b1 = *buffer;
    buffer.write_bytes(data);
    proof {
        lemma_wrote_chain(&b0, &b1, buffer, u16_bytes((data@.len() % 65536) as u16), data@);
    }
}

/// Writes a name preceded by the length of its wire form.
fn write_name_with_len(buffer: &mut BytePacketBuffer, host: &String) -> (r: Result<(), DnsError>)
    requires
        old(buffer).wf(),
    ensures
        final(buffer).wf(),
        final(buffer).max_size == old(buffer).max_size,
        r is Ok <==> name_fits(text_bytes(host@)),
        r is Ok ==> final(buffer).wrote(old(buffer), with_len(name_wire(host@))),
{
    let ghost b0 = *buffer;
    write_len(buffer, name_len16(host));
    let ghost b1 = *buffer;
    buffer.write_qname(host.as_str())?;
    proof {
        lemma_wrote_chain(&b0, &b1, buffer, u16_bytes((name_wire(host@).len() % 65536) as u16), name_wire(host@));
    }
    Ok(())
}

/// Writes a record of type SOA.
#[verifier::spinoff_prover]
#[verifier::rlimit(60)]
fn write_soa(
    buffer: &mut BytePacketBuffer,
    domain: &String,
    m_name: &String,
    r_name: &String,
    serial: u32,
    refresh: u32,
    retry: u32,
    expire: u32,
    minimum: u32,
    ttl: u32,
) -> (r: Result<(), DnsError>)
    requires
        old(buffer).wf(),
    ensures
        final(buffer).wf(),
        final(buffer).max_size == old(buffer).max_size,
        r is Ok <==> record_names_fit(
            RecordModel::SOA {
                domain: domain@,
                m_name: m_name@,
                r_name: r_name@,
                serial,
                refresh,
                retry,
                expire,
                minimum,
                ttl,
            },
        ),
        r is Ok ==> final(buffer).wrote(
            old(buffer),
            record_bytes(
                RecordModel::SOA {
                    domain: domain@,
                    m_name: m_name@,
                    r_name: r_name@,
                    serial,
                    refresh,
                    retry,
                    expire,
                    minimum,
                    ttl,
                },
            ),
        ),
{
    let ghost b0 = *buffer;
    let lm = name_len16(m_name);
    let lr = name_len16(r_name);
    let n = add16(add16(lm, lr), 20);
    proof {
        let a = name_wire(m_name@).len() as int;
        let b = name_wire(r_name@).len() as int;
        lemma_add_mod_noop(a, b, 65536);
        lemma_add_mod_noop(a + b, 20, 65536);
    }
    write_head(buffer, domain, 6, ttl)?;
    let ghost b1 = *buffer;
    write_len(buffer, n);
    let ghost b2 = *buffer;
    buffer.write_qname(m_name.as_str())?;
    let ghost b3 = *buffer;
    buffer.write_qname(r_name.as_str())?;
    let ghost b4 = *buffer;
    buffer.write_u32(serial);
    let ghost b5 = *buffer;
    buffer.write_u32(refresh);
    let ghost b6 = *buffer;
    buffer.write_u32(retry);
    let ghost b7 = *buffer;
    buffer.write_u32(expire);
    let ghost b8 = *buffer;
    buffer.write_u32(minimum);
    proof {
        let h = rr_head(domain@, 6, CLASS_IN, ttl);
        let payload = name_wire(m_name@) + name_wire(r_name@) + u32_bytes(serial) + u32_bytes(
            refresh,
        ) + u32_bytes(retry) + u32_bytes(expire) + u32_bytes(minimum);
        let l = u16_bytes((payload.len() % 65536) as u16);
        lemma_wrote_chain(&b0, &b1, &b2, h, l);
        lemma_wrote_chain(&b0, &b2, &b3, h + l, name_wire(m_name@));
        lemma_wrote_chain(&b0, &b3, &b4, h + l + name_wire(m_name@), name_wire(r_name@));
        let names = h + l + name_wire(m_name@) + name_wire(r_name@);
        lemma_wrote_chain(&b0, &b4, &b5, names, u32_bytes(serial));
        lemma_wrote_chain(&b0, &b5, &b6, names + u32_bytes(serial), u32_bytes(refresh));
        lemma_wrote_chain(&b0, &b6, &b7, names + u32_bytes(serial) + u32_bytes(refresh), u32_bytes(retry));
        lemma_wrote_chain(
            &b0,
            &b7,
            &b8,
            names + u32_bytes(serial) + u32_bytes(refresh) + u32_bytes(retry),
            u32_bytes(expire),
        );
        lemma_wrote_chain(
            &b0,
            &b8,
            buffer,
            names + u32_bytes(serial) + u32_bytes(refresh) + u32_bytes(retry) + u32_bytes(expire),
            u32_bytes(minimum),
        );
        assert(names + u32_bytes(serial) + u32_bytes(refresh) + u32_bytes(retry) + u32_bytes(expire)
            + u32_bytes(minimum) =~= h + (l + payload));
    }
    Ok(())
}

/// Writes a record of type MX.
fn write_mx(buffer: &mut BytePacketBuffer, domain: &String, priority: u16, host: &String, ttl: u32) -> (r:
    Result<(), DnsError>)
    requires
        old(buffer).wf(),
    ensures
        final(buffer).wf(),
        final(buffer).max_size == old(buffer).max_size,
        r is Ok <==> record_names_fit(RecordModel::MX { domain: domain@, priority, host: host@, ttl }),
        r is Ok ==> final(buffer).wrote(
            old(buffer),
            record_bytes(RecordModel::MX { domain: domain@, priority, host: host@, ttl }),
        ),
{
    let ghost b0 = *buffer;
    let n = add16(2, name_len16(host));
    proof {
        lemma_add_mod_noop(2, name_wire(host@).len() as int, 65536);
    }
    write_head(buffer, domain, 15, ttl)?;
    let ghost b1 = *buffer;
    write_len(buffer, n);
    let ghost b2 = *buffer;
    buffer.write_u16(priority);
    let ghost b3 = *buffer;
    buffer.write_qname(host.as_str())?;
    proof {
        let h = rr_head(domain@, 15, CLASS_IN, ttl);
        let payload = u16_bytes(priority) + name_wire(host@);
        let l = u16_bytes((payload.len() % 65536) as u16);
        lemma_wrote_chain(&b0, &b1, &b2, h, l);
        lemma_wrote_chain(&b0, &b2, &b3, h + l, u16_bytes(priority));
        lemma_wrote_chain(&b0, &b3, buffer, h + l + u16_bytes(priority), name_wire(host@));
        assert(h + l + u16_bytes(priority) + name_wire(host@) =~= h + (l + payload));
    }
    Ok(())
}

/// Writes a record of type SRV.
#[verifier::spinoff_prover]
#[verifier::rlimit(60)]
fn write_srv(
    buffer: &mut BytePacketBuffer,
    domain: &String,
    priority: u16,
    weight: u16,
    port: u16,
    host: &String,
    ttl: u32,
) -> (r: Result<(), DnsError>)
    requires
        old(buffer).wf(),
    ensures
        final(buffer).wf(),
        final(buffer).max_size == old(buffer).max_size,
        r is Ok <==> record_names_fit(
            RecordModel::SRV { domain: domain@, priority, weight, port, host: host@, ttl },
        ),
        r is Ok ==> final(buffer).wrote(
            old(buffer),
            record_bytes(RecordModel::SRV { domain: domain@, priority, weight, port, host: host@, ttl }),
        ),
{
    let ghost b0 = *buffer;
    let n = add16(6, name_len16(host));
    proof {
        lemma_add_mod_noop(6, name_wire(host@).len() as int, 65536);
    }
    write_head(buffer, domain, 33, ttl)?;
    let ghost b1 = *buffer;
    write_len(buffer, n);
    let ghost b2 = *buffer;
    buffer.write_u16(priority);
    let ghost b3 = *buffer;
    buffer.write_u16(weight);
    let ghost b4 = *buffer;
    buffer.write_u16(port);
    let ghost b5 = *buffer;
    buffer.write_qname(host.as_str())?;
    proof {
        let h = rr_head(domain@, 33, CLASS_IN, ttl);
        let payload = u16_bytes(priority) + u16_bytes(weight) + u16_bytes(port) + name_wire(host@);
        let l = u16_bytes((payload.len() % 65536) as u16);
        lemma_wrote_chain(&b0, &b1, &b2, h, l);
        lemma_wrote_chain(&b0, &b2, &b3, h + l, u16_bytes(priority));
        lemma_wrote_chain(&b0, &b3, &b4, h + l + u16_bytes(priority), u16_bytes(weight));
        lemma_wrote_chain(&b0, &b4, &b5, h + l + u16_bytes(priority) + u16_bytes(weight), u16_bytes(port));
        lemma_wrote_chain(
            &b0,
            &b5,
            buffer,
            h + l + u16_bytes(priority) + u16_bytes(weight) + u16_bytes(port),
            name_wire(host@),
        );
        assert(h + l + u16_bytes(priority) + u16_bytes(weight) + u16_bytes(port) + name_wire(host@)
            =~= h + (l + payload));
    }
    Ok(())
}

/// `room - n`, when `n` fits in `room`.
fn take_room(room: usize, n: usize) -> (r: Option<usize>)
    ensures
        n <= room ==> r == Some((room - n) as usize),
        n > room ==> r is None,
{
    if n <= room {
        Some(room - n)
    } else {
        None
    }
}

impl DnsRecord {
    /// A copy of the record.
    pub fn duplicate(&self) -> (r: DnsRecord)
        ensures
            r@ == self@,
    {
        match self {
            DnsRecord::UNKNOWN { domain, qtype, data_len, ttl } => DnsRecord::UNKNOWN {
                domain: domain.clone(),
                qtype: *qtype,
                data_len: *data_len,
                ttl: *ttl,
            },
            DnsRecord::A { domain, addr, ttl } => DnsRecord::A { domain: domain.clone(), addr: *addr, ttl: *ttl },
            DnsRecord::NS { domain, host, ttl } => DnsRecord::NS {
                domain: domain.clone(),
                host: host.clone(),
                ttl: *ttl,
            },
            DnsRecord::CNAME { domain, host, ttl } => DnsRecord::CNAME {
                domain: domain.clone(),
                host: host.clone(),
                ttl: *ttl,
            },
            DnsRecord::SOA {
                domain,
                m_name,
                r_name,
                serial,
                refresh,
                retry,
                expire,
                minimum,
                ttl,
            } => DnsRecord::SOA {
                domain: domain.clone(),
                m_name: m_name.clone(),
                r_name: r_name.clone(),
                serial: *serial,
                refresh: *refresh,
                retry: *retry,
                expire: *expire,
                minimum: *minimum,
                ttl: *ttl,
            },
            DnsRecord::MX { domain, priority, host, ttl } => DnsRecord::MX {
                domain: domain.clone(),
                priority: *priority,
                host: host.clone(),
                ttl: *ttl,
            },
            DnsRecord::TXT { domain, data, ttl } => DnsRecord::TXT {
                domain: domain.clone(),
                data: data.clone(),
                ttl: *ttl,
            },
            DnsRecord::AAAA { domain, addr, ttl } => DnsRecord::AAAA {
                domain: domain.clone(),
                addr: *addr,
                ttl: *ttl,
            },
            DnsRecord::SRV { domain, priority, weight, port, host, ttl } => DnsRecord::SRV {
                domain: domain.clone(),
                priority: *priority,
                weight: *weight,
                port: *port,
                host: host.clone(),
                ttl: *ttl,
            },
            DnsRecord::OPT { packet_len, flags, data } => DnsRecord::OPT {
                packet_len: *packet_len,
                flags: *flags,
                data: data.clone(),
            },
        }
    }

    /// The record's time to live in seconds; an OPT record has none and
    /// counts as zero.
    pub fn ttl(&self) -> (r: u32)
        ensures
            r == record_ttl(self@),
    {
        match self {
            DnsRecord::UNKNOWN { ttl, .. } => ttl.0,
            DnsRecord::A { ttl, .. } => ttl.0,
            DnsRecord::NS { ttl, .. } => ttl.0,
            DnsRecord::CNAME { ttl, .. } => ttl.0,
            DnsRecord::SOA { ttl, .. } => ttl.0,
            DnsRecord::MX { ttl, .. } => ttl.0,
            DnsRecord::TXT { ttl, .. } => ttl.0,
            DnsRecord::AAAA { ttl, .. } => ttl.0,
            DnsRecord::SRV { ttl, .. } => ttl.0,
            DnsRecord::OPT { .. } => 0,
        }
    }

    /// Whether the record is of a type this library does not model.
    pub fn is_unknown(&self) -> (r: bool)
        ensures
            r == self@ is Unknown,
    {
        match self {
            DnsRecord::UNKNOWN { .. } => true,
            _ => false,
        }
    }

    /// What is left of `room` bytes once the record's wire form is taken
    /// from it, or `None` when the record does not fit.
    pub fn room_after(&self, room: usize) -> (r: Option<usize>)
        ensures
            record_bytes(self@).len() <= room ==> r == Some((room - record_bytes(self@).len()) as usize),
            record_bytes(self@).len() > room ==> r is None,
    {
        proof {
            lemma_record_len(self@);
        }
        match self {
            DnsRecord::UNKNOWN { .. } => Some(room),
            DnsRecord::A { domain, .. } => {
                let r1 = take_room(room, text_len(domain))?;
                take_room(r1, 16)
            },
            DnsRecord::NS { domain, host, .. } => {
                let r1 = take_room(room, text_len(domain))?;
                let r2 = take_room(r1, text_len(host))?;
                take_room(r2, 14)
            },
            DnsRecord::CNAME { domain, host, .. } => {
                let r1 = take_room(room, text_len(domain))?;
                let r2 = take_room(r1, text_len(host))?;
                take_room(r2, 14)
            },
            DnsRecord::SOA { domain, m_name, r_name, .. } => {
                let r1 = take_room(room, text_len(domain))?;
                let r2 = take_room(r1, text_len(m_name))?;
                let r3 = take_room(r2, text_len(r_name))?;
                take_room(r3, 36)
            },
            DnsRecord::MX { domain, host, .. } => {
                let r1 = take_room(room, text_len(domain))?;
                let r2 = take_room(r1, text_len(host))?;
                take_room(r2, 16)
            },
            DnsRecord::TXT { domain, data, .. } => {
                let r1 = take_room(room, text_len(domain))?;
                let r2 = take_room(r1, text_len(data))?;
                take_room(r2, 12)
            },
            DnsRecord::AAAA { domain, .. } => {
                let r1 = take_room(room, text_len(domain))?;
                take_room(r1, 28)
            },
            DnsRecord::SRV { domain, host, .. } => {
                let r1 = take_room(room, text_len(domain))?;
                let r2 = take_room(r1, text_len(host))?;
                take_room(r2, 20)
            },
            DnsRecord::OPT { data, .. } => {
                let r1 = take_room(room, text_len(data))?;
                take_room(r1, 11)
            },
        }
    }

    /// Writes the record at the cursor, with class IN. A record of an unknown
    /// type is skipped. Fails with `LabelTooLong` when one of its names cannot
    /// be encoded. On success returns how far the cursor moved.
    #[verifier::spinoff_prover]
    #[verifier::rlimit(60)]
    pub fn write(&self, buffer: &mut BytePacketBuffer) -> (r: Result<usize, DnsError>)
        requires
            old(buffer).wf(),
        ensures
            final(buffer).wf(),
            final(buffer).max_size == old(buffer).max_size,
            r is Ok <==> record_names_fit(self@),
            r is Ok ==> final(buffer).wrote(old(buffer), record_bytes(self@)),
            r is Ok ==> r->Ok_0 == final(buffer).pos - old(buffer).pos,
    {
        let start = buffer.pos;
        let ghost b0 = *buffer;
        match self {
            DnsRecord::UNKNOWN { .. } => {
                proof {
                    lemma_wrote_nothing(buffer);
                }
            },
            DnsRecord::A { domain, addr, ttl } => {
                write_head(buffer, domain, 1, ttl.0)?;
                let ghost b1 = *buffer;
                write_with_len(buffer, addr.as_slice());
                proof {
                    lemma_wrote_chain(&b0, &b1, buffer, rr_head(domain@, 1, CLASS_IN, ttl.0), with_len(addr@));
                }
            },
            DnsRecord::NS { domain, host, ttl } => {
                write_head(buffer, domain, 2, ttl.0)?;
                let ghost b1 = *buffer;
                write_name_with_len(buffer, host)?;
                proof {
                    lemma_wrote_chain(&b0, &b1, buffer, rr_head(domain@, 2, CLASS_IN, ttl.0), with_len(name_wire(host@)));
                }
            },
            DnsRecord::CNAME { domain, host, ttl } => {
                write_head(buffer, domain, 5, ttl.0)?;
                let ghost b1 = *buffer;
                write_name_with_len(buffer, host)?;
                proof {
                    lemma_wrote_chain(&b0, &b1, buffer, rr_head(domain@, 5, CLASS_IN, ttl.0), with_len(name_wire(host@)));
                }
            },
            DnsRecord::SOA {
                domain,
                m_name,
                r_name,
                serial,
                refresh,
                retry,
                expire,
                minimum,
                ttl,
            } => {
                write_soa(buffer, domain, m_name, r_name, *serial, *refresh, *retry, *expire, *minimum, ttl.0)?;
            },
            DnsRecord::MX { domain, priority, host, ttl } => {
                write_mx(buffer, domain, *priority, host, ttl.0)?;
            },
            DnsRecord::TXT { domain, data, ttl } => {
                write_head(buffer, domain, 16, ttl.0)?;
                let ghost b1 = *buffer;
                write_with_len(buffer, data.as_str().as_bytes());
                proof {
                    lemma_wrote_chain(&b0, &b1, buffer, rr_head(domain@, 16, CLASS_IN, ttl.0), with_len(text_bytes(data@)));
                }
            },
            DnsRecord::AAAA { domain, addr, ttl } => {
                write_head(buffer, domain, 28, ttl.0)?;
                let ghost b1 = *buffer;
                write_len(buffer, 16);
                let ghost b2 = *buffer;
                write_u16s(buffer, addr.as_slice());
                proof {
                    let h = rr_head(domain@, 28, CLASS_IN, ttl.0);
                    let payload = u16s_bytes(addr@);
                    assert(payload.len() == 16) by {
                        let s = addr@;
                        assert(s.drop_last().drop_last().drop_last().drop_last().drop_last().drop_last().drop_last().drop_last() =~= Seq::<u16>::empty());
                        reveal_with_fuel(u16s_bytes, 9);
                    }
                    lemma_wrote_chain(&b0, &b1, &b2, h, u16_bytes(16));
                    lemma_wrote_chain(&b0, &b2, buffer, h + u16_bytes(16), payload);
                    assert(h + u16_bytes(16) + payload =~= h + with_len(payload));
                }
            },
            DnsRecord::SRV { domain, priority, weight, port, host, ttl } => {
                write_srv(buffer, domain, *priority, *weight, *port, host, ttl.0)?;
            },
            DnsRecord::OPT { packet_len, flags, data } => {
                buffer.write_u8(0);
                let ghost b1 = *buffer;
                buffer.write_u16(41);
                let ghost b2 = *buffer;
                buffer.write_u16(*packet_len);
                let ghost b3 = *buffer;
                buffer.write_u32(*flags);
                let ghost b4 = *buffer;
                write_with_len(buffer, data.as_str().as_bytes());
                proof {
                    let z = seq![0u8];
                    lemma_wrote_chain(&b0, &b1, &b2, z, u16_bytes(41));
                    lemma_wrote_chain(&b0, &b2, &b3, z + u16_bytes(41), u16_bytes(*packet_len));
                    lemma_wrote_chain(&b0, &b3, &b4, z + u16_bytes(41) + u16_bytes(*packet_len), u32_bytes(*flags));
                    lemma_wrote_chain(&b0, &b4, buffer, z + u16_bytes(41) + u16_bytes(*packet_len) + u32_bytes(*flags), with_len(text_bytes(data@)));
                }
            },
        }
        Ok(buffer.pos - start)
    }

    /// Reads the record at the cursor.
    pub fn read(buffer: &mut BytePacketBuffer) -> (r: Result<DnsRecord, DnsError>)
        requires
            old(buffer).wf(),
        ensures
            final(buffer).wf(),
            final(buffer).buf == old(buffer).buf,
            final(buffer).max_size == old(buffer).max_size,
            match record_at(old(buffer).buf@, old(buffer).pos as int) {
                Ok((m, end)) => r is Ok && r->Ok_0@ == m && final(buffer).pos == end,
                Err(e) => r == Err::<DnsRecord, DnsError>(e),
            },
    {
        let domain = read_name(buffer)?;
        let qtype_num = buffer.read_u16()?;
        let class = buffer.read_u16()?;
        let ttl = buffer.read_u32()?;
        let data_len = buffer.read_u16()?;
        Self::read_payload(buffer, domain, qtype_num, class, ttl, data_len)
    }

    /// Reads the type-specific part of a record whose fixed part held the
    /// given fields.
    #[verifier::spinoff_prover]
    #[verifier::rlimit(40)]
    fn read_payload(
        buffer: &mut BytePacketBuffer,
        domain: String,
        qtype_num: u16,
        class: u16,
        ttl: u32,
        data_len: u16,
    ) -> (r: Result<DnsRecord, DnsError>)
        requires
            old(buffer).wf(),
        ensures
            final(buffer).wf(),
            final(buffer).buf == old(buffer).buf,
            final(buffer).max_size == old(buffer).max_size,
            match payload_at(
                old(buffer).buf@,
                domain@,
                qtype_num,
                class,
                ttl,
                data_len,
                old(buffer).pos as int,
            ) {
                Ok((m, end)) => r is Ok && r->Ok_0@ == m && final(buffer).pos == end,
                Err(e) => r == Err::<DnsRecord, DnsError>(e),
            },
    {
        let ghost buf = buffer.buf@;
        let ghost q = buffer.pos as int;
        match QueryType::from_num(qtype_num) {
            QueryType::UNKNOWN(_) => {
                buffer.step(data_len as usize)?;
                Ok(DnsRecord::UNKNOWN { domain, qtype: qtype_num, data_len, ttl: TransientTtl(ttl) })
            },
            QueryType::A => {
                let a0 = buffer.read()?;
                let a1 = buffer.read()?;
                let a2 = buffer.read()?;
                let a3 = buffer.read()?;
                let addr = [a0, a1, a2, a3];
                assert(addr@ =~= buf.subrange(q, q + 4));
                Ok(DnsRecord::A { domain, addr, ttl: TransientTtl(ttl) })
            },
            QueryType::NS => {
                let host = read_name(buffer)?;
                Ok(DnsRecord::NS { domain, host, ttl: TransientTtl(ttl) })
            },
            QueryType::CNAME => {
                let host = read_name(buffer)?;
                Ok(DnsRecord::CNAME { domain, host, ttl: TransientTtl(ttl) })
            },
            QueryType::MX => {
                let priority = buffer.read_u16()?;
                let host = read_name(buffer)?;
                Ok(DnsRecord::MX { domain, priority, host, ttl: TransientTtl(ttl) })
            },
            QueryType::AAAA => {
                let s0 = buffer.read_u16()?;
                let s1 = buffer.read_u16()?;
                let s2 = buffer.read_u16()?;
                let s3 = buffer.read_u16()?;
                let s4 = buffer.read_u16()?;
                let s5 = buffer.read_u16()?;
                let s6 = buffer.read_u16()?;
                let s7 = buffer.read_u16()?;
                let addr = [s0, s1, s2, s3, s4, s5, s6, s7];
                assert(addr@ =~= u16s_at(buf, q, 8));
                Ok(DnsRecord::AAAA { domain, addr, ttl: TransientTtl(ttl) })
            },
            QueryType::SOA => {
                let m_name = read_name(buffer)?;
                let r_name = read_name(buffer)?;
                let serial = buffer.read_u32()?;
                let refresh = buffer.read_u32()?;
                let retry = buffer.read_u32()?;
                let expire = buffer.read_u32()?;
                let minimum = buffer.read_u32()?;
                Ok(
                    DnsRecord::SOA {
                        domain,
                        m_name,
                        r_name,
                        serial,
                        refresh,
                        retry,
                        expire,
                        minimum,
                        ttl: TransientTtl(ttl),
                    },
                )
            },
            QueryType::TXT => {
                let cur_pos = buffer.pos();
                let raw = buffer.get_range(cur_pos, data_len as usize)?;
                let data = lossy_string(raw);
                buffer.step(data_len as usize)?;
                Ok(DnsRecord::TXT { domain, data, ttl: TransientTtl(ttl) })
            },
            QueryType::SRV => {
                let priority = buffer.read_u16()?;
                let weight = buffer.read_u16()?;
                let port = buffer.read_u16()?;
                let host = read_name(buffer)?;
                Ok(DnsRecord::SRV { domain, priority, weight, port, host, ttl: TransientTtl(ttl) })
            },
            QueryType::OPT => {
                let cur_pos = buffer.pos();
                let raw = buffer.get_range(cur_pos, data_len as usize)?;
                let data = lossy_string(raw);
                buffer.step(data_len as usize)?;
                Ok(DnsRecord::OPT { packet_len: class, flags: ttl, data })
            },
        }
    }
}

} // verus!
