use kube_ingress_dns::buffer::{BytePacketBuffer, PACKET_SIZE};
use kube_ingress_dns::error::DnsError;
use kube_ingress_dns::header::{DnsHeader, QueryType, ResultCode};
use kube_ingress_dns::question::DnsQuestion;
use kube_ingress_dns::record::{DnsRecord, TransientTtl};

#[test]
fn qname_round_trip_lowercases() {
    let mut buffer = BytePacketBuffer::new();
    assert_eq!(buffer.write_qname("WWW.Example.com"), Ok(17));
    buffer.seek(0);
    let mut name = String::new();
    assert_eq!(buffer.read_qname(&mut name), Ok(()));
    assert_eq!(name, "www.example.com");
    assert_eq!(buffer.pos(), 17);
}

#[test]
fn qname_wire_bytes() {
    let mut buffer = BytePacketBuffer::new();
    assert_eq!(buffer.write_qname("ab.c"), Ok(6));
    assert_eq!(buffer.get_range(0, 6).unwrap(), &[2u8, b'a', b'b', 1, b'c', 0][..]);
}

#[test]
fn label_of_63_accepted_64_rejected() {
    let mut buffer = BytePacketBuffer::new();
    let long = "a".repeat(64);
    assert_eq!(buffer.write_qname(&long), Err(DnsError::LabelTooLong));
    let ok = "a".repeat(63);
    let mut other = BytePacketBuffer::new();
    assert_eq!(other.write_qname(&ok), Ok(65));
    other.seek(0);
    let mut name = String::new();
    assert_eq!(other.read_qname(&mut name), Ok(()));
    assert_eq!(name, ok);
}

#[test]
fn pointer_is_followed_and_cursor_lands_after_it() {
    let mut buffer = BytePacketBuffer::new();
    buffer.write_qname("example.com").unwrap();
    let at = buffer.pos();
    buffer.write_u8(3);
    buffer.write_u8(b'w');
    buffer.write_u8(b'w');
    buffer.write_u8(b'w');
    buffer.write_u16(0xC000);
    buffer.seek(at);
    let mut name = String::new();
    assert_eq!(buffer.read_qname(&mut name), Ok(()));
    assert_eq!(name, "www.example.com");
    assert_eq!(buffer.pos(), at + 6);
}

#[test]
fn pointer_cycle_fails_with_jumps_exceeded() {
    let mut buffer = BytePacketBuffer::new();
    buffer.write_u16(0xC000);
    buffer.seek(0);
    let mut name = String::new();
    assert_eq!(buffer.read_qname(&mut name), Err(DnsError::JumpsExceeded));
    let mut two = BytePacketBuffer::new();
    two.write_u16(0xC002);
    two.write_u16(0xC000);
    two.seek(0);
    assert_eq!(two.read_qname(&mut name), Err(DnsError::JumpsExceeded));
    assert_eq!(DnsError::JumpsExceeded.message(), "jumps exceeded");
}

#[test]
fn reads_past_the_end_fail() {
    let mut buffer = BytePacketBuffer::new();
    buffer.seek(PACKET_SIZE - 1);
    assert_eq!(buffer.read_u16(), Err(DnsError::EndOfBuffer));
    buffer.seek(PACKET_SIZE);
    assert_eq!(buffer.read(), Err(DnsError::EndOfBuffer));
    assert_eq!(buffer.get(PACKET_SIZE), Err(DnsError::EndOfBuffer));
    assert!(buffer.get_range(PACKET_SIZE - 2, 3).is_err());
    buffer.seek(10);
    assert_eq!(buffer.step(PACKET_SIZE), Err(DnsError::EndOfBuffer));
    assert_eq!(buffer.step(4), Ok(()));
    assert_eq!(buffer.pos(), 14);
    assert_eq!(DnsError::EndOfBuffer.message(), "end of buffer");
}

#[test]
fn writes_past_the_ceiling_are_dropped() {
    let mut buffer = BytePacketBuffer::new();
    buffer.seek(PACKET_SIZE - 1);
    buffer.write_u16(0xABCD);
    assert_eq!(buffer.pos(), PACKET_SIZE);
    assert_eq!(buffer.get(PACKET_SIZE - 1), Ok(0xAB));
}

#[test]
fn big_endian_integers() {
    let mut buffer = BytePacketBuffer::new();
    buffer.write_u32(0x01020304);
    buffer.write_u16(0x0506);
    buffer.set_u16(0, 0xFFEE);
    buffer.seek(0);
    assert_eq!(buffer.read_u32(), Ok(0xFFEE0304));
    assert_eq!(buffer.read_u16(), Ok(0x0506));
}

#[test]
fn header_round_trip_and_flags() {
    let mut header = DnsHeader::new();
    header.id = 0x1234;
    header.recursion_desired = true;
    header.response = true;
    header.op_code = 2;
    header.rescode = ResultCode::NXDOMAIN;
    header.recursion_available = true;
    header.questions = 1;
    header.answers = 2;
    let mut buffer = BytePacketBuffer::new();
    header.write(&mut buffer);
    assert_eq!(buffer.pos(), 12);
    assert_eq!(buffer.get(2), Ok(0b1001_0001));
    assert_eq!(buffer.get(3), Ok(0b1000_0011));
    buffer.seek(0);
    let mut back = DnsHeader::new();
    assert_eq!(back.read(&mut buffer), Ok(()));
    assert_eq!(back, header);
}

#[test]
fn codes_and_types() {
    assert_eq!(ResultCode::from_num(3), ResultCode::NXDOMAIN);
    assert_eq!(ResultCode::from_num(9), ResultCode::NOERROR);
    assert_eq!(ResultCode::REFUSED.to_num(), 5);
    assert_eq!(QueryType::from_num(28), QueryType::AAAA);
    assert_eq!(QueryType::from_num(33), QueryType::SRV);
    assert_eq!(QueryType::from_num(99), QueryType::UNKNOWN(99));
    assert_eq!(QueryType::OPT.to_num(), 41);
    assert_eq!(QueryType::SOA.to_num(), 6);
}

#[test]
fn question_round_trip() {
    let q = DnsQuestion::new("Host.Example".to_string(), QueryType::MX);
    let mut buffer = BytePacketBuffer::new();
    assert_eq!(q.write(&mut buffer), Ok(18));
    buffer.seek(0);
    let mut back = DnsQuestion::new(String::new(), QueryType::UNKNOWN(0));
    assert_eq!(back.read(&mut buffer), Ok(()));
    assert_eq!(back.name, "host.example");
    assert_eq!(back.qtype, QueryType::MX);
}

fn round_trip(rec: &DnsRecord) -> DnsRecord {
    let mut buffer = BytePacketBuffer::new();
    let n = rec.write(&mut buffer).unwrap();
    assert_eq!(buffer.pos(), n);
    buffer.seek(0);
    let back = DnsRecord::read(&mut buffer).unwrap();
    assert_eq!(buffer.pos(), n);
    back
}

#[test]
fn record_round_trips() {
    let records = vec![
        DnsRecord::A { domain: "a.example".to_string(), addr: [10, 0, 0, 1], ttl: TransientTtl(60) },
        DnsRecord::NS { domain: "example".to_string(), host: "ns1.example".to_string(), ttl: TransientTtl(1) },
        DnsRecord::CNAME { domain: "w.example".to_string(), host: "a.example".to_string(), ttl: TransientTtl(2) },
        DnsRecord::SOA {
            domain: "example".to_string(),
            m_name: "ns.example".to_string(),
            r_name: "admin.example".to_string(),
            serial: 1,
            refresh: 2,
            retry: 3,
            expire: 4,
            minimum: 5,
            ttl: TransientTtl(6),
        },
        DnsRecord::MX { domain: "example".to_string(), priority: 10, host: "mail.example".to_string(), ttl: TransientTtl(7) },
        DnsRecord::TXT { domain: "example".to_string(), data: "v=spf1 -all".to_string(), ttl: TransientTtl(8) },
        DnsRecord::AAAA { domain: "six.example".to_string(), addr: [0x2001, 0xdb8, 0, 0, 0, 0, 0, 1], ttl: TransientTtl(9) },
        DnsRecord::SRV {
            domain: "_x._tcp.example".to_string(),
            priority: 1,
            weight: 2,
            port: 443,
            host: "svc.example".to_string(),
            ttl: TransientTtl(10),
        },
        DnsRecord::OPT { packet_len: 1232, flags: 0, data: String::new() },
    ];
    for rec in &records {
        assert_eq!(&round_trip(rec), rec);
    }
}

#[test]
fn a_record_wire_form() {
    let rec = DnsRecord::A { domain: "a".to_string(), addr: [127, 0, 0, 1], ttl: TransientTtl(300) };
    let mut buffer = BytePacketBuffer::new();
    assert_eq!(rec.write(&mut buffer), Ok(17));
    assert_eq!(
        buffer.get_range(0, 17).unwrap(),
        &[1u8, b'a', 0, 0, 1, 0, 1, 0, 0, 1, 44, 0, 4, 127, 0, 0, 1][..]
    );
    assert_eq!(rec.room_after(17), Some(0));
    assert_eq!(rec.room_after(16), None);
}

#[test]
fn unknown_record_is_read_and_skipped_on_write() {
    let mut buffer = BytePacketBuffer::new();
    buffer.write_qname("x").unwrap();
    buffer.write_u16(65);
    buffer.write_u16(1);
    buffer.write_u32(30);
    buffer.write_u16(2);
    buffer.write_u16(0xBEEF);
    buffer.seek(0);
    let rec = DnsRecord::read(&mut buffer).unwrap();
    assert_eq!(
        rec,
        DnsRecord::UNKNOWN { domain: "x".to_string(), qtype: 65, data_len: 2, ttl: TransientTtl(30) }
    );
    assert_eq!(buffer.pos(), 15);
    let mut out = BytePacketBuffer::new();
    assert_eq!(rec.write(&mut out), Ok(0));
}
