use kube_ingress_dns::buffer::{BytePacketBuffer, PACKET_SIZE};
use kube_ingress_dns::error::DnsError;
use kube_ingress_dns::header::{QueryType, ResultCode};
use kube_ingress_dns::packet::DnsPacket;
use kube_ingress_dns::question::DnsQuestion;
use kube_ingress_dns::record::{DnsRecord, TransientTtl};

fn a_record(name: &str, last: u8) -> DnsRecord {
    DnsRecord::A { domain: name.to_string(), addr: [10, 0, 0, last], ttl: TransientTtl(60) }
}

#[test]
fn packet_round_trip() {
    let mut packet = DnsPacket::new();
    packet.header.id = 77;
    packet.header.response = true;
    packet.header.rescode = ResultCode::NOERROR;
    packet.questions.push(DnsQuestion::new("svc.example".to_string(), QueryType::A));
    packet.answers.push(a_record("svc.example", 1));
    packet.authorities.push(DnsRecord::NS {
        domain: "example".to_string(),
        host: "ns.example".to_string(),
        ttl: TransientTtl(5),
    });
    packet.resources.push(DnsRecord::TXT {
        domain: "svc.example".to_string(),
        data: "hello".to_string(),
        ttl: TransientTtl(5),
    });
    let mut buffer = BytePacketBuffer::new();
    assert_eq!(packet.write(&mut buffer), Ok(()));
    assert!(!packet.header.truncated_message);
    assert_eq!(packet.header.answers, 1);
    assert_eq!(packet.header.authoritative_entries, 1);
    assert_eq!(packet.header.resource_entries, 1);
    buffer.seek(0);
    let back = DnsPacket::from_buffer(&mut buffer).unwrap();
    assert_eq!(back.header, packet.header);
    assert_eq!(back.questions, packet.questions);
    assert_eq!(back.answers, packet.answers);
    assert_eq!(back.authorities, packet.authorities);
    assert_eq!(back.resources, packet.resources);
}

fn packet_with_answers(n: usize, name: &str) -> DnsPacket {
    let mut packet = DnsPacket::new();
    packet.header.id = 9;
    packet.questions.push(DnsQuestion::new(name.to_string(), QueryType::A));
    for i in 0..n {
        packet.answers.push(a_record(name, i as u8));
    }
    packet
}

#[test]
fn oversize_packet_is_truncated_and_rewritten() {
    // header 12 + question ("a" as 3 bytes, then 4) = 19; each answer takes 17 bytes.
    let mut packet = packet_with_answers(40, "a");
    let mut buffer = BytePacketBuffer::new();
    assert_eq!(packet.write(&mut buffer), Ok(()));
    assert!(packet.header.truncated_message);
    let kept = (PACKET_SIZE - 19) / 17;
    assert_eq!(packet.header.answers as usize, kept);
    assert_eq!(buffer.pos(), 19 + kept * 17);
    buffer.seek(0);
    let back = DnsPacket::from_buffer(&mut buffer).unwrap();
    assert_eq!(back.answers.len(), kept);
    assert!(back.header.truncated_message);
}

#[test]
fn packet_exactly_at_the_cap_is_not_truncated() {
    let name = "a".repeat(14);
    // header 12 + question (14 + 2 + 4) = 32; answers of 30 bytes each (14 + 16).
    let mut packet = packet_with_answers(0, &name);
    for i in 0..15 {
        packet.answers.push(a_record(&name, i));
    }
    // 32 + 15 * 30 = 482; pad with a TXT record of 26 bytes: 14 + 12 + 0 data.
    packet.answers.push(DnsRecord::TXT { domain: name.clone(), data: String::new(), ttl: TransientTtl(1) });
    let mut buffer = BytePacketBuffer::new();
    assert_eq!(packet.write(&mut buffer), Ok(()));
    assert_eq!(buffer.pos(), PACKET_SIZE);
    assert!(!packet.header.truncated_message);
    assert_eq!(packet.header.answers, 16);

    let mut over = packet_with_answers(0, &name);
    for i in 0..15 {
        over.answers.push(a_record(&name, i));
    }
    over.answers.push(DnsRecord::TXT { domain: name.clone(), data: "x".to_string(), ttl: TransientTtl(1) });
    let mut buffer = BytePacketBuffer::new();
    assert_eq!(over.write(&mut buffer), Ok(()));
    assert!(over.header.truncated_message);
    assert_eq!(over.header.answers, 15);
    assert_eq!(buffer.pos(), 482);
}

#[test]
fn packet_with_long_label_fails_and_is_unchanged() {
    let mut packet = packet_with_answers(1, "ok");
    packet.answers.push(a_record(&"b".repeat(64), 1));
    let mut buffer = BytePacketBuffer::new();
    assert_eq!(packet.write(&mut buffer), Err(DnsError::LabelTooLong));
    assert_eq!(packet.header.answers, 0);
    assert_eq!(buffer.pos(), 0);
}

#[test]
fn unknown_records_are_not_counted() {
    let mut packet = packet_with_answers(1, "ok");
    packet.answers.push(DnsRecord::UNKNOWN {
        domain: "ok".to_string(),
        qtype: 65,
        data_len: 4,
        ttl: TransientTtl(1),
    });
    let mut buffer = BytePacketBuffer::new();
    assert_eq!(packet.write(&mut buffer), Ok(()));
    assert_eq!(packet.header.answers, 1);
    buffer.seek(0);
    let back = DnsPacket::from_buffer(&mut buffer).unwrap();
    assert_eq!(back.answers.len(), 1);
}

#[test]
fn short_datagrams_parse_or_fail() {
    let mut buffer = BytePacketBuffer::new();
    buffer.write_u16(1);
    buffer.write_u16(0);
    buffer.write_u16(1);
    buffer.seek(0);
    // one question announced, and only zeros after the header: it reads as
    // the root name
    let packet = DnsPacket::from_buffer(&mut buffer).unwrap();
    assert_eq!(packet.questions.len(), 1);
    assert_eq!(packet.questions[0].name, "");
    let mut short = BytePacketBuffer::new();
    short.seek(PACKET_SIZE - 4);
    assert_eq!(DnsPacket::from_buffer(&mut short).err(), Some(DnsError::EndOfBuffer));
}
