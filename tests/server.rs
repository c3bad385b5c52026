use kube_ingress_dns::addr::HostAddr;
use kube_ingress_dns::buffer::BytePacketBuffer;
use kube_ingress_dns::cache::{Cache, CacheRecord};
use kube_ingress_dns::header::{QueryType, ResultCode};
use kube_ingress_dns::packet::DnsPacket;
use kube_ingress_dns::question::DnsQuestion;
use kube_ingress_dns::record::{DnsRecord, TransientTtl};
use kube_ingress_dns::resolver::{answer_query, parse_request, upstream_reply, QueryStep};

fn a_record(name: &str, ttl: u32) -> DnsRecord {
    DnsRecord::A { domain: name.to_string(), addr: [10, 1, 2, 3], ttl: TransientTtl(ttl) }
}

#[test]
fn cache_entry_lives_for_its_ttl() {
    let mut cache = Cache::new();
    cache.save("host.example".to_string(), vec![a_record("host.example", 5)], 1000);
    let hit = cache.find("host.example", 1004).unwrap();
    assert_eq!(hit.expires, 1005);
    assert_eq!(hit.records, vec![a_record("host.example", 5)]);
    // a reader before expiry leaves the entry for the next one
    assert!(cache.find("host.example", 1004).is_some());
    // at the expiry instant the entry counts as expired, and is dropped
    assert!(cache.find("host.example", 1005).is_none());
    assert!(cache.find("host.example", 1000).is_none());
}

#[test]
fn cache_expiry_is_the_largest_ttl() {
    let mut cache = Cache::new();
    cache.save(
        "m.example".to_string(),
        vec![a_record("m.example", 5), a_record("m.example", 30), a_record("m.example", 7)],
        100,
    );
    assert_eq!(cache.find("m.example", 100).unwrap().expires, 130);
    cache.save("m.example".to_string(), vec![a_record("m.example", 1)], 100);
    assert_eq!(cache.find("m.example", 100).unwrap().expires, 101);
    assert!(cache.find("other", 100).is_none());
}

#[test]
fn ingress_load_gives_loopback_records() {
    let mut cache = Cache::new();
    cache.load_ingress_hosts(&vec!["a".to_string(), "b".to_string()], 0);
    for host in ["a", "b"] {
        let entry = cache.find(host, 10).unwrap();
        assert_eq!(
            entry.records,
            vec![DnsRecord::A { domain: host.to_string(), addr: [127, 0, 0, 1], ttl: TransientTtl(300) }]
        );
        assert_eq!(entry.expires, 365 * 86400);
    }
}

#[test]
fn static_load_gives_a_and_aaaa() {
    let mut cache = Cache::new();
    cache.load_static("v4.local".to_string(), HostAddr::V4 { ip: [192, 168, 1, 2], port: 0 }, 0);
    cache.load_static("v6.local".to_string(), HostAddr::V6 { ip: [0, 0, 0, 0, 0, 0, 0, 1], port: 8080 }, 0);
    assert_eq!(
        cache.find("v4.local", 1).unwrap().records,
        vec![DnsRecord::A { domain: "v4.local".to_string(), addr: [192, 168, 1, 2], ttl: TransientTtl(300) }]
    );
    assert_eq!(
        cache.find("v6.local", 1).unwrap().records,
        vec![DnsRecord::AAAA { domain: "v6.local".to_string(), addr: [0, 0, 0, 0, 0, 0, 0, 1], ttl: TransientTtl(300) }]
    );
    cache.remove("v4.local");
    assert!(cache.find("v4.local", 1).is_none());
    let copy = CacheRecord { records: vec![a_record("x", 1)], expires: 3 }.duplicate();
    assert_eq!(copy.expires, 3);
}

fn query(name: &str) -> DnsPacket {
    let mut packet = DnsPacket::new();
    packet.header.id = 4242;
    packet.header.recursion_desired = true;
    packet.questions.push(DnsQuestion::new(name.to_string(), QueryType::A));
    packet.resources.push(DnsRecord::OPT { packet_len: 1232, flags: 0, data: String::new() });
    packet.header.resource_entries = 1;
    packet
}

#[test]
fn query_without_questions_gets_formerr() {
    let mut cache = Cache::new();
    let mut request = DnsPacket::new();
    request.header.id = 7;
    match answer_query(&mut cache, request, 0) {
        QueryStep::Reply(p) => {
            assert_eq!(p.header.id, 7);
            assert_eq!(p.header.rescode, ResultCode::FORMERR);
            assert!(p.header.response && p.header.recursion_desired && p.header.recursion_available);
            assert!(p.questions.is_empty());
        }
        QueryStep::Forward(_) => panic!("expected a reply"),
    }
}

#[test]
fn cached_name_is_answered_locally() {
    let mut cache = Cache::new();
    cache.load_ingress_hosts(&vec!["svc.example".to_string()], 0);
    match answer_query(&mut cache, query("svc.example"), 5) {
        QueryStep::Reply(p) => {
            assert_eq!(p.header.id, 4242);
            assert_eq!(p.header.rescode, ResultCode::NOERROR);
            assert_eq!(p.questions, vec![DnsQuestion::new("svc.example".to_string(), QueryType::A)]);
            assert_eq!(
                p.answers,
                vec![DnsRecord::A { domain: "svc.example".to_string(), addr: [127, 0, 0, 1], ttl: TransientTtl(300) }]
            );
        }
        QueryStep::Forward(_) => panic!("expected a reply"),
    }
}

#[test]
fn unknown_name_is_forwarded_without_additional_records() {
    let mut cache = Cache::new();
    match answer_query(&mut cache, query("elsewhere.example"), 5) {
        QueryStep::Forward(p) => {
            assert_eq!(p.header.id, 4242);
            assert!(p.resources.is_empty());
            assert_eq!(p.header.resource_entries, 0);
            assert_eq!(p.questions.len(), 1);
        }
        QueryStep::Reply(_) => panic!("expected a forward"),
    }
    let failed = upstream_reply(4242, None);
    assert_eq!(failed.header.rescode, ResultCode::SERVFAIL);
    assert_eq!(failed.header.id, 4242);
    let mut up = DnsPacket::new();
    up.header.id = 4242;
    up.header.truncated_message = true;
    let adopted = upstream_reply(4242, Some(up));
    assert!(adopted.header.truncated_message);
}

#[test]
fn malformed_datagram_gets_formerr_with_its_id() {
    let mut buffer = BytePacketBuffer::new();
    buffer.write_u16(0x0102);
    buffer.write_u16(0);
    buffer.write_u16(0);
    buffer.write_u16(1000);
    buffer.seek(0);
    // a thousand answers cannot fit in the datagram
    let reply = parse_request(&mut buffer).err().unwrap();
    assert_eq!(reply.header.id, 0x0102);
    assert_eq!(reply.header.rescode, ResultCode::FORMERR);

    let mut good = BytePacketBuffer::new();
    let mut q = query("x.example");
    q.write(&mut good).unwrap();
    good.seek(0);
    let parsed = parse_request(&mut good).ok().unwrap();
    assert_eq!(parsed.questions[0].name, "x.example");
}
