use vstd::prelude::*;

use crate::buffer::{be16, BytePacketBuffer};
use crate::cache::{after_find, found, Cache};
use crate::header::{empty_header, DnsHeader, ResultCode};
use crate::packet::{models, packet_at, DnsPacket, PacketModel};
use crate::question::DnsQuestion;
use crate::record::RecordModel;

verus! {

/// What to do with a query: answer it, or forward this packet upstream.
pub enum QueryStep {
    Reply(DnsPacket),
    Forward(DnsPacket),
}

/// The header of a reply to query `id`: a response, with recursion desired
/// and available, and the given code.
pub open spec fn reply_header(id: u16, code: ResultCode) -> DnsHeader {
    DnsHeader {
        id,
        recursion_desired: true,
        recursion_available: true,
        response: true,
        rescode: code,
        ..empty_header()
    }
}

/// A reply that carries only a header.
pub open spec fn bare_reply(id: u16, code: ResultCode) -> PacketModel {
    PacketModel {
        header: reply_header(id, code),
        questions: Seq::empty(),
        answers: Seq::empty(),
        authorities: Seq::empty(),
        resources: Seq::empty(),
    }
}

/// The packet forwarded upstream for a query: the query without its
/// additional section.
pub open spec fn forwarded(p: PacketModel) -> PacketModel {
    PacketModel {
        header: DnsHeader { resource_entries: 0, ..p.header },
        resources: Seq::empty(),
        ..p
    }
}

/// A reply that carries only a header.
pub fn bare_reply_packet(id: u16, code: ResultCode) -> (r: DnsPacket)
    ensures
        r@ == bare_reply(id, code),
{
    let mut packet = DnsPacket::new();
    packet.header.id = id;
    packet.header.recursion_desired = true;
    packet.header.recursion_available = true;
    packet.header.response = true;
    packet.header.rescode = code;
    proof {
        assert(packet@.questions =~= Seq::<(Seq<char>, crate::header::QueryType)>::empty());
        assert(packet@.answers =~= Seq::<RecordModel>::empty());
        assert(packet@.authorities =~= Seq::<RecordModel>::empty());
        assert(packet@.resources =~= Seq::<RecordModel>::empty());
    }
    packet
}

/// Reads a query from a received datagram, from its start. A datagram that
/// does not parse gets a `FORMERR` reply, with the id of its first two bytes.
pub fn parse_request(buffer: &mut BytePacketBuffer) -> (r: Result<DnsPacket, DnsPacket>)
    requires
        old(buffer).wf(),
    ensures
        final(buffer).wf(),
        match packet_at(old(buffer).buf@, 0) {
            Ok(p) => r is Ok && r->Ok_0@ == p,
            Err(_) => r is Err && r->Err_0@ == bare_reply(
                be16(old(buffer).buf@[0], old(buffer).buf@[1]),
                ResultCode::FORMERR,
            ),
        },
{
    let hi = buffer.buf[0];
    let lo = buffer.buf[1];
    buffer.seek(0);
    match DnsPacket::from_buffer(buffer) {
        Ok(p) => Ok(p),
        Err(_) => Err(bare_reply_packet(((hi as u16) << 8u16) | (lo as u16), ResultCode::FORMERR)),
    }
}

/// Decides a query against the cache at time `now`. A query without
/// questions gets `FORMERR`. Otherwise its last question is looked up: on a
/// hit the reply echoes that question and carries the cached records; on a
/// miss the query, without its additional section, is forwarded upstream.
pub fn answer_query(cache: &mut Cache, request: DnsPacket, now: i64) -> (r: QueryStep)
    ensures
        request.questions@.len() == 0 ==> final(cache)@ == old(cache)@ && r is Reply && r->Reply_0@
            == bare_reply(request.header.id, ResultCode::FORMERR),
        request.questions@.len() > 0 ==> {
            let q = request.questions@.last();
            let hit = found(old(cache)@, q.name@, now);
            &&& final(cache)@ == after_find(old(cache)@, q.name@, now)
            &&& hit is Some ==> r is Reply && r->Reply_0@ == PacketModel {
                questions: seq![(q.name@, q.qtype)],
                answers: (hit->0).0,
                ..bare_reply(request.header.id, ResultCode::NOERROR)
            }
            &&& hit is None ==> r is Forward && r->Forward_0@ == forwarded(request@)
        },
{
    let n = request.questions.len();
    if n == 0 {
        return QueryStep::Reply(bare_reply_packet(request.header.id, ResultCode::FORMERR));
    }
    let question = request.questions[n - 1].duplicate();
    match cache.find(question.name.as_str(), now) {
        Some(entry) => {
            let mut packet = bare_reply_packet(request.header.id, ResultCode::NOERROR);
            let ghost q = (question.name@, question.qtype);
            packet.questions.push(question);
            packet.answers = entry.records;
            proof {
                assert(packet@.questions =~= seq![q]);
            }
            QueryStep::Reply(packet)
        },
        None => {
            let mut packet = request;
            packet.header.resource_entries = 0;
            packet.resources = Vec::new();
            proof {
                assert(packet@.resources =~= Seq::<RecordModel>::empty());
            }
            QueryStep::Forward(packet)
        },
    }
}

/// The reply to query `id` once upstream has answered, or failed to: the
/// upstream answer as it came, or `SERVFAIL`.
pub fn upstream_reply(id: u16, upstream: Option<DnsPacket>) -> (r: DnsPacket)
    ensures
        upstream is Some ==> r == upstream->0,
        upstream is None ==> r@ == bare_reply(id, ResultCode::SERVFAIL),
{
    match upstream {
        Some(p) => p,
        None => bare_reply_packet(id, ResultCode::SERVFAIL),
    }
}

} // verus!
