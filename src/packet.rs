use vstd::prelude::*;

use crate::buffer::{be16, lemma_wrote_chain, lemma_wrote_nothing, put, room, BytePacketBuffer, PACKET_SIZE};
use crate::error::DnsError;
use crate::header::{empty_header, header_bytes, header_from, query_type_of, DnsHeader, QueryType};
use crate::question::{question_bytes, DnsQuestion};
use crate::record::{name_at, record_at, record_bytes, record_names_fit, DnsRecord, RecordModel};
use crate::name::{lemma_qname_len, name_fits};
use crate::text::text_bytes;

verus! {

/// A DNS message: header, questions, and three sections of records.
#[derive(Clone, Debug)]
pub struct DnsPacket {
    pub header: DnsHeader,
    pub questions: Vec<DnsQuestion>,
    pub answers: Vec<DnsRecord>,
    pub authorities: Vec<DnsRecord>,
    pub resources: Vec<DnsRecord>,
}

/// What a message holds, with its texts as character sequences.
pub struct PacketModel {
    pub header: DnsHeader,
    pub questions: Seq<(Seq<char>, QueryType)>,
    pub answers: Seq<RecordModel>,
    pub authorities: Seq<RecordModel>,
    pub resources: Seq<RecordModel>,
}

/// The models of a run of records.
pub open spec fn models(v: Seq<DnsRecord>) -> Seq<RecordModel> {
    v.map_values(|r: DnsRecord| r@)
}

/// The models of a run of questions.
pub open spec fn question_models(v: Seq<DnsQuestion>) -> Seq<(Seq<char>, QueryType)> {
    v.map_values(|q: DnsQuestion| (q.name@, q.qtype))
}

impl View for DnsPacket {
    type V = PacketModel;

    open spec fn view(&self) -> PacketModel {
        PacketModel {
            header: self.header,
            questions: question_models(self.questions@),
            answers: models(self.answers@),
            authorities: models(self.authorities@),
            resources: models(self.resources@),
        }
    }
}

/// The question at `pos`, and where the cursor ends.
pub open spec fn question_at(buf: Seq<u8>, pos: int) -> Result<((Seq<char>, QueryType), int), DnsError> {
    match name_at(buf, pos) {
        Err(e) => Err(e),
        Ok((name, end)) => if end + 4 > buf.len() {
            Err(DnsError::EndOfBuffer)
        } else {
            Ok(((name, query_type_of(be16(buf[end], buf[end + 1]))), end + 4))
        },
    }
}

/// `n` questions one after the other from `pos`.
pub open spec fn questions_at(buf: Seq<u8>, pos: int, n: nat) -> Result<
    (Seq<(Seq<char>, QueryType)>, int),
    DnsError,
>
    decreases n,
{
    if n == 0 {
        Ok((Seq::empty(), pos))
    } else {
        match question_at(buf, pos) {
            Err(e) => Err(e),
            Ok((q, p)) => match questions_at(buf, p, (n - 1) as nat) {
                Err(e) => Err(e),
                Ok((qs, end)) => Ok((seq![q] + qs, end)),
            },
        }
    }
}

/// `n` records one after the other from `pos`.
pub open spec fn records_at(buf: Seq<u8>, pos: int, n: nat) -> Result<(Seq<RecordModel>, int), DnsError>
    decreases n,
{
    if n == 0 {
        Ok((Seq::empty(), pos))
    } else {
        match record_at(buf, pos) {
            Err(e) => Err(e),
            Ok((r, p)) => match records_at(buf, p, (n - 1) as nat) {
                Err(e) => Err(e),
                Ok((rs, end)) => Ok((seq![r] + rs, end)),
            },
        }
    }
}

/// The message that the bytes at `pos` encode: a header, then as many
/// questions and records as its counts say.
pub open spec fn packet_at(buf: Seq<u8>, pos: int) -> Result<PacketModel, DnsError> {
    if pos + 12 > buf.len() {
        Err(DnsError::EndOfBuffer)
    } else {
        let h = header_from(buf.subrange(pos, pos + 12));
        match questions_at(buf, pos + 12, h.questions as nat) {
            Err(e) => Err(e),
            Ok((qs, after_qs)) => match records_at(buf, after_qs, h.answers as nat) {
                Err(e) => Err(e),
                Ok((an, after_an)) => match records_at(buf, after_an, h.authoritative_entries as nat) {
                    Err(e) => Err(e),
                    Ok((ns, after_ns)) => match records_at(buf, after_ns, h.resource_entries as nat) {
                        Err(e) => Err(e),
                        Ok((ar, _)) => Ok(
                            PacketModel {
                                header: h,
                                questions: qs,
                                answers: an,
                                authorities: ns,
                                resources: ar,
                            },
                        ),
                    },
                },
            },
        }
    }
}

/// The wire form of a run of questions.
pub open spec fn questions_bytes(qs: Seq<(Seq<char>, QueryType)>) -> Seq<u8>
    decreases qs.len(),
{
    if qs.len() == 0 {
        Seq::<u8>::empty()
    } else {
        questions_bytes(qs.drop_last()) + question_bytes(qs.last().0, qs.last().1)
    }
}

/// The wire form of a run of records.
pub open spec fn records_bytes(rs: Seq<RecordModel>) -> Seq<u8>
    decreases rs.len(),
{
    if rs.len() == 0 {
        Seq::<u8>::empty()
    } else {
        records_bytes(rs.drop_last()) + record_bytes(rs.last())
    }
}

/// How many records of the run are written: all but those of unknown type.
pub open spec fn known_count(rs: Seq<RecordModel>) -> nat
    decreases rs.len(),
{
    if rs.len() == 0 {
        0
    } else {
        known_count(rs.drop_last()) + if rs.last() is Unknown {
            0nat
        } else {
            1nat
        }
    }
}

/// Scans a section from index `i` with `room` bytes left: records of unknown
/// type are passed over, the others are kept while they fit. Gives how many
/// leading records are kept, the room left, and whether a record did not
/// fit.
pub open spec fn scan_from(s: Seq<RecordModel>, i: int, room: int) -> (int, int, bool)
    decreases s.len() - i,
{
    if i < 0 || i >= s.len() {
        (s.len() as int, room, false)
    } else if s[i] is Unknown {
        scan_from(s, i + 1, room)
    } else if record_bytes(s[i]).len() <= room {
        scan_from(s, i + 1, room - record_bytes(s[i]).len())
    } else {
        (i, room, true)
    }
}

/// For a message written into a buffer with ceiling `max`: how many leading
/// records of each section fit after the header and the questions, and
/// whether some record had to be left out.
pub open spec fn write_plan(p: PacketModel, max: int) -> (int, int, int, bool) {
    let r0 = max - 12 - questions_bytes(p.questions).len();
    let (ka, r1, sa) = scan_from(p.answers, 0, r0);
    if sa {
        (ka, 0, 0, true)
    } else {
        let (kb, r2, sb) = scan_from(p.authorities, 0, r1);
        if sb {
            (ka, kb, 0, true)
        } else {
            let (kc, r3, sc) = scan_from(p.resources, 0, r2);
            (ka, kb, kc, sc)
        }
    }
}

/// The header sent with the message: counts of what was written, and the
/// truncation flag raised when a record was left out.
pub open spec fn sent_header(p: PacketModel, max: int) -> DnsHeader {
    let (ka, kb, kc, t) = write_plan(p, max);
    DnsHeader {
        questions: (p.questions.len() % 65536) as u16,
        answers: (known_count(p.answers.take(ka)) % 65536) as u16,
        authoritative_entries: (known_count(p.authorities.take(kb)) % 65536) as u16,
        resource_entries: (known_count(p.resources.take(kc)) % 65536) as u16,
        truncated_message: p.header.truncated_message || t,
        ..p.header
    }
}

/// The bytes of the message as sent: header, questions, and the records
/// that fit.
pub open spec fn sent_bytes(p: PacketModel, max: int) -> Seq<u8> {
    let (ka, kb, kc, t) = write_plan(p, max);
    header_bytes(sent_header(p, max)) + questions_bytes(p.questions) + records_bytes(
        p.answers.take(ka),
    ) + records_bytes(p.authorities.take(kb)) + records_bytes(p.resources.take(kc))
}

/// Every name of the message can be encoded.
pub open spec fn packet_names_fit(p: PacketModel) -> bool {
    &&& forall|i: int| 0 <= i < p.questions.len() ==> name_fits(text_bytes(#[trigger] p.questions[i].0))
    &&& forall|i: int| 0 <= i < p.answers.len() ==> record_names_fit(#[trigger] p.answers[i])
    &&& forall|i: int| 0 <= i < p.authorities.len() ==> record_names_fit(#[trigger] p.authorities[i])
    &&& forall|i: int| 0 <= i < p.resources.len() ==> record_names_fit(#[trigger] p.resources[i])
}

/// Whether every record of the run can be encoded.
fn records_encodable(recs: &Vec<DnsRecord>) -> (r: bool)
    ensures
        r == forall|i: int| 0 <= i < recs@.len() ==> record_names_fit(#[trigger] models(recs@)[i]),
{
    let mut scratch = BytePacketBuffer::new();
    let mut i: usize = 0;
    while i < recs.len()
        invariant
            i <= recs@.len(),
            scratch.wf(),
            forall|j: int| 0 <= j < i ==> record_names_fit(#[trigger] models(recs@)[j]),
        decreases recs@.len() - i,
    {
        if recs[i].write(&mut scratch).is_err() {
            assert(models(recs@)[i as int] == recs@[i as int]@);
            return false;
        }
        i = i + 1;
    }
    true
}

/// Whether every question of the run can be encoded.
fn questions_encodable(qs: &Vec<DnsQuestion>) -> (r: bool)
    ensures
        r == forall|i: int| 0 <= i < qs@.len() ==> name_fits(text_bytes(#[trigger] question_models(qs@)[i].0)),
{
    let mut scratch = BytePacketBuffer::new();
    let mut i: usize = 0;
    while i < qs.len()
        invariant
            i <= qs@.len(),
            scratch.wf(),
            forall|j: int| 0 <= j < i ==> name_fits(text_bytes(#[trigger] question_models(qs@)[j].0)),
        decreases qs@.len() - i,
    {
        if qs[i].write(&mut scratch).is_err() {
            assert(question_models(qs@)[i as int].0 == qs@[i as int].name@);
            return false;
        }
        i = i + 1;
    }
    true
}

/// The room left after the header and the questions below ceiling `max`;
/// `neg` when they do not fit.
fn room_after_questions(qs: &Vec<DnsQuestion>, max: usize) -> (r: (usize, bool))
    ensures
        r.1 ==> max - 12 - questions_bytes(question_models(qs@)).len() < 0,
        !r.1 ==> r.0 == max - 12 - questions_bytes(question_models(qs@)).len(),
{
    if max < 12 {
        return (0, true);
    }
    let mut left: usize = max - 12;
    let mut i: usize = 0;
    proof {
        assert(question_models(qs@).take(0) =~= Seq::<(Seq<char>, QueryType)>::empty());
    }
    while i < qs.len()
        invariant
            i <= qs@.len(),
            left == max - 12 - questions_bytes(question_models(qs@).take(i as int)).len(),
        decreases qs@.len() - i,
    {
        let n = qs[i].name.as_str().as_bytes().len();
        proof {
            lemma_qname_len(text_bytes(qs@[i as int].name@));
            let m = question_models(qs@);
            assert(m.take(i + 1).drop_last() =~= m.take(i as int));
        }
        if n > left || left - n < 6 {
            proof {
                lemma_questions_bytes_grow(question_models(qs@), i + 1);
            }
            return (0, true);
        }
        left = left - n - 6;
        i = i + 1;
    }
    proof {
        assert(question_models(qs@).take(i as int) =~= question_models(qs@));
    }
    (left, false)
}

/// The wire form of a run of questions is at least as long as that of any
/// of its prefixes.
pub proof fn lemma_questions_bytes_grow(qs: Seq<(Seq<char>, QueryType)>, j: int)
    requires
        0 <= j <= qs.len(),
    ensures
        questions_bytes(qs.take(j)).len() <= questions_bytes(qs).len(),
    decreases qs.len() - j,
{
    if j < qs.len() {
        lemma_questions_bytes_grow(qs, j + 1);
        assert(qs.take(j + 1).drop_last() =~= qs.take(j));
    } else {
        assert(qs.take(j) =~= qs);
    }
}

/// Runs `scan_from` over a section, with the room given as a count and a
/// flag for a negative room.
fn scan_section(recs: &Vec<DnsRecord>, room: usize, neg: bool, Ghost(spec_room): Ghost<int>) -> (r: (
    usize,
    usize,
    bool,
    bool,
))
    requires
        neg ==> spec_room < 0,
        !neg ==> room == spec_room,
    ensures
        r.0 == scan_from(models(recs@), 0, spec_room).0,
        r.3 == scan_from(models(recs@), 0, spec_room).2,
        r.2 ==> scan_from(models(recs@), 0, spec_room).1 < 0,
        !r.2 ==> r.1 == scan_from(models(recs@), 0, spec_room).1,
{
    let ghost s = models(recs@);
    let mut i: usize = 0;
    let mut left = room;
    let ghost mut sr = spec_room;
    while i < recs.len()
        invariant
            i <= recs@.len(),
            s == models(recs@),
            neg ==> sr < 0,
            !neg ==> left == sr,
            scan_from(s, 0, spec_room) == scan_from(s, i as int, sr),
        decreases recs@.len() - i,
    {
        let rec = &recs[i];
        if rec.is_unknown() {
        } else if neg {
            proof {
                crate::record::lemma_record_len(s[i as int]);
            }
            return (i, left, neg, true);
        } else {
            match rec.room_after(left) {
                None => {
                    return (i, left, neg, true);
                },
                Some(l) => {
                    proof {
                        sr = sr - record_bytes(s[i as int]).len();
                    }
                    left = l;
                },
            }
        }
        i = i + 1;
    }
    (i, left, neg, false)
}

/// How many records among the first `upto` are of a known type.
fn known_in(recs: &Vec<DnsRecord>, upto: usize) -> (r: usize)
    requires
        upto <= recs@.len(),
    ensures
        r == known_count(models(recs@).take(upto as int)),
{
    let mut i: usize = 0;
    let mut n: usize = 0;
    proof {
        assert(models(recs@).take(0) =~= Seq::<RecordModel>::empty());
    }
    while i < upto
        invariant
            i <= upto <= recs@.len(),
            n == known_count(models(recs@).take(i as int)),
            n <= i,
        decreases upto - i,
    {
        proof {
            assert(models(recs@).take(i + 1).drop_last() =~= models(recs@).take(i as int));
        }
        if !recs[i].is_unknown() {
            n = n + 1;
        }
        i = i + 1;
    }
    n
}

/// Writes the first `k` records of a run.
fn write_records(buffer: &mut BytePacketBuffer, recs: &Vec<DnsRecord>, k: usize)
    requires
        old(buffer).wf(),
        k <= recs@.len(),
        forall|i: int| 0 <= i < recs@.len() ==> record_names_fit(#[trigger] models(recs@)[i]),
    ensures
        final(buffer).wf(),
        final(buffer).wrote(old(buffer), records_bytes(models(recs@).take(k as int))),
{
    let ghost b0 = *buffer;
    let mut i: usize = 0;
    proof {
        lemma_wrote_nothing(buffer);
        assert(models(recs@).take(0) =~= Seq::<RecordModel>::empty());
    }
    while i < k
        invariant
            i <= k <= recs@.len(),
            buffer.wf(),
            b0.wf(),
            b0 == *old(buffer),
            forall|j: int| 0 <= j < recs@.len() ==> record_names_fit(#[trigger] models(recs@)[j]),
            buffer.wrote(&b0, records_bytes(models(recs@).take(i as int))),
        decreases k - i,
    {
        let ghost mid = *buffer;
        assert(record_names_fit(models(recs@)[i as int]));
        let _ = recs[i].write(buffer);
        proof {
            let m = models(recs@);
            lemma_wrote_chain(&b0, &mid, buffer, records_bytes(m.take(i as int)), record_bytes(m[i as int]));
            assert(m.take(i + 1).drop_last() =~= m.take(i as int));
        }
        i = i + 1;
    }
}

/// Writes all the questions of a run.
fn write_questions(buffer: &mut BytePacketBuffer, qs: &Vec<DnsQuestion>)
    requires
        old(buffer).wf(),
        forall|i: int| 0 <= i < qs@.len() ==> name_fits(text_bytes(#[trigger] question_models(qs@)[i].0)),
    ensures
        final(buffer).wf(),
        final(buffer).wrote(old(buffer), questions_bytes(question_models(qs@))),
{
    let ghost b0 = *buffer;
    let mut i: usize = 0;
    proof {
        lemma_wrote_nothing(buffer);
        assert(question_models(qs@).take(0) =~= Seq::<(Seq<char>, QueryType)>::empty());
    }
    while i < qs.len()
        invariant
            i <= qs@.len(),
            buffer.wf(),
            b0.wf(),
            b0 == *old(buffer),
            forall|j: int| 0 <= j < qs@.len() ==> name_fits(text_bytes(#[trigger] question_models(qs@)[j].0)),
            buffer.wrote(&b0, questions_bytes(question_models(qs@).take(i as int))),
        decreases qs@.len() - i,
    {
        let ghost mid = *buffer;
        assert(name_fits(text_bytes(question_models(qs@)[i as int].0)));
        let _ = qs[i].write(buffer);
        proof {
            let m = question_models(qs@);
            lemma_wrote_chain(&b0, &mid, buffer, questions_bytes(m.take(i as int)), question_bytes(m[i as int].0, m[i as int].1));
            assert(m.take(i + 1).drop_last() =~= m.take(i as int));
        }
        i = i + 1;
    }
    proof {
        assert(question_models(qs@).take(i as int) =~= question_models(qs@));
    }
}

/// Reads `n` records from the cursor.
fn read_records(buffer: &mut BytePacketBuffer, n: u16) -> (r: Result<Vec<DnsRecord>, DnsError>)
    requires
        old(buffer).wf(),
    ensures
        final(buffer).wf(),
        final(buffer).buf == old(buffer).buf,
        final(buffer).max_size == old(buffer).max_size,
        match records_at(old(buffer).buf@, old(buffer).pos as int, n as nat) {
            Ok((rs, end)) => r is Ok && models(r->Ok_0@) == rs && final(buffer).pos == end,
            Err(e) => r == Err::<Vec<DnsRecord>, DnsError>(e),
        },
{
    let ghost buf = buffer.buf@;
    let ghost start = buffer.pos as int;
    let mut out: Vec<DnsRecord> = Vec::new();
    let mut i: u16 = 0;
    while i < n
        invariant
            i <= n,
            buffer.wf(),
            buffer.buf == old(buffer).buf,
            buffer.buf@ == buf,
            buffer.max_size == old(buffer).max_size,
            start == old(buffer).pos,
            records_at(buf, start, n as nat) == match records_at(buf, buffer.pos as int, (n - i) as nat) {
                Ok((rs, end)) => Ok((models(out@) + rs, end)),
                Err(e) => Err::<(Seq<RecordModel>, int), DnsError>(e),
            },
        decreases n - i,
    {
        let ghost pos = buffer.pos as int;
        let rec = DnsRecord::read(buffer)?;
        proof {
            let rest = records_at(buf, buffer.pos as int, (n - i - 1) as nat);
            match rest {
                Ok((rs, end)) => {
                    assert(models(out@.push(rec)) =~= models(out@).push(rec@));
                    assert(models(out@) + (seq![rec@] + rs) =~= models(out@.push(rec)) + rs);
                },
                Err(e) => {},
            }
        }
        out.push(rec);
        i = i + 1;
    }
    proof {
        assert(models(out@) + Seq::<RecordModel>::empty() =~= models(out@));
    }
    Ok(out)
}

impl DnsPacket {
    pub fn new() -> (r: DnsPacket)
        ensures
            r.header == empty_header(),
            r.questions@.len() == 0,
            r.answers@.len() == 0,
            r.authorities@.len() == 0,
            r.resources@.len() == 0,
    {
        DnsPacket {
            header: DnsHeader::new(),
            questions: Vec::new(),
            answers: Vec::new(),
            authorities: Vec::new(),
            resources: Vec::new(),
        }
    }

    /// Reads a whole message from the cursor.
    pub fn from_buffer(buffer: &mut BytePacketBuffer) -> (r: Result<DnsPacket, DnsError>)
        requires
            old(buffer).wf(),
        ensures
            final(buffer).wf(),
            final(buffer).buf == old(buffer).buf,
            match packet_at(old(buffer).buf@, old(buffer).pos as int) {
                Ok(p) => r is Ok && r->Ok_0@ == p,
                Err(e) => r == Err::<DnsPacket, DnsError>(e),
            },
    {
        let mut result = DnsPacket::new();
        result.header.read(buffer)?;
        let ghost buf = buffer.buf@;
        let ghost after_qs = buffer.pos as int;
        let n = result.header.questions;
        let mut i: u16 = 0;
        while i < n
            invariant
                i <= n,
                n == result.header.questions,
                buffer.wf(),
                buffer.buf == old(buffer).buf,
                buffer.buf@ == buf,
                buffer.max_size == old(buffer).max_size,
                result.answers@.len() == 0,
                result.authorities@.len() == 0,
                result.resources@.len() == 0,
                old(buffer).pos + 12 <= PACKET_SIZE,
                after_qs == old(buffer).pos + 12,
                result.header == header_from(buf.subrange(old(buffer).pos as int, old(buffer).pos + 12)),
                questions_at(buf, after_qs, n as nat) == match questions_at(buf, buffer.pos as int, (n - i) as nat) {
                    Ok((qs, end)) => Ok((question_models(result.questions@) + qs, end)),
                    Err(e) => Err::<(Seq<(Seq<char>, QueryType)>, int), DnsError>(e),
                },
            decreases n - i,
        {
            let mut question = DnsQuestion::new(String::new(), QueryType::UNKNOWN(0));
            question.read(buffer)?;
            proof {
                assert(Seq::<char>::empty() + question.name@ =~= question.name@) ;
                let rest = questions_at(buf, buffer.pos as int, (n - i - 1) as nat);
                let qm = (question.name@, question.qtype);
                match rest {
                    Ok((qs, end)) => {
                        assert(question_models(result.questions@.push(question)) =~= question_models(
                            result.questions@,
                        ).push(qm));
                        assert(question_models(result.questions@) + (seq![qm] + qs) =~= question_models(
                            result.questions@.push(question),
                        ) + qs);
                    },
                    Err(e) => {},
                }
            }
            result.questions.push(question);
            i = i + 1;
        }
        proof {
            assert(question_models(result.questions@) + Seq::<(Seq<char>, QueryType)>::empty()
                =~= question_models(result.questions@));
        }
        result.answers = read_records(buffer, result.header.answers)?;
        result.authorities = read_records(buffer, result.header.authoritative_entries)?;
        result.resources = read_records(buffer, result.header.resource_entries)?;
        Ok(result)
    }

    /// Writes the message from the start of the buffer. When not every record
    /// fits below the ceiling, writing stops at the first record that does
    /// not fit, the header counts only what was written and raises its
    /// truncation flag; the datagram stays well-formed. The header of `self`
    /// is updated to the one sent. Fails with `LabelTooLong`, leaving both
    /// unchanged, when a name of the message cannot be encoded.
    #[verifier::spinoff_prover]
    #[verifier::rlimit(60)]
    pub fn write(&mut self, buffer: &mut BytePacketBuffer) -> (r: Result<(), DnsError>)
        requires
            old(buffer).wf(),
        ensures
            final(buffer).wf(),
            final(buffer).max_size == old(buffer).max_size,
            r is Ok <==> packet_names_fit(old(self)@),
            r is Err ==> *final(self) == *old(self) && *final(buffer) == *old(buffer),
            r is Ok ==> final(self)@ == (PacketModel {
                header: sent_header(old(self)@, old(buffer).max_size as int),
                ..old(self)@
            }),
            r is Ok ==> final(buffer).pos == room(
                0,
                old(buffer).max_size as int,
                sent_bytes(old(self)@, old(buffer).max_size as int).len() as int,
            ),
            r is Ok ==> final(buffer).buf@ == put(
                Seq::new(PACKET_SIZE as nat, |i: int| 0u8),
                0,
                old(buffer).max_size as int,
                sent_bytes(old(self)@, old(buffer).max_size as int),
            ),
    {
        let ghost p = self@;
        let okq = questions_encodable(&self.questions);
        let oka = records_encodable(&self.answers);
        let okb = records_encodable(&self.authorities);
        let okc = records_encodable(&self.resources);
        if !(okq && oka && okb && okc) {
            return Err(DnsError::LabelTooLong);
        }
        let max = buffer.max_size;
        let ghost r0 = max - 12 - questions_bytes(p.questions).len();
        let (room0, neg0) = room_after_questions(&self.questions, max);
        let (ka, room1, neg1, sa) = scan_section(&self.answers, room0, neg0, Ghost(r0));
        let ghost r1 = scan_from(p.answers, 0, r0).1;
        let mut kb: usize = 0;
        let mut kc: usize = 0;
        let mut truncated = true;
        if !sa {
            let (b, room2, neg2, sb) = scan_section(&self.authorities, room1, neg1, Ghost(r1));
            let ghost r2 = scan_from(p.authorities, 0, r1).1;
            kb = b;
            if !sb {
                let (c, _room3, _neg3, sc) = scan_section(&self.resources, room2, neg2, Ghost(r2));
                kc = c;
                truncated = sc;
            }
        }
        proof {
            lemma_scan_bound(p.answers, 0, r0);
            lemma_scan_bound(p.authorities, 0, r1);
            let r2 = scan_from(p.authorities, 0, r1).1;
            lemma_scan_bound(p.resources, 0, r2);
            assert(write_plan(p, max as int) == (ka as int, kb as int, kc as int, truncated));
        }
        let na = known_in(&self.answers, ka);
        let nb = known_in(&self.authorities, kb);
        let nc = known_in(&self.resources, kc);
        self.header.questions = (self.questions.len() % 65536) as u16;
        self.header.answers = (na % 65536) as u16;
        self.header.authoritative_entries = (nb % 65536) as u16;
        self.header.resource_entries = (nc % 65536) as u16;
        self.header.truncated_message = self.header.truncated_message || truncated;
        assert(self.header == sent_header(p, max as int));
        buffer.reset();
        let ghost b0 = *buffer;
        self.header.write(buffer);
        let ghost b1 = *buffer;
        write_questions(buffer, &self.questions);
        let ghost b2 = *buffer;
        write_records(buffer, &self.answers, ka);
        let ghost b3 = *buffer;
        write_records(buffer, &self.authorities, kb);
        let ghost b4 = *buffer;
        write_records(buffer, &self.resources, kc);
        proof {
            let h = header_bytes(self.header);
            let q = questions_bytes(p.questions);
            let a = records_bytes(p.answers.take(ka as int));
            let b = records_bytes(p.authorities.take(kb as int));
            let c = records_bytes(p.resources.take(kc as int));
            lemma_wrote_chain(&b0, &b1, &b2, h, q);
            lemma_wrote_chain(&b0, &b2, &b3, h + q, a);
            lemma_wrote_chain(&b0, &b3, &b4, h + q + a, b);
            lemma_wrote_chain(&b0, &b4, buffer, h + q + a + b, c);
        }
        Ok(())
    }
}

/// A scan keeps at most the whole section.
pub proof fn lemma_scan_bound(s: Seq<RecordModel>, i: int, room: int)
    requires
        0 <= i <= s.len(),
    ensures
        0 <= scan_from(s, i, room).0 <= s.len(),
    decreases s.len() - i,
{
    if i < s.len() {
        if s[i] is Unknown {
            lemma_scan_bound(s, i + 1, room);
        } else if record_bytes(s[i]).len() <= room {
            lemma_scan_bound(s, i + 1, room - record_bytes(s[i]).len());
        }
    }
}

} // verus!
