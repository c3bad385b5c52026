use vstd::prelude::*;

use crate::buffer::{
    be16, lemma_be16_round_trip, lemma_wrote_chain, u16_bytes, BytePacketBuffer, PACKET_SIZE,
};
use crate::error::DnsError;

verus! {

/// The response code of a DNS header.
#[derive(Copy, Clone, Debug, PartialEq, Eq, Structural)]
pub enum ResultCode {
    NOERROR,
    FORMERR,
    SERVFAIL,
    NXDOMAIN,
    NOTIMP,
    REFUSED,
}

/// The code a number stands for; unknown numbers read as `NOERROR`.
pub open spec fn result_code_of(num: u8) -> ResultCode {
    if num == 1 {
        ResultCode::FORMERR
    } else if num == 2 {
        ResultCode::SERVFAIL
    } else if num == 3 {
        ResultCode::NXDOMAIN
    } else if num == 4 {
        ResultCode::NOTIMP
    } else if num == 5 {
        ResultCode::REFUSED
    } else {
        ResultCode::NOERROR
    }
}

/// The number of a response code.
pub open spec fn result_code_num(c: ResultCode) -> u8 {
    match c {
        ResultCode::NOERROR => 0,
        ResultCode::FORMERR => 1,
        ResultCode::SERVFAIL => 2,
        ResultCode::NXDOMAIN => 3,
        ResultCode::NOTIMP => 4,
        ResultCode::REFUSED => 5,
    }
}

impl ResultCode {
    pub fn from_num(num: u8) -> (r: ResultCode)
        ensures
            r == result_code_of(num),
            num <= 5 ==> result_code_num(r) == num,
    {
        match num {
            1 => ResultCode::FORMERR,
            2 => ResultCode::SERVFAIL,
            3 => ResultCode::NXDOMAIN,
            4 => ResultCode::NOTIMP,
            5 => ResultCode::REFUSED,
            _ => ResultCode::NOERROR,
        }
    }

    pub fn to_num(&self) -> (r: u8)
        ensures
            r == result_code_num(*self),
            result_code_of(r) == *self,
    {
        match self {
            ResultCode::NOERROR => 0,
            ResultCode::FORMERR => 1,
            ResultCode::SERVFAIL => 2,
            ResultCode::NXDOMAIN => 3,
            ResultCode::NOTIMP => 4,
            ResultCode::REFUSED => 5,
        }
    }
}

/// The type of a DNS query or record.
#[derive(Copy, Clone, Debug, PartialEq, Eq, Hash, Structural)]
pub enum QueryType {
    UNKNOWN(u16),
    A,
    NS,
    CNAME,
    SOA,
    MX,
    TXT,
    AAAA,
    SRV,
    OPT,
}

/// The type a number stands for.
pub open spec fn query_type_of(num: u16) -> QueryType {
    if num == 1 {
        QueryType::A
    } else if num == 2 {
        QueryType::NS
    } else if num == 5 {
        QueryType::CNAME
    } else if num == 6 {
        QueryType::SOA
    } else if num == 15 {
        QueryType::MX
    } else if num == 16 {
        QueryType::TXT
    } else if num == 28 {
        QueryType::AAAA
    } else if num == 33 {
        QueryType::SRV
    } else if num == 41 {
        QueryType::OPT
    } else {
        QueryType::UNKNOWN(num)
    }
}

/// The number of a type.
pub open spec fn query_type_num(t: QueryType) -> u16 {
    match t {
        QueryType::UNKNOWN(x) => x,
        QueryType::A => 1,
        QueryType::NS => 2,
        QueryType::CNAME => 5,
        QueryType::SOA => 6,
        QueryType::MX => 15,
        QueryType::TXT => 16,
        QueryType::AAAA => 28,
        QueryType::SRV => 33,
        QueryType::OPT => 41,
    }
}

/// A type that numbering and reading back leaves unchanged: any named type,
/// or `UNKNOWN` of a number that no named type has.
pub open spec fn query_type_canonical(t: QueryType) -> bool {
    match t {
        QueryType::UNKNOWN(x) => query_type_of(x) == QueryType::UNKNOWN(x),
        _ => true,
    }
}

impl QueryType {
    pub fn to_num(&self) -> (r: u16)
        ensures
            r == query_type_num(*self),
            query_type_canonical(*self) ==> query_type_of(r) == *self,
    {
        match *self {
            QueryType::UNKNOWN(x) => x,
            QueryType::A => 1,
            QueryType::NS => 2,
            QueryType::CNAME => 5,
            QueryType::SOA => 6,
            QueryType::MX => 15,
            QueryType::TXT => 16,
            QueryType::AAAA => 28,
            QueryType::SRV => 33,
            QueryType::OPT => 41,
        }
    }

    pub fn from_num(num: u16) -> (r: QueryType)
        ensures
            r == query_type_of(num),
            query_type_num(r) == num,
            query_type_canonical(r),
    {
        match num {
            1 => QueryType::A,
            2 => QueryType::NS,
            5 => QueryType::CNAME,
            6 => QueryType::SOA,
            15 => QueryType::MX,
            16 => QueryType::TXT,
            28 => QueryType::AAAA,
            33 => QueryType::SRV,
            41 => QueryType::OPT,
            _ => QueryType::UNKNOWN(num),
        }
    }
}

/// The fixed 12-byte header of a DNS message.
#[derive(Copy, Clone, Debug, PartialEq, Eq, Structural)]
pub struct DnsHeader {
    pub id: u16,
    pub recursion_desired: bool,
    pub truncated_message: bool,
    pub authoritative_answer: bool,
    pub op_code: u8,
    pub response: bool,
    pub rescode: ResultCode,
    pub checking_disabled: bool,
    pub authed_data: bool,
    pub z: bool,
    pub recursion_available: bool,
    pub questions: u16,
    pub answers: u16,
    pub authoritative_entries: u16,
    pub resource_entries: u16,
}

/// One bit for a flag.
pub open spec fn bit(b: bool) -> u8 {
    if b {
        1
    } else {
        0
    }
}

/// The third header byte: RD, TC, AA, the 4-bit opcode and QR.
pub open spec fn flags_hi(h: DnsHeader) -> u8 {
    bit(h.recursion_desired) | (bit(h.truncated_message) << 1u8) | (bit(h.authoritative_answer)
        << 2u8) | ((h.op_code & 0x0F) << 3u8) | (bit(h.response) << 7u8)
}

/// The fourth header byte: RCODE, CD, AD, Z and RA.
pub open spec fn flags_lo(h: DnsHeader) -> u8 {
    result_code_num(h.rescode) | (bit(h.checking_disabled) << 4u8) | (bit(h.authed_data) << 5u8)
        | (bit(h.z) << 6u8) | (bit(h.recursion_available) << 7u8)
}

/// The wire form of a header.
pub open spec fn header_bytes(h: DnsHeader) -> Seq<u8> {
    u16_bytes(h.id) + seq![flags_hi(h), flags_lo(h)] + u16_bytes(h.questions) + u16_bytes(
        h.answers,
    ) + u16_bytes(h.authoritative_entries) + u16_bytes(h.resource_entries)
}

/// The header that twelve bytes encode.
pub open spec fn header_from(b: Seq<u8>) -> DnsHeader {
    let a = b[2];
    let c = b[3];
    DnsHeader {
        id: be16(b[0], b[1]),
        recursion_desired: a & 1 != 0,
        truncated_message: a & 2 != 0,
        authoritative_answer: a & 4 != 0,
        op_code: (a >> 3u8) & 0x0F,
        response: a & 0x80 != 0,
        rescode: result_code_of(c & 0x0F),
        checking_disabled: c & 0x10 != 0,
        authed_data: c & 0x20 != 0,
        z: c & 0x40 != 0,
        recursion_available: c & 0x80 != 0,
        questions: be16(b[4], b[5]),
        answers: be16(b[6], b[7]),
        authoritative_entries: be16(b[8], b[9]),
        resource_entries: be16(b[10], b[11]),
    }
}

/// A header with every field zero or false, and `NOERROR`.
pub open spec fn empty_header() -> DnsHeader {
    DnsHeader {
        id: 0,
        recursion_desired: false,
        truncated_message: false,
        authoritative_answer: false,
        op_code: 0,
        response: false,
        rescode: ResultCode::NOERROR,
        checking_disabled: false,
        authed_data: false,
        z: false,
        recursion_available: false,
        questions: 0,
        answers: 0,
        authoritative_entries: 0,
        resource_entries: 0,
    }
}

impl DnsHeader {
    pub fn new() -> (r: DnsHeader)
        ensures
            r == empty_header(),
    {
        DnsHeader {
            id: 0,
            recursion_desired: false,
            truncated_message: false,
            authoritative_answer: false,
            op_code: 0,
            response: false,
            rescode: ResultCode::NOERROR,
            checking_disabled: false,
            authed_data: false,
            z: false,
            recursion_available: false,
            questions: 0,
            answers: 0,
            authoritative_entries: 0,
            resource_entries: 0,
        }
    }

    /// Reads the twelve header bytes at the cursor.
    pub fn read(&mut self, buffer: &mut BytePacketBuffer) -> (r: Result<(), DnsError>)
        requires
            old(buffer).wf(),
        ensures
            final(buffer).wf(),
            final(buffer).buf == old(buffer).buf,
            final(buffer).max_size == old(buffer).max_size,
            old(buffer).pos + 12 <= PACKET_SIZE ==> r is Ok && *final(self) == header_from(
                old(buffer).buf@.subrange(old(buffer).pos as int, old(buffer).pos + 12),
            ) && final(buffer).pos == old(buffer).pos + 12,
            old(buffer).pos + 12 > PACKET_SIZE ==> r == Err::<(), DnsError>(DnsError::EndOfBuffer),
    {
        let ghost b = old(buffer).buf@.subrange(old(buffer).pos as int, old(buffer).pos + 12);
        self.id = buffer.read_u16()?;
        let a = buffer.read()?;
        let c = buffer.read()?;
        self.recursion_desired = a & 1 != 0;
        self.truncated_message = a & 2 != 0;
        self.authoritative_answer = a & 4 != 0;
        self.op_code = (a >> 3u8) & 0x0F;
        self.response = a & 0x80 != 0;
        self.rescode = ResultCode::from_num(c & 0x0F);
        self.checking_disabled = c & 0x10 != 0;
        self.authed_data = c & 0x20 != 0;
        self.z = c & 0x40 != 0;
        self.recursion_available = c & 0x80 != 0;
        self.questions = buffer.read_u16()?;
        self.answers = buffer.read_u16()?;
        self.authoritative_entries = buffer.read_u16()?;
        self.resource_entries = buffer.read_u16()?;
        Ok(())
    }

    /// Writes the twelve header bytes at the cursor.
    pub fn write(&self, buffer: &mut BytePacketBuffer)
        requires
            old(buffer).wf(),
        ensures
            final(buffer).wf(),
            final(buffer).wrote(old(buffer), header_bytes(*self)),
    {
        let ghost b0 = *buffer;
        buffer.write_u16(self.id);
        let ghost b1 = *buffer;
        buffer.write_u8(
            bit_of(self.recursion_desired) | (bit_of(self.truncated_message) << 1u8) | (bit_of(
                self.authoritative_answer,
            ) << 2u8) | ((self.op_code & 0x0F) << 3u8) | (bit_of(self.response) << 7u8),
        );
        let ghost b2 = *buffer;
        buffer.write_u8(
            self.rescode.to_num() | (bit_of(self.checking_disabled) << 4u8) | (bit_of(
                self.authed_data,
            ) << 5u8) | (bit_of(self.z) << 6u8) | (bit_of(self.recursion_available) << 7u8),
        );
        let ghost b3 = *buffer;
        buffer.write_u16(self.questions);
        let ghost b4 = *buffer;
        buffer.write_u16(self.answers);
        let ghost b5 = *buffer;
        buffer.write_u16(self.authoritative_entries);
        let ghost b6 = *buffer;
        buffer.write_u16(self.resource_entries);
        proof {
            let h = *self;
            let d0 = u16_bytes(h.id);
            let d1 = seq![flags_hi(h)];
            let d2 = seq![flags_lo(h)];
            let d3 = u16_bytes(h.questions);
            let d4 = u16_bytes(h.answers);
            let d5 = u16_bytes(h.authoritative_entries);
            let d6 = u16_bytes(h.resource_entries);
            lemma_wrote_chain(&b0, &b1, &b2, d0, d1);
            lemma_wrote_chain(&b0, &b2, &b3, d0 + d1, d2);
            lemma_wrote_chain(&b0, &b3, &b4, d0 + d1 + d2, d3);
            lemma_wrote_chain(&b0, &b4, &b5, d0 + d1 + d2 + d3, d4);
            lemma_wrote_chain(&b0, &b5, &b6, d0 + d1 + d2 + d3 + d4, d5);
            lemma_wrote_chain(&b0, &b6, buffer, d0 + d1 + d2 + d3 + d4 + d5, d6);
            assert(d0 + d1 + d2 + d3 + d4 + d5 + d6 =~= header_bytes(h));
        }
    }
}

pub fn bit_of(b: bool) -> (r: u8)
    ensures
        r == bit(b),
{
    if b {
        1
    } else {
        0
    }
}

/// Decoding the wire form of a header gives the header back, for a 4-bit
/// opcode.
pub proof fn lemma_header_round_trip(h: DnsHeader)
    requires
        h.op_code < 16,
    ensures
        header_bytes(h).len() == 12,
        header_from(header_bytes(h)) == h,
{
    let b = header_bytes(h);
    lemma_be16_round_trip(h.id);
    lemma_be16_round_trip(h.questions);
    lemma_be16_round_trip(h.answers);
    lemma_be16_round_trip(h.authoritative_entries);
    lemma_be16_round_trip(h.resource_entries);
    let a = flags_hi(h);
    let c = flags_lo(h);
    assert(b[2] == a && b[3] == c);
    let rd = bit(h.recursion_desired);
    let tc = bit(h.truncated_message);
    let aa = bit(h.authoritative_answer);
    let qr = bit(h.response);
    let op = h.op_code;
    assert(a == rd | (tc << 1u8) | (aa << 2u8) | ((op & 0x0F) << 3u8) | (qr << 7u8));
    assert({
        &&& (a & 1 != 0) == (rd == 1)
        &&& (a & 2 != 0) == (tc == 1)
        &&& (a & 4 != 0) == (aa == 1)
        &&& (a >> 3u8) & 0x0F == op
        &&& (a & 0x80 != 0) == (qr == 1)
    }) by (bit_vector)
        requires
            a == rd | (tc << 1u8) | (aa << 2u8) | ((op & 0x0F) << 3u8) | (qr << 7u8),
            rd <= 1 && tc <= 1 && aa <= 1 && qr <= 1,
            op < 16,
    ;
    let rc = result_code_num(h.rescode);
    let cd = bit(h.checking_disabled);
    let ad = bit(h.authed_data);
    let zz = bit(h.z);
    let ra = bit(h.recursion_available);
    assert(c == rc | (cd << 4u8) | (ad << 5u8) | (zz << 6u8) | (ra << 7u8));
    assert({
        &&& c & 0x0F == rc
        &&& (c & 0x10 != 0) == (cd == 1)
        &&& (c & 0x20 != 0) == (ad == 1)
        &&& (c & 0x40 != 0) == (zz == 1)
        &&& (c & 0x80 != 0) == (ra == 1)
    }) by (bit_vector)
        requires
            c == rc | (cd << 4u8) | (ad << 5u8) | (zz << 6u8) | (ra << 7u8),
            cd <= 1 && ad <= 1 && zz <= 1 && ra <= 1,
            rc <= 5,
    ;
}

} // verus!
