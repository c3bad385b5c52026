use vstd::prelude::*;

use crate::buffer::{be16, lemma_wrote_chain, u16_bytes, BytePacketBuffer, PACKET_SIZE};
use crate::error::DnsError;
use crate::header::{query_type_num, query_type_of, QueryType};
use crate::name::{join_labels, name_fits, qname_bytes, walk_name};
use crate::text::{text_bytes, lossy_text};

verus! {

/// The class every question and record of this system carries: IN.
pub const CLASS_IN: u16 = 1;

/// One entry of the question section: a name and a query type.
#[derive(Debug, Clone, PartialEq, Eq)]
pub struct DnsQuestion {
    pub name: String,
    pub qtype: QueryType,
}

/// The wire form of a question.
pub open spec fn question_bytes(name: Seq<char>, qtype: QueryType) -> Seq<u8> {
    qname_bytes(text_bytes(name)) + u16_bytes(query_type_num(qtype)) + u16_bytes(CLASS_IN)
}

impl DnsQuestion {
    pub fn new(name: String, qtype: QueryType) -> (r: DnsQuestion)
        ensures
            r.name == name,
            r.qtype == qtype,
    {
        DnsQuestion { name, qtype }
    }

    /// A copy of the question.
    pub fn duplicate(&self) -> (r: DnsQuestion)
        ensures
            r.name@ == self.name@,
            r.qtype == self.qtype,
    {
        DnsQuestion { name: self.name.clone(), qtype: self.qtype }
    }

    /// Reads a question at the cursor: its name, appended to `self.name`,
    /// its type, and its class, which is skipped.
    pub fn read(&mut self, buffer: &mut BytePacketBuffer) -> (r: Result<(), DnsError>)
        requires
            old(buffer).wf(),
        ensures
            final(buffer).wf(),
            final(buffer).buf == old(buffer).buf,
            final(buffer).max_size == old(buffer).max_size,
            match walk_name(old(buffer).buf@, old(buffer).pos as int, 0) {
                Err(e) => r == Err::<(), DnsError>(e),
                Ok((ls, end)) => if end + 4 <= PACKET_SIZE {
                    &&& r is Ok
                    &&& final(self).name@ == old(self).name@ + lossy_text(join_labels(ls))
                    &&& final(self).qtype == query_type_of(
                        be16(old(buffer).buf@[end], old(buffer).buf@[end + 1]),
                    )
                    &&& final(buffer).pos == end + 4
                } else {
                    r == Err::<(), DnsError>(DnsError::EndOfBuffer)
                },
            },
    {
        buffer.read_qname(&mut self.name)?;
        self.qtype = QueryType::from_num(buffer.read_u16()?);
        let _class = buffer.read_u16()?;
        Ok(())
    }

    /// Writes the question at the cursor; fails with `LabelTooLong` when its
    /// name cannot be encoded. On success returns how far the cursor moved.
    pub fn write(&self, buffer: &mut BytePacketBuffer) -> (r: Result<usize, DnsError>)
        requires
            old(buffer).wf(),
        ensures
            final(buffer).wf(),
            final(buffer).max_size == old(buffer).max_size,
            r is Ok <==> name_fits(text_bytes(self.name@)),
            r is Ok ==> final(buffer).wrote(old(buffer), question_bytes(self.name@, self.qtype))
                && r->Ok_0 == final(buffer).pos - old(buffer).pos,
    {
        let start = buffer.pos;
        let ghost b0 = *buffer;
        buffer.write_qname(self.name.as_str())?;
        let ghost b1 = *buffer;
        buffer.write_u16(self.qtype.to_num());
        let ghost b2 = *buffer;
        buffer.write_u16(CLASS_IN);
        proof {
            let d0 = qname_bytes(text_bytes(self.name@));
            let d1 = u16_bytes(query_type_num(self.qtype));
            lemma_wrote_chain(&b0, &b1, &b2, d0, d1);
            lemma_wrote_chain(&b0, &b2, buffer, d0 + d1, u16_bytes(CLASS_IN));
        }
        Ok(buffer.pos - start)
    }
}

} // verus!
