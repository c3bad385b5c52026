use vstd::prelude::*;

verus! {

/// Failures of the DNS wire codec.
#[derive(Debug, Clone, Copy, PartialEq, Eq, Structural)]
pub enum DnsError {
    /// A read went past the end of the buffer.
    EndOfBuffer,
    /// A name held more compression pointers than the decoder follows.
    JumpsExceeded,
    /// A name to encode held a label longer than 63 bytes.
    LabelTooLong,
}

impl DnsError {
    /// A short human-readable description of the error.
    pub fn message(&self) -> (r: &'static str)
        ensures
            *self == DnsError::EndOfBuffer ==> r@ == "end of buffer"@,
            *self == DnsError::JumpsExceeded ==> r@ == "jumps exceeded"@,
            *self == DnsError::LabelTooLong ==> r@ == "label too long"@,
    {
        match self {
            DnsError::EndOfBuffer => "end of buffer",
            DnsError::JumpsExceeded => "jumps exceeded",
            DnsError::LabelTooLong => "label too long",
        }
    }
}

} // verus!
