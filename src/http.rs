use vstd::prelude::*;

use crate::routes::ProxyError;
use crate::text::{lossy_string, text_eq, lossy_text};

verus! {

/// The header fields, name and value, that `httparse` reads from the head
/// of an HTTP/1.x request.
pub uninterp spec fn http_header_fields(data: Seq<u8>) -> Seq<(Seq<char>, Seq<u8>)>;

/// The name and value views of a run of header fields.
pub open spec fn fields_view(v: Seq<(String, Vec<u8>)>) -> Seq<(Seq<char>, Seq<u8>)> {
    v.map_values(|f: (String, Vec<u8>)| (f.0@, f.1@))
}

/// Relies on `httparse::Request::parse` over 64 header slots: the fields it
/// has read, also when the head is partial or malformed.
#[verifier::external_body]
fn parse_header_fields(data: &[u8]) -> (r: Vec<(String, Vec<u8>)>)
    ensures
        fields_view(r@) == http_header_fields(data@),
{
    let mut headers = [httparse::EMPTY_HEADER; 64];
    let mut req = httparse::Request::new(&mut headers);
    let _ = req.parse(data);
    req.headers.iter().map(|h| (h.name.to_string(), h.value.to_vec())).collect()
}

/// The value of the first field named exactly `Host`, from index `i` on.
pub open spec fn host_field(fields: Seq<(Seq<char>, Seq<u8>)>, i: int) -> Option<Seq<u8>>
    decreases fields.len() - i,
{
    if i < 0 || i >= fields.len() {
        None
    } else if fields[i].0 == "Host"@ {
        Some(fields[i].1)
    } else {
        host_field(fields, i + 1)
    }
}

/// The `Host` of a request whose head has these fields.
pub open spec fn host_of(fields: Seq<(Seq<char>, Seq<u8>)>) -> Result<Seq<char>, ProxyError> {
    match host_field(fields, 0) {
        Some(v) => Ok(lossy_text(v)),
        None => Err(ProxyError::HostNotFound),
    }
}

/// The value of the first field named exactly `Host`, as text.
pub fn find_host(fields: &Vec<(String, Vec<u8>)>) -> (r: Result<String, ProxyError>)
    ensures
        match host_of(fields_view(fields@)) {
            Ok(h) => r is Ok && r->Ok_0@ == h,
            Err(e) => r == Err::<String, ProxyError>(e),
        },
{
    let ghost f = fields_view(fields@);
    let mut i: usize = 0;
    while i < fields.len()
        invariant
            i <= fields@.len(),
            f == fields_view(fields@),
            host_field(f, 0) == host_field(f, i as int),
        decreases fields@.len() - i,
    {
        if text_eq(fields[i].0.as_str(), "Host") {
            return Ok(lossy_string(fields[i].1.as_slice()));
        }
        i = i + 1;
    }
    Err(ProxyError::HostNotFound)
}

/// The `Host` header of an HTTP request whose head starts `data`.
pub fn get_host(data: &[u8]) -> (r: Result<String, ProxyError>)
    ensures
        match host_of(http_header_fields(data@)) {
            Ok(h) => r is Ok && r->Ok_0@ == h,
            Err(e) => r == Err::<String, ProxyError>(e),
        },
{
    let fields = parse_header_fields(data);
    find_host(&fields)
}

} // verus!
