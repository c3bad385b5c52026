use vstd::prelude::*;
use vstd::slice::slice_subrange;

use crate::text::{lossy_string, text_bytes, text_eq_ignore_ascii_case, lower_bytes, lossy_text};

verus! {

/// The `=` that separates a name from its address in a static host file.
pub const EQUALS: u8 = 61;

/// The index of the first `=` in `b` from `i` on, if any.
pub open spec fn first_equals(b: Seq<u8>, i: int) -> Option<int>
    decreases b.len() - i,
{
    if i < 0 || i >= b.len() {
        None
    } else if b[i] == EQUALS {
        Some(i)
    } else {
        first_equals(b, i + 1)
    }
}

/// A host file line split at its first `=`: the name and the address text.
pub open spec fn host_line_parts(line: Seq<char>) -> Option<(Seq<char>, Seq<char>)> {
    let b = text_bytes(line);
    match first_equals(b, 0) {
        Some(k) => Some((lossy_text(b.subrange(0, k)), lossy_text(b.subrange(k + 1, b.len() as int)))),
        None => None,
    }
}

/// Splits a `host=addr` line at its first `=`; a line without one yields
/// nothing.
pub fn split_host_line(line: &str) -> (r: Option<(String, String)>)
    ensures
        match host_line_parts(line@) {
            Some((h, a)) => r is Some && (r->0).0@ == h && (r->0).1@ == a,
            None => r is None,
        },
{
    let b = line.as_bytes();
    proof {
        assert(b@ == text_bytes(line@));
    }
    let mut i: usize = 0;
    while i < b.len()
        invariant
            i <= b@.len(),
            b@ == text_bytes(line@),
            first_equals(b@, 0) == first_equals(b@, i as int),
        decreases b@.len() - i,
    {
        if b[i] == EQUALS {
            let host = lossy_string(slice_subrange(b, 0, i));
            let addr = lossy_string(slice_subrange(b, i + 1, b.len()));
            return Some((host, addr));
        }
        i = i + 1;
    }
    None
}

/// Whether a cache source names the cluster ingresses rather than a file.
pub open spec fn is_cluster_source(source: Seq<char>) -> bool {
    lower_bytes(text_bytes(source)) == lower_bytes(text_bytes("k8s"@))
}

/// Whether a cache source names the cluster ingresses (`k8s`, in any case)
/// rather than a host file.
pub fn is_k8s_source(source: &str) -> (r: bool)
    ensures
        r == is_cluster_source(source@),
{
    text_eq_ignore_ascii_case(source, "k8s")
}

} // verus!
