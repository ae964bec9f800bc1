use vstd::prelude::*;
use vstd::string::StringSliceAdditionalSpecFns;
use crate::bytes::{append_bytes, ascii_bytes, ascii_literal, contains_subslice, has_subslice};

verus! {

/// The probe sent to an upstream: `GET <path> HTTP/1.1` with a `Host` header.
pub open spec fn probe_bytes(path: Seq<u8>) -> Seq<u8> {
    ascii_bytes("GET "@) + path + ascii_bytes(" HTTP/1.1\r\nHost: localhost\r\n\r\n"@)
}

/// The status text that marks a healthy upstream.
pub open spec fn ok_status() -> Seq<u8> {
    ascii_bytes("200 OK"@)
}

/// The bytes of the health-check request for `path`.
pub fn health_check_request(path: &str) -> (r: Vec<u8>)
    ensures
        r@ == probe_bytes(path.spec_bytes()),
{
    proof {
        reveal_strlit("GET ");
        reveal_strlit(" HTTP/1.1\r\nHost: localhost\r\n\r\n");
    }
    let mut out = ascii_literal("GET ");
    append_bytes(&mut out, path.as_bytes());
    let tail = ascii_literal(" HTTP/1.1\r\nHost: localhost\r\n\r\n");
    append_bytes(&mut out, tail.as_slice());
    out
}

/// Whether what an upstream answered to a probe declares it healthy: the
/// status text `200 OK` occurs in it.
pub fn health_check_passed(response: &[u8]) -> (r: bool)
    ensures
        r == contains_subslice(response@, ok_status()),
{
    proof {
        reveal_strlit("200 OK");
    }
    let status = ascii_literal("200 OK");
    has_subslice(response, status.as_slice())
}

} // verus!
