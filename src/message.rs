use vstd::prelude::*;
use crate::bytes::{append_bytes, ascii_bytes, ascii_literal};

verus! {

/// One header line of a request: its name and its value, as received.
pub struct HeaderField {
    pub name: Vec<u8>,
    pub value: Vec<u8>,
}

impl View for HeaderField {
    type V = (Seq<u8>, Seq<u8>);

    open spec fn view(&self) -> (Seq<u8>, Seq<u8>) {
        (self.name@, self.value@)
    }
}

/// A structured HTTP/1.x request: method, target, minor version (`1` for
/// `HTTP/1.1`), the header lines in arrival order (duplicates kept) and the body.
pub struct ClientRequest {
    pub method: Vec<u8>,
    pub target: Vec<u8>,
    pub minor_version: u8,
    pub headers: Vec<HeaderField>,
    pub body: Vec<u8>,
}

/// The mathematical value of a `ClientRequest`.
pub struct RequestView {
    pub method: Seq<u8>,
    pub target: Seq<u8>,
    pub minor_version: u8,
    pub headers: Seq<(Seq<u8>, Seq<u8>)>,
    pub body: Seq<u8>,
}

pub open spec fn headers_view(hs: Seq<HeaderField>) -> Seq<(Seq<u8>, Seq<u8>)> {
    hs.map_values(|h: HeaderField| h@)
}

impl View for ClientRequest {
    type V = RequestView;

    open spec fn view(&self) -> RequestView {
        RequestView {
            method: self.method@,
            target: self.target@,
            minor_version: self.minor_version,
            headers: headers_view(self.headers@),
            body: self.body@,
        }
    }
}

pub open spec fn crlf() -> Seq<u8> {
    seq![13u8, 10u8]
}

/// The decimal digits of `n`, most significant first.
pub open spec fn decimal(n: u8) -> Seq<u8> {
    if n >= 100 {
        seq![(48 + n / 100) as u8, (48 + (n / 10) % 10) as u8, (48 + n % 10) as u8]
    } else if n >= 10 {
        seq![(48 + n / 10) as u8, (48 + n % 10) as u8]
    } else {
        seq![(48 + n) as u8]
    }
}

/// `METHOD TARGET HTTP/1.m`, without the line end.
pub open spec fn request_line(r: RequestView) -> Seq<u8> {
    r.method + seq![32u8] + r.target + seq![32u8] + ascii_bytes("HTTP/1."@) + decimal(
        r.minor_version,
    )
}

/// `name: value` followed by a line end, for each header in order.
pub open spec fn header_lines(hs: Seq<(Seq<u8>, Seq<u8>)>) -> Seq<u8>
    decreases hs.len(),
{
    if hs.len() == 0 {
        Seq::empty()
    } else {
        header_lines(hs.drop_last()) + hs.last().0 + seq![58u8, 32u8] + hs.last().1 + crlf()
    }
}

/// The bytes that carry a request on the wire: request line, header lines,
/// an empty line, then the body.
pub open spec fn wire_bytes(r: RequestView) -> Seq<u8> {
    request_line(r) + crlf() + header_lines(r.headers) + crlf() + r.body
}

/// The answer sent to a client whose request could not be read.
pub open spec fn bad_request_bytes() -> Seq<u8> {
    ascii_bytes("HTTP/1.1 400 Bad Request\r\n\r\n"@)
}

/// The answer sent to a client when no upstream could serve it.
pub open spec fn bad_gateway_bytes() -> Seq<u8> {
    ascii_bytes("HTTP/1.1 502 Bad Gateway\r\n\r\n"@)
}

pub fn bad_request_response() -> (r: Vec<u8>)
    ensures
        r@ == bad_request_bytes(),
{
    proof {
        reveal_strlit("HTTP/1.1 400 Bad Request\r\n\r\n");
    }
    ascii_literal("HTTP/1.1 400 Bad Request\r\n\r\n")
}

pub fn bad_gateway_response() -> (r: Vec<u8>)
    ensures
        r@ == bad_gateway_bytes(),
{
    proof {
        reveal_strlit("HTTP/1.1 502 Bad Gateway\r\n\r\n");
    }
    ascii_literal("HTTP/1.1 502 Bad Gateway\r\n\r\n")
}

fn push_decimal(out: &mut Vec<u8>, n: u8)
    ensures
        final(out)@ == old(out)@ + decimal(n),
{
    if n >= 100 {
        out.push(48 + n / 100);
        out.push(48 + (n / 10) % 10);
        out.push(48 + n % 10);
    } else if n >= 10 {
        out.push(48 + n / 10);
        out.push(48 + n % 10);
    } else {
        out.push(48 + n);
    }
    assert(final(out)@ =~= old(out)@ + decimal(n));
}

/// The request line of `request`: method, target and protocol version,
/// separated by single spaces.
pub fn format_request_line(request: &ClientRequest) -> (r: Vec<u8>)
    ensures
        r@ == request_line(request@),
{
    let mut out: Vec<u8> = Vec::new();
    append_bytes(&mut out, request.method.as_slice());
    out.push(32);
    append_bytes(&mut out, request.target.as_slice());
    out.push(32);
    proof {
        reveal_strlit("HTTP/1.");
    }
    let version = ascii_literal("HTTP/1.");
    append_bytes(&mut out, version.as_slice());
    push_decimal(&mut out, request.minor_version);
    assert(out@ =~= request_line(request@));
    out
}

/// The bytes that carry `request` to an upstream.
pub fn request_bytes(request: &ClientRequest) -> (r: Vec<u8>)
    ensures
        r@ == wire_bytes(request@),
{
    let mut out = format_request_line(request);
    out.push(13);
    out.push(10);
    let ghost start = out@;
    let mut i: usize = 0;
    while i < request.headers.len()
        invariant
            i <= request.headers@.len(),
            out@ == start + header_lines(headers_view(request.headers@).take(i as int)),
        decreases request.headers@.len() - i,
    {
        let h = &request.headers[i];
        append_bytes(&mut out, h.name.as_slice());
        out.push(58);
        out.push(32);
        append_bytes(&mut out, h.value.as_slice());
        out.push(13);
        out.push(10);
        proof {
            let hv = headers_view(request.headers@);
            assert(hv.take(i + 1).drop_last() =~= hv.take(i as int));
        }
        i = i + 1;
    }
    proof {
        let hv = headers_view(request.headers@);
        assert(hv.take(i as int) =~= hv);
    }
    out.push(13);
    out.push(10);
    append_bytes(&mut out, request.body.as_slice());
    assert(out@ =~= wire_bytes(request@));
    out
}

} // verus!
