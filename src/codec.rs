use vstd::prelude::*;
use vstd::string::StringSliceAdditionalSpecFns;
use crate::bytes::{ascii_bytes, ascii_literal, copy_bytes};
use crate::message::{
    crlf, header_lines, headers_view, request_bytes, wire_bytes, ClientRequest, HeaderField,
    RequestView,
};

verus! {

/// Why no request could be taken from what a client sent, or forwarded.
#[derive(Debug, Clone, Copy, PartialEq, Eq, Structural)]
pub enum Error {
    /// The bytes are not an HTTP/1.x request head, or its target is no URI.
    MalformedRequest,
    /// The client sent nothing: it closed the connection.
    ClientClosedConnection,
    /// The head ended before it was complete.
    PartialRequest,
    /// The upstream connection failed while the request was sent.
    ConnectionError,
}

/// A request head as the codec found it, with the offset at which the body starts.
pub struct RequestHead {
    pub method: Vec<u8>,
    pub target: Vec<u8>,
    pub minor_version: u8,
    pub headers: Vec<HeaderField>,
    pub head_len: usize,
}

pub struct HeadView {
    pub method: Seq<u8>,
    pub target: Seq<u8>,
    pub minor_version: u8,
    pub headers: Seq<(Seq<u8>, Seq<u8>)>,
    pub head_len: nat,
}

impl View for RequestHead {
    type V = HeadView;

    open spec fn view(&self) -> HeadView {
        HeadView {
            method: self.method@,
            target: self.target@,
            minor_version: self.minor_version,
            headers: headers_view(self.headers@),
            head_len: self.head_len as nat,
        }
    }
}

/// What the codec made of a buffer.
pub enum HeadParse {
    /// The bytes break the request grammar.
    Invalid,
    /// No error so far, but the head is not complete.
    Partial,
    /// A complete head.
    Complete(RequestHead),
}

pub enum HeadParseView {
    Invalid,
    Partial,
    Complete(HeadView),
}

impl View for HeadParse {
    type V = HeadParseView;

    open spec fn view(&self) -> HeadParseView {
        match self {
            HeadParse::Invalid => HeadParseView::Invalid,
            HeadParse::Partial => HeadParseView::Partial,
            HeadParse::Complete(h) => HeadParseView::Complete(h@),
        }
    }
}

/// What httparse makes of a request buffer.
pub uninterp spec fn httparse_request(buf: Seq<u8>) -> HeadParseView;

/// Whether http accepts a request target as a URI.
pub uninterp spec fn http_accepts_uri(target: Seq<u8>) -> bool;

/// Relies on httparse's `Request::parse`, given room for 16 headers: the
/// outcome depends on the bytes alone; a complete head reports the offset of
/// the body within `buf` and a version of HTTP/1.0 or HTTP/1.1.
#[verifier::external_body]
fn parse_head(buf: &[u8]) -> (r: HeadParse)
    ensures
        r@ == httparse_request(buf@),
        r matches HeadParse::Complete(h) ==> h.head_len <= buf@.len() && h.minor_version <= 1,
{
    let mut slots = [httparse::EMPTY_HEADER; 16];
    let mut req = httparse::Request::new(&mut slots);
    match req.parse(buf) {
        Ok(httparse::Status::Complete(n)) => HeadParse::Complete(RequestHead {
            method: req.method.unwrap().as_bytes().to_vec(),
            target: req.path.unwrap().as_bytes().to_vec(),
            minor_version: req.version.unwrap(),
            headers: req.headers.iter().map(
                |h| HeaderField { name: h.name.as_bytes().to_vec(), value: h.value.to_vec() },
            ).collect(),
            head_len: n,
        }),
        Ok(httparse::Status::Partial) => HeadParse::Partial,
        Err(_) => HeadParse::Invalid,
    }
}

/// Relies on http's `TryFrom<&[u8]> for Uri`: whether a target parses depends
/// on its bytes alone, and an empty one never does.
#[verifier::external_body]
fn uri_is_valid(target: &[u8]) -> (r: bool)
    ensures
        r == http_accepts_uri(target@),
        target@.len() == 0 ==> !r,
{
    http::Uri::try_from(target).is_ok()
}

/// The request that a complete head and the bytes after it make up.
pub open spec fn request_of_head(data: Seq<u8>, h: HeadView) -> RequestView {
    RequestView {
        method: h.method,
        target: h.target,
        minor_version: h.minor_version,
        headers: h.headers,
        body: data.subrange(h.head_len as int, data.len() as int),
    }
}

/// The outcome of reading a request from `data`, given what the codec made of
/// it and whether its target is a URI.
pub open spec fn head_outcome(data: Seq<u8>, p: HeadParseView, uri_ok: bool) -> Result<
    RequestView,
    Error,
> {
    match p {
        HeadParseView::Invalid => Err(Error::MalformedRequest),
        HeadParseView::Partial => Err(Error::PartialRequest),
        HeadParseView::Complete(h) => if uri_ok {
            Ok(request_of_head(data, h))
        } else {
            Err(Error::MalformedRequest)
        },
    }
}

/// The outcome of reading a request from one buffer that a client sent.
pub open spec fn read_outcome(data: Seq<u8>) -> Result<RequestView, Error> {
    if data.len() == 0 {
        Err(Error::ClientClosedConnection)
    } else {
        let p = httparse_request(data);
        let uri_ok = match p {
            HeadParseView::Complete(h) => http_accepts_uri(h.target),
            _ => false,
        };
        head_outcome(data, p, uri_ok)
    }
}

pub open spec fn request_result_view(r: Result<ClientRequest, Error>) -> Result<RequestView, Error> {
    match r {
        Ok(req) => Ok(req@),
        Err(e) => Err(e),
    }
}

fn copy_headers(hs: &Vec<HeaderField>) -> (r: Vec<HeaderField>)
    ensures
        headers_view(r@) == headers_view(hs@),
{
    let mut r: Vec<HeaderField> = Vec::new();
    let mut i: usize = 0;
    while i < hs.len()
        invariant
            i <= hs@.len(),
            headers_view(r@) =~= headers_view(hs@).take(i as int),
        decreases hs@.len() - i,
    {
        let h = &hs[i];
        let f = HeaderField { name: copy_bytes(h.name.as_slice()), value: copy_bytes(h.value.as_slice()) };
        let ghost before = r@;
        r.push(f);
        proof {
            assert(headers_view(r@) =~= headers_view(before).push(f@));
            assert(headers_view(hs@).take(i + 1) =~= headers_view(hs@).take(i as int).push(hs@[i as int]@));
        }
        i = i + 1;
    }
    assert(headers_view(hs@).take(i as int) =~= headers_view(hs@));
    r
}

/// The request held in `data`, given what the codec made of it (`parsed`)
/// and whether its target is a URI (`uri_ok`).
pub fn request_from_head(data: &[u8], parsed: &HeadParse, uri_ok: bool) -> (r: Result<ClientRequest, Error>)
    requires
        parsed matches HeadParse::Complete(h) ==> h.head_len <= data@.len(),
    ensures
        request_result_view(r) == head_outcome(data@, parsed@, uri_ok),
{
    match parsed {
        HeadParse::Invalid => Err(Error::MalformedRequest),
        HeadParse::Partial => Err(Error::PartialRequest),
        HeadParse::Complete(h) => {
            if !uri_ok {
                return Err(Error::MalformedRequest);
            }
            let body = copy_bytes(vstd::slice::slice_subrange(data, h.head_len, data.len()));
            let req = ClientRequest {
                method: copy_bytes(h.method.as_slice()),
                target: copy_bytes(h.target.as_slice()),
                minor_version: h.minor_version,
                headers: copy_headers(&h.headers),
                body,
            };
            assert(req@ == request_of_head(data@, h@));
            Ok(req)
        },
    }
}

/// Reads one request from one buffer that a client sent: an empty buffer
/// means the client closed; otherwise the codec decides, and a complete head
/// whose target is no URI is malformed.
pub fn read_client_request(data: &[u8]) -> (r: Result<ClientRequest, Error>)
    ensures
        request_result_view(r) == read_outcome(data@),
{
    if data.len() == 0 {
        return Err(Error::ClientClosedConnection);
    }
    let parsed = parse_head(data);
    let uri_ok = match &parsed {
        HeadParse::Complete(h) => uri_is_valid(h.target.as_slice()),
        _ => false,
    };
    request_from_head(data, &parsed, uri_ok)
}

/// The name of the header that carries the client's address.
pub open spec fn forwarded_for_name() -> Seq<u8> {
    ascii_bytes("X-Forwarded-For"@)
}

/// `r` as it goes upstream: one more `X-Forwarded-For` header, holding the
/// client's address, after all the headers it had.
pub open spec fn forwarded(r: RequestView, client_ip: Seq<u8>) -> RequestView {
    RequestView { headers: r.headers.push((forwarded_for_name(), client_ip)), ..r }
}

/// Forwarding never replaces a header: every header the client sent keeps
/// its value and place, one `X-Forwarded-For` header holding the client's
/// address follows them, and on the wire their lines come first, unchanged.
pub proof fn lemma_forwarding_appends(r: RequestView, client_ip: Seq<u8>)
    ensures
        forwarded(r, client_ip).headers.len() == r.headers.len() + 1,
        forall|i: int|
            0 <= i < r.headers.len() ==> #[trigger] forwarded(r, client_ip).headers[i]
                == r.headers[i],
        forwarded(r, client_ip).headers.last() == (forwarded_for_name(), client_ip),
        header_lines(forwarded(r, client_ip).headers) == header_lines(r.headers)
            + forwarded_for_name() + seq![58u8, 32u8] + client_ip + crlf(),
{
    let hs = forwarded(r, client_ip).headers;
    assert(hs.drop_last() =~= r.headers);
}

/// The request to send upstream for `req` from the client at `client_ip`.
pub fn client_request_builder(client_ip: &str, req: &ClientRequest) -> (r: ClientRequest)
    ensures
        r@ == forwarded(req@, client_ip.spec_bytes()),
{
    let mut headers = copy_headers(&req.headers);
    proof {
        reveal_strlit("X-Forwarded-For");
    }
    let name = ascii_literal("X-Forwarded-For");
    let value = copy_bytes(client_ip.as_bytes());
    let ghost before = headers@;
    let field = HeaderField { name, value };
    headers.push(field);
    assert(headers_view(headers@) =~= headers_view(before).push(field@));
    ClientRequest {
        method: copy_bytes(req.method.as_slice()),
        target: copy_bytes(req.target.as_slice()),
        minor_version: req.minor_version,
        headers,
        body: copy_bytes(req.body.as_slice()),
    }
}

/// What goes upstream for one buffer from the client at `client_ip`.
pub open spec fn controller_outcome(data: Seq<u8>, client_ip: Seq<u8>) -> Result<Seq<u8>, Error> {
    match read_outcome(data) {
        Ok(req) => Ok(wire_bytes(forwarded(req, client_ip))),
        Err(e) => Err(e),
    }
}

pub open spec fn bytes_result_view(r: Result<Vec<u8>, Error>) -> Result<Seq<u8>, Error> {
    match r {
        Ok(b) => Ok(b@),
        Err(e) => Err(e),
    }
}

/// Takes one buffer from a client, reads the request in it and returns the
/// bytes to send upstream, with the client's address added.
pub fn request_controller(data: &[u8], client_ip: &str) -> (r: Result<Vec<u8>, Error>)
    ensures
        bytes_result_view(r) == controller_outcome(data@, client_ip.spec_bytes()),
{
    match read_client_request(data) {
        Ok(req) => {
            let out = client_request_builder(client_ip, &req);
            Ok(request_bytes(&out))
        },
        Err(e) => Err(e),
    }
}

} // verus!
