//! Building and serializing HTTP/1.1 responses. A fresh response carries
//! `Content-Type: text/plain` and a `Content-Length` computed from the body;
//! handlers may override any header afterwards. Serialization is
//! deterministic: status line, one line per header in storage order, an empty
//! line, then the body verbatim.
use vstd::prelude::*;
use crate::bytes::{ascii, dec_rep, bytes_of, usize_to_decimal};
use crate::headers::{hview, spec_set, unique_names, header_set};

verus! {

pub open spec fn crlf() -> Seq<u8> {
    seq![13u8, 10u8]
}

pub open spec fn colon_space() -> Seq<u8> {
    seq![58u8, 32u8]
}

/// One outgoing response.
pub struct Response {
    pub status_code: Vec<u8>,
    pub headers: Vec<(Vec<u8>, Vec<u8>)>,
    pub body: Vec<u8>,
}

/// Mathematical image of a response.
pub struct RespView {
    pub status_code: Seq<u8>,
    pub headers: Seq<(Seq<u8>, Seq<u8>)>,
    pub body: Seq<u8>,
}

impl View for Response {
    type V = RespView;

    open spec fn view(&self) -> RespView {
        RespView {
            status_code: self.status_code@,
            headers: hview(self.headers@),
            body: self.body@,
        }
    }
}

/// Headers a freshly built response carries.
pub open spec fn spec_new_headers(len: nat) -> Seq<(Seq<u8>, Seq<u8>)> {
    seq![
        (ascii("Content-Type"@), ascii("text/plain"@)),
        (ascii("Content-Length"@), dec_rep(len)),
    ]
}

/// A freshly built response: the given status and body, a text/plain content
/// type, and a content length that equals the body length.
pub open spec fn spec_new(status: Seq<u8>, body: Seq<u8>) -> RespView {
    RespView { status_code: status, headers: spec_new_headers(body.len()), body }
}

/// The header block on the wire: one `name: value` line per stored header,
/// in storage order.
pub open spec fn header_lines(hs: Seq<(Seq<u8>, Seq<u8>)>) -> Seq<u8>
    decreases hs.len(),
{
    if hs.len() == 0 {
        Seq::empty()
    } else {
        header_lines(hs.drop_last()) + hs.last().0 + colon_space() + hs.last().1 + crlf()
    }
}

/// The exact wire bytes of a response.
pub open spec fn spec_serialize(r: RespView) -> Seq<u8> {
    ascii("HTTP/1.1 "@) + r.status_code + crlf() + header_lines(r.headers) + crlf() + r.body
}

/// Appends a byte slice to a vector.
pub fn append_bytes(dst: &mut Vec<u8>, src: &[u8])
    ensures
        final(dst)@ == old(dst)@ + src@,
{
    let ghost d0 = old(dst)@;
    let n = src.len();
    let mut i: usize = 0;
    while i < n
        invariant
            0 <= i <= n,
            n == src@.len(),
            dst@ == d0 + src@.take(i as int),
        decreases n - i,
    {
        dst.push(src[i]);
        assert(d0 + src@.take(i + 1) =~= (d0 + src@.take(i as int)).push(src@[i as int]));
        i += 1;
    }
    assert(d0 + src@.take(n as int) =~= d0 + src@);
}

impl Response {
    /// A fresh response with the given status and body, a text/plain content
    /// type, and a content length equal to the body length.
    pub fn new(status_code: &[u8], body: &[u8]) -> (r: Response)
        ensures
            r@ == spec_new(status_code@, body@),
    {
        proof {
            reveal_strlit("Content-Type");
            reveal_strlit("text/plain");
            reveal_strlit("Content-Length");
        }
        let mut headers: Vec<(Vec<u8>, Vec<u8>)> = Vec::new();
        headers.push((bytes_of("Content-Type"), bytes_of("text/plain")));
        headers.push((bytes_of("Content-Length"), usize_to_decimal(body.len())));
        let r = Response {
            status_code: vstd::slice::slice_to_vec(status_code),
            headers,
            body: vstd::slice::slice_to_vec(body),
        };
        assert(hview(r.headers@) =~= spec_new_headers(body@.len()));
        r
    }

    /// Sets a header, overwriting any stored pair of the same name in any
    /// letter case; the status and body are untouched. Setting a body after
    /// construction does not refresh Content-Length: that is the
    /// constructor's job alone.
    pub fn add_header(&mut self, key: Vec<u8>, value: Vec<u8>)
        ensures
            final(self)@.status_code == old(self)@.status_code,
            final(self)@.body == old(self)@.body,
            final(self)@.headers == spec_set(old(self)@.headers, key@, value@),
    {
        header_set(&mut self.headers, key, value);
    }

    /// The exact wire bytes: `HTTP/1.1 <status>`, one line per header in
    /// storage order, an empty line, then the body verbatim.
    pub fn serialize(&self) -> (r: Vec<u8>)
        ensures
            r@ == spec_serialize(self@),
    {
        proof {
            reveal_strlit("HTTP/1.1 ");
        }
        let mut out = bytes_of("HTTP/1.1 ");
        append_bytes(&mut out, self.status_code.as_slice());
        out.push(13);
        out.push(10);
        let ghost base = ascii("HTTP/1.1 "@) + self@.status_code + crlf();
        assert(out@ =~= base);
        let ghost hs = hview(self.headers@);
        let n = self.headers.len();
        let mut i: usize = 0;
        while i < n
            invariant
                0 <= i <= n,
                n == self.headers@.len(),
                hs == hview(self.headers@),
                base == ascii("HTTP/1.1 "@) + self@.status_code + crlf(),
                out@ == base + header_lines(hs.take(i as int)),
            decreases n - i,
        {
            let ghost o0 = out@;
            let pair = &self.headers[i];
            append_bytes(&mut out, pair.0.as_slice());
            out.push(58);
            out.push(32);
            append_bytes(&mut out, pair.1.as_slice());
            out.push(13);
            out.push(10);
            proof {
                let pre = hs.take(i + 1);
                assert(pre.last() == hs[i as int]);
                assert(pre.drop_last() =~= hs.take(i as int));
                assert(out@ =~= o0 + hs[i as int].0 + colon_space() + hs[i as int].1 + crlf());
                assert(out@ =~= base + header_lines(pre));
            }
            i += 1;
        }
        assert(hs.take(n as int) =~= hs);
        out.push(13);
        out.push(10);
        append_bytes(&mut out, self.body.as_slice());
        assert(out@ =~= spec_serialize(self@));
        out
    }
}

/// A fresh response stores each header name once.
pub proof fn lemma_new_headers_unique(len: nat)
    ensures
        unique_names(spec_new_headers(len)),
{
    reveal_strlit("Content-Type");
    reveal_strlit("Content-Length");
    let hs = spec_new_headers(len);
    assert(crate::bytes::lower(hs[0].0)[8] == 116);
    assert(crate::bytes::lower(hs[1].0)[8] == 108);
}

} // verus!
