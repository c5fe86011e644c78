//! Parsing one HTTP/1.1 request out of a received byte buffer: a start line
//! of method, request-target and version, header lines up to an empty line,
//! and a body framed by the Content-Length header.
use vstd::prelude::*;
use crate::bytes::{ascii, all_digits, dec_val, bytes_of, bytes_eq, parse_decimal};
use crate::fields::{spec_tokens, spec_segments, views, split_tokens, split_segments};
use crate::headers::{hview, spec_lookup, header_lookup};
use crate::line_reader::{LineReader, find_lf, line_at, lemma_find_lf_bounds};

verus! {

/// Index of the first colon-space separator at or after `i`, or the length
/// of the line if there is none.
pub open spec fn find_sep(l: Seq<u8>, i: int) -> int
    decreases l.len() - i,
{
    if i < 0 || i + 1 >= l.len() {
        l.len() as int
    } else if l[i] == 58 && l[i + 1] == 32 {
        i
    } else {
        find_sep(l, i + 1)
    }
}

pub proof fn lemma_find_sep_bounds(l: Seq<u8>, i: int)
    requires
        0 <= i <= l.len(),
    ensures
        i <= find_sep(l, i) <= l.len(),
        find_sep(l, i) < l.len() ==> find_sep(l, i) + 1 < l.len() && l[find_sep(l, i)] == 58
            && l[find_sep(l, i) + 1] == 32,
        forall|t: int|
            i <= t < find_sep(l, i) && t + 1 < l.len() ==> !(#[trigger] l[t] == 58 && l[t + 1]
                == 32),
    decreases l.len() - i,
{
    if !(i < 0 || i + 1 >= l.len()) && !(l[i] == 58 && l[i + 1] == 32) {
        lemma_find_sep_bounds(l, i + 1);
    }
}

/// The first colon-space separator is the one the bytes show.
pub proof fn lemma_find_sep_at(l: Seq<u8>, i: int, k: int)
    requires
        0 <= i <= k,
        k + 1 < l.len(),
        l[k] == 58,
        l[k + 1] == 32,
        forall|t: int| i <= t < k ==> !(#[trigger] l[t] == 58 && l[t + 1] == 32),
    ensures
        find_sep(l, i) == k,
    decreases k - i,
{
    if i < k {
        lemma_find_sep_at(l, i + 1, k);
    }
}

/// A header line split at the first colon-space separator into name and
/// value; `None` when the line holds no separator, in which case the line is
/// dropped.
pub open spec fn spec_header_pair(l: Seq<u8>) -> Option<(Seq<u8>, Seq<u8>)> {
    let k = find_sep(l, 0);
    if k < l.len() {
        Some((l.take(k), l.skip(k + 2)))
    } else {
        None
    }
}

/// Splits a header line at the first colon-space separator.
pub fn header_pair(l: &[u8]) -> (r: Option<(Vec<u8>, Vec<u8>)>)
    ensures
        match r {
            Some(p) => spec_header_pair(l@) == Some((p.0@, p.1@)),
            None => spec_header_pair(l@) is None,
        },
{
    let n = l.len();
    if n < 2 {
        proof {
            lemma_find_sep_bounds(l@, 0);
        }
        return None;
    }
    let mut i: usize = 0;
    while i < n - 1 && !(l[i] == 58 && l[i + 1] == 32)
        invariant
            n == l@.len(),
            2 <= n,
            0 <= i <= n - 1,
            forall|t: int| 0 <= t < i ==> !(#[trigger] l@[t] == 58 && l@[t + 1] == 32),
        decreases n - i,
    {
        i += 1;
    }
    if i >= n - 1 {
        proof {
            lemma_find_sep_bounds(l@, 0);
            if find_sep(l@, 0) < l@.len() {
                assert(!(l@[find_sep(l@, 0)] == 58 && l@[find_sep(l@, 0) + 1] == 32));
            }
        }
        return None;
    }
    proof {
        lemma_find_sep_at(l@, 0, i as int);
    }
    let name = vstd::slice::slice_to_vec(vstd::slice::slice_subrange(l, 0, i));
    let value = vstd::slice::slice_to_vec(vstd::slice::slice_subrange(l, i + 2, n));
    assert(name@ =~= l@.take(i as int));
    assert(value@ =~= l@.skip(i + 2));
    Some((name, value))
}

/// The header section from `pos` on: header pairs of the lines before the
/// first empty line, and the position just after that empty line. Lines
/// without a colon-space separator are dropped. `None` when the buffer ends
/// before the empty line.
pub open spec fn spec_headers(data: Seq<u8>, pos: int) -> Option<(Seq<(Seq<u8>, Seq<u8>)>, int)>
    decreases data.len() - pos,
    via spec_headers_dec
{
    if pos < 0 || pos >= data.len() {
        None
    } else {
        let nl = find_lf(data, pos);
        if nl >= data.len() {
            None
        } else {
            let l = line_at(data, pos);
            if l.len() == 0 {
                Some((Seq::empty(), nl + 1))
            } else {
                match spec_headers(data, nl + 1) {
                    None => None,
                    Some((hs, end)) => match spec_header_pair(l) {
                        Some(p) => Some((seq![p] + hs, end)),
                        None => Some((hs, end)),
                    },
                }
            }
        }
    }
}

#[via_fn]
proof fn spec_headers_dec(data: Seq<u8>, pos: int) {
    if 0 <= pos < data.len() {
        lemma_find_lf_bounds(data, pos);
    }
}

/// The body length a header list declares: the Content-Length value when it
/// parses as a non-negative integer that fits the machine, zero otherwise.
pub open spec fn spec_content_len(hs: Seq<(Seq<u8>, Seq<u8>)>) -> int {
    match spec_lookup(hs, ascii("content-length"@)) {
        Some(v) => if v.len() > 0 && all_digits(v) && dec_val(v) <= usize::MAX as int {
            dec_val(v)
        } else {
            0
        },
        None => 0,
    }
}

/// One parsed request.
pub struct Request {
    pub method: Vec<u8>,
    pub path: Vec<Vec<u8>>,
    pub version: Vec<u8>,
    pub headers: Vec<(Vec<u8>, Vec<u8>)>,
    pub body: Vec<u8>,
}

/// Mathematical image of a request.
pub struct ReqView {
    pub method: Seq<u8>,
    pub path: Seq<Seq<u8>>,
    pub version: Seq<u8>,
    pub headers: Seq<(Seq<u8>, Seq<u8>)>,
    pub body: Seq<u8>,
}

impl View for Request {
    type V = ReqView;

    open spec fn view(&self) -> ReqView {
        ReqView {
            method: self.method@,
            path: views(self.path@),
            version: self.version@,
            headers: hview(self.headers@),
            body: self.body@,
        }
    }
}

/// What a buffer starting at `pos` parses to.
pub enum SpecParse {
    /// A whole request, and the position just past its body.
    Parsed(ReqView, int),
    /// The buffer is a prefix of a possible request; more bytes may finish it.
    Incomplete,
    /// The start line does not hold three tokens.
    Malformed,
}

/// Parse of one request from `pos` on: a start line of at least three
/// whitespace-separated tokens, then header lines up to an empty line, then
/// as many body bytes as the headers declare. The request-target token is
/// normalized into slash-separated segments with empty segments dropped.
pub open spec fn spec_parse(data: Seq<u8>, pos: int) -> SpecParse {
    let nl = find_lf(data, pos);
    if !(0 <= pos <= data.len()) || nl >= data.len() {
        SpecParse::Incomplete
    } else {
        let toks = spec_tokens(line_at(data, pos));
        if toks.len() < 3 {
            SpecParse::Malformed
        } else {
            match spec_headers(data, nl + 1) {
                None => SpecParse::Incomplete,
                Some((hs, hend)) => {
                    let cl = spec_content_len(hs);
                    if hend + cl > data.len() {
                        SpecParse::Incomplete
                    } else {
                        SpecParse::Parsed(
                            ReqView {
                                method: toks[0],
                                path: spec_segments(toks[1]),
                                version: toks[2],
                                headers: hs,
                                body: data.subrange(hend, hend + cl),
                            },
                            hend + cl,
                        )
                    }
                },
            }
        }
    }
}

/// Outcome of parsing the received bytes.
pub enum ParseOutcome {
    /// A whole request was read; the reader stands just past its body.
    Parsed(Request),
    /// The buffer holds a prefix of a possible request; read more bytes.
    Incomplete,
    /// The request is malformed and the connection should close.
    Malformed,
}

impl Request {
    /// Parses one request from the reader's position on. On success the
    /// reader stands just past the request, ready for the next one; on any
    /// other outcome the reader's buffer is unchanged and its position is
    /// meaningless.
    pub fn parse(reader: &mut LineReader) -> (r: ParseOutcome)
        requires
            old(reader).wf(),
        ensures
            final(reader).wf(),
            final(reader).data@ == old(reader).data@,
            match r {
                ParseOutcome::Parsed(req) => spec_parse(old(reader).data@, old(reader).pos as int)
                    == SpecParse::Parsed(req@, final(reader).pos as int),
                ParseOutcome::Incomplete => spec_parse(old(reader).data@, old(reader).pos as int)
                    is Incomplete,
                ParseOutcome::Malformed => spec_parse(old(reader).data@, old(reader).pos as int)
                    is Malformed,
            },
    {
        let ghost data0 = reader.data@;
        let ghost pos0 = reader.pos as int;
        let line = match reader.read_line() {
            Some(l) => l,
            None => {
                return ParseOutcome::Incomplete;
            },
        };
        let tokens = split_tokens(line.as_slice());
        if tokens.len() < 3 {
            assert(spec_tokens(line_at(data0, pos0)).len() < 3);
            return ParseOutcome::Malformed;
        }
        let method = vstd::slice::slice_to_vec(tokens[0].as_slice());
        let path = split_segments(tokens[1].as_slice());
        let version = vstd::slice::slice_to_vec(tokens[2].as_slice());
        let ghost hstart = reader.pos as int;
        let mut headers: Vec<(Vec<u8>, Vec<u8>)> = Vec::new();
        loop
            invariant_except_break
                hstart <= reader.pos <= data0.len(),
                match spec_headers(data0, reader.pos as int) {
                    None => spec_headers(data0, hstart) is None,
                    Some((hs, end)) => spec_headers(data0, hstart) == Some(
                        (hview(headers@) + hs, end),
                    ),
                },
            invariant
                reader.wf(),
                reader.data@ == data0,
                data0 == old(reader).data@,
                pos0 == old(reader).pos as int,
                0 <= pos0 <= data0.len(),
                find_lf(data0, pos0) < data0.len(),
                hstart == find_lf(data0, pos0) + 1,
                spec_tokens(line_at(data0, pos0)).len() >= 3,
            ensures
                reader.pos <= data0.len(),
                spec_headers(data0, hstart) == Some((hview(headers@), reader.pos as int)),
            decreases data0.len() - reader.pos,
        {
            let ghost cur = reader.pos as int;
            let l = match reader.read_line() {
                Some(l) => l,
                None => {
                    assert(spec_headers(data0, cur) is None);
                    return ParseOutcome::Incomplete;
                },
            };
            proof {
                lemma_find_lf_bounds(data0, cur);
            }
            let ghost nl = find_lf(data0, cur);
            assert(cur <= nl < data0.len());
            if l.is_empty() {
                assert(spec_headers(data0, cur) == Some(
                    (Seq::<(Seq<u8>, Seq<u8>)>::empty(), nl + 1),
                ));
                assert(hview(headers@) + Seq::<(Seq<u8>, Seq<u8>)>::empty() =~= hview(headers@));
                break ;
            }
            let ghost rest = spec_headers(data0, nl + 1);
            assert(spec_headers(data0, cur) == (match rest {
                None => None::<(Seq<(Seq<u8>, Seq<u8>)>, int)>,
                Some((hs, end)) => match spec_header_pair(l@) {
                    Some(p) => Some((seq![p] + hs, end)),
                    None => Some((hs, end)),
                },
            }));
            match header_pair(l.as_slice()) {
                Some(p) => {
                    let ghost hs0 = hview(headers@);
                    let ghost pv = (p.0@, p.1@);
                    headers.push(p);
                    assert(hview(headers@) =~= hs0.push(pv));
                    proof {
                        if rest is Some {
                            let hs2 = rest->Some_0.0;
                            assert(hs0 + (seq![pv] + hs2) =~= hview(headers@) + hs2);
                        }
                    }
                },
                None => {},
            }
        }
        let ghost bodystart = reader.pos as int;
        assert(spec_headers(data0, hstart) == Some((hview(headers@), bodystart)));
        proof {
            reveal_strlit("content-length");
        }
        let clkey = bytes_of("content-length");
        let content_length = match header_lookup(&headers, clkey.as_slice()) {
            Some(v) => match parse_decimal(v.as_slice()) {
                Some(n) => n,
                None => 0,
            },
            None => 0,
        };
        assert(content_length as int == spec_content_len(hview(headers@)));
        let body = match reader.read_exact(content_length) {
            Some(b) => b,
            None => {
                return ParseOutcome::Incomplete;
            },
        };
        let req = Request { method, path, version, headers, body };
        assert(req@.path == spec_segments(spec_tokens(line_at(data0, pos0))[1])) by {
            assert(views(tokens@)[1] == tokens@[1]@);
        }
        assert(req@.method == spec_tokens(line_at(data0, pos0))[0]) by {
            assert(views(tokens@)[0] == tokens@[0]@);
        }
        assert(req@.version == spec_tokens(line_at(data0, pos0))[2]) by {
            assert(views(tokens@)[2] == tokens@[2]@);
        }
        ParseOutcome::Parsed(req)
    }

    /// Whether the peer asked for the connection to close after the response:
    /// a Connection header, looked up case-insensitively, whose value is
    /// exactly `close`.
    pub fn connection_close(&self) -> (r: bool)
        ensures
            r == (spec_lookup(self@.headers, ascii("connection"@)) == Some(ascii("close"@))),
    {
        proof {
            reveal_strlit("connection");
            reveal_strlit("close");
        }
        let key = bytes_of("connection");
        let close = bytes_of("close");
        match header_lookup(&self.headers, key.as_slice()) {
            Some(v) => bytes_eq(v.as_slice(), close.as_slice()),
            None => false,
        }
    }
}

} // verus!
