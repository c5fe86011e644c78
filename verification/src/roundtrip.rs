//! The round trip: the exact wire bytes of a well-formed response parse back,
//! as a generic message, to the same status line, the same header pairs, and
//! the same body bytes.
use vstd::prelude::*;
use crate::bytes::{ascii, dec_rep, lemma_dec_rep_digits, lemma_dec_val_of_rep};
use crate::fields::{
    spec_tokens, fields_from, ws_pred, is_ws, opt_field, lemma_fields_skip, lemma_fields_nonsep_run,
};
use crate::headers::spec_lookup;
use crate::line_reader::{find_lf, line_at, strip_cr};
use crate::request::{
    spec_headers, spec_header_pair, spec_parse, SpecParse, spec_content_len, lemma_find_sep_at,
};
use crate::response::{RespView, header_lines, spec_serialize, crlf, colon_space};

verus! {

pub open spec fn no_lf(s: Seq<u8>) -> bool {
    forall|i: int| 0 <= i < s.len() ==> #[trigger] s[i] != 10
}

/// A header pair that survives the wire: a non-empty name free of line feeds
/// and of colon-space separators, and a value free of line feeds.
pub open spec fn header_pair_wf(p: (Seq<u8>, Seq<u8>)) -> bool {
    &&& p.0.len() > 0
    &&& no_lf(p.0)
    &&& no_lf(p.1)
    &&& forall|t: int| 0 <= t < p.0.len() - 1 ==> !(#[trigger] p.0[t] == 58 && p.0[t + 1] == 32)
}

/// A response whose serialization frames cleanly: no line feed in the status
/// line and well-formed header pairs.
pub open spec fn resp_wf(r: RespView) -> bool {
    no_lf(r.status_code) && forall|i: int|
        0 <= i < r.headers.len() ==> header_pair_wf(#[trigger] r.headers[i])
}

/// The bytes of one terminated line: the line feed right after the content's
/// carriage return is the first one, and the line reads back as the content.
proof fn lemma_line_region(data: Seq<u8>, pos: int, content: Seq<u8>)
    requires
        0 <= pos,
        pos + content.len() + 2 <= data.len(),
        no_lf(content),
        data.subrange(pos, pos + content.len() + 2) == content + crlf(),
    ensures
        find_lf(data, pos) == pos + content.len() + 1,
        line_at(data, pos) == content,
{
    let region = content + crlf();
    let k = pos + content.len() + 1;
    assert forall|t: int| pos <= t < k implies data[t] != 10 by {
        let j = t - pos;
        assert(data.subrange(pos, pos + content.len() + 2)[j] == data[t]);
        if j < content.len() {
            assert(region[j] == content[j]);
        } else {
            assert(region[j] == 13);
        }
    }
    assert(data.subrange(pos, pos + content.len() + 2)[content.len() as int + 1] == data[k]);
    assert(data[k] == 10);
    crate::line_reader::lemma_find_lf_at(data, pos, k);
    assert(data.subrange(pos, k) =~= content + seq![13u8]) by {
        assert forall|j: int| 0 <= j < k - pos implies data.subrange(pos, k)[j] == (content
            + seq![13u8])[j] by {
            assert(data.subrange(pos, k)[j] == data[pos + j]);
            assert(data.subrange(pos, pos + content.len() + 2)[j] == data[pos + j]);
        }
    }
    assert(strip_cr(data.subrange(pos, k)) =~= content);
}

/// The header block decomposes at the front: the first pair's line, then the
/// block of the remaining pairs.
proof fn lemma_header_lines_front(hs: Seq<(Seq<u8>, Seq<u8>)>)
    requires
        hs.len() > 0,
    ensures
        header_lines(hs) == hs[0].0 + colon_space() + hs[0].1 + crlf() + header_lines(
            hs.drop_first(),
        ),
    decreases hs.len(),
{
    let c = hs[0].0 + colon_space() + hs[0].1 + crlf();
    if hs.len() == 1 {
        assert(hs.drop_last() =~= Seq::<(Seq<u8>, Seq<u8>)>::empty());
        assert(hs.drop_first() =~= Seq::<(Seq<u8>, Seq<u8>)>::empty());
        assert(hs.last() == hs[0]);
        assert(header_lines(hs) =~= c + header_lines(hs.drop_first()));
    } else {
        lemma_header_lines_front(hs.drop_last());
        assert(hs.drop_last()[0] == hs[0]);
        assert(hs.drop_last().drop_first() =~= hs.drop_first().drop_last());
        assert(hs.drop_first().last() == hs.last());
        assert(hs.drop_first().len() > 0);
        assert(header_lines(hs) =~= c + header_lines(hs.drop_first()));
    }
}

/// A region of well-formed header lines followed by an empty line parses to
/// exactly those pairs, ending just past the empty line.
proof fn lemma_headers_region(data: Seq<u8>, pos: int, hs: Seq<(Seq<u8>, Seq<u8>)>)
    requires
        0 <= pos,
        pos + header_lines(hs).len() + 2 <= data.len(),
        forall|i: int| 0 <= i < hs.len() ==> header_pair_wf(#[trigger] hs[i]),
        data.subrange(pos, pos + header_lines(hs).len() + 2) == header_lines(hs) + crlf(),
    ensures
        spec_headers(data, pos) == Some((hs, pos + header_lines(hs).len() + 2)),
    decreases hs.len(),
{
    if hs.len() == 0 {
        assert(header_lines(hs) =~= Seq::<u8>::empty());
        assert(Seq::<u8>::empty() + crlf() =~= crlf());
        lemma_line_region(data, pos, Seq::empty());
        assert(line_at(data, pos).len() == 0);
        assert(spec_headers(data, pos) == Some(
            (Seq::<(Seq<u8>, Seq<u8>)>::empty(), pos + 2),
        ));
        assert(hs =~= Seq::<(Seq<u8>, Seq<u8>)>::empty());
    } else {
        let p0 = hs[0];
        let c0 = p0.0 + colon_space() + p0.1;
        let rest = hs.drop_first();
        lemma_header_lines_front(hs);
        assert(header_lines(hs) =~= c0 + crlf() + header_lines(rest));
        let hl = header_lines(hs).len() as int;
        let rl = header_lines(rest).len() as int;
        assert(hl == c0.len() + 2 + rl);
        assert(no_lf(c0)) by {
            assert forall|i: int| 0 <= i < c0.len() implies #[trigger] c0[i] != 10 by {
                if i < p0.0.len() {
                    assert(c0[i] == p0.0[i]);
                } else if i < p0.0.len() + 2 {
                    assert(c0[i] == colon_space()[i - p0.0.len()]);
                } else {
                    assert(c0[i] == p0.1[i - p0.0.len() - 2]);
                }
            }
        }
        assert(data.subrange(pos, pos + c0.len() + 2) =~= c0 + crlf()) by {
            assert forall|j: int| 0 <= j < c0.len() + 2 implies data.subrange(
                pos,
                pos + c0.len() + 2,
            )[j] == (c0 + crlf())[j] by {
                assert(data.subrange(pos, pos + hl + 2)[j] == data[pos + j]);
                assert(data.subrange(pos, pos + c0.len() + 2)[j] == data[pos + j]);
                assert((header_lines(hs) + crlf())[j] == (c0 + crlf() + header_lines(rest)
                    + crlf())[j]);
            }
        }
        lemma_line_region(data, pos, c0);
        assert(spec_header_pair(c0) == Some(p0)) by {
            let nlen = p0.0.len() as int;
            assert(c0[nlen] == 58);
            assert(c0[nlen + 1] == 32);
            assert forall|t: int| 0 <= t < nlen implies !(#[trigger] c0[t] == 58 && c0[t + 1]
                == 32) by {
                if t < nlen - 1 {
                    assert(c0[t] == p0.0[t]);
                    assert(c0[t + 1] == p0.0[t + 1]);
                } else {
                    assert(c0[t + 1] == 58);
                }
            }
            lemma_find_sep_at(c0, 0, nlen);
            assert(c0.take(nlen) =~= p0.0);
            assert(c0.skip(nlen + 2) =~= p0.1);
        }
        let pos2 = pos + c0.len() + 2;
        assert(data.subrange(pos2, pos2 + rl + 2) =~= header_lines(rest) + crlf()) by {
            assert forall|j: int| 0 <= j < rl + 2 implies data.subrange(pos2, pos2 + rl + 2)[j]
                == (header_lines(rest) + crlf())[j] by {
                assert(data.subrange(pos2, pos2 + rl + 2)[j] == data[pos2 + j]);
                assert(data.subrange(pos, pos + hl + 2)[c0.len() + 2 + j] == data[pos2 + j]);
                assert((header_lines(hs) + crlf())[c0.len() + 2 + j] == (c0 + crlf()
                    + header_lines(rest) + crlf())[c0.len() + 2 + j]);
            }
        }
        assert(forall|i: int| 0 <= i < rest.len() ==> header_pair_wf(#[trigger] rest[i])) by {
            assert(forall|i: int| 0 <= i < rest.len() ==> rest[i] == hs[i + 1]);
        }
        lemma_headers_region(data, pos2, rest);
        assert(c0.len() > 0);
        assert(line_at(data, pos) == c0);
        assert(spec_headers(data, pos) == Some((seq![p0] + rest, pos2 + rl + 2)));
        assert(seq![p0] + rest =~= hs);
        assert(pos2 + rl + 2 == pos + hl + 2);
    }
}

/// A freshly built response is well-formed for the wire and declares its own
/// body length, so the round trip below applies to it.
pub proof fn lemma_new_round_trip_conditions(status: Seq<u8>, body: Seq<u8>)
    requires
        no_lf(status),
    ensures
        resp_wf(crate::response::spec_new(status, body)),
        spec_lookup(
            crate::response::spec_new(status, body).headers,
            ascii("content-length"@),
        ) == Some(dec_rep(body.len())),
{
    reveal_strlit("Content-Type");
    reveal_strlit("text/plain");
    reveal_strlit("Content-Length");
    reveal_strlit("content-length");
    let r = crate::response::spec_new(status, body);
    lemma_dec_rep_digits(body.len());
    assert(header_pair_wf(r.headers[0])) by {
        let name = ascii("Content-Type"@);
        let value = ascii("text/plain"@);
        assert forall|i: int| 0 <= i < name.len() implies #[trigger] name[i] != 10 by {}
        assert forall|i: int| 0 <= i < value.len() implies #[trigger] value[i] != 10 by {}
        assert forall|t: int| 0 <= t < name.len() - 1 implies !(#[trigger] name[t] == 58
            && name[t + 1] == 32) by {}
    }
    assert(header_pair_wf(r.headers[1])) by {
        let name = ascii("Content-Length"@);
        let value = dec_rep(body.len());
        assert forall|i: int| 0 <= i < name.len() implies #[trigger] name[i] != 10 by {}
        assert forall|i: int| 0 <= i < value.len() implies #[trigger] value[i] != 10 by {
            assert(crate::bytes::is_digit(value[i]));
        }
        assert forall|t: int| 0 <= t < name.len() - 1 implies !(#[trigger] name[t] == 58
            && name[t + 1] == 32) by {}
    }
    assert(spec_lookup(r.headers, ascii("content-length"@)) == Some(dec_rep(body.len()))) by {
        let probe = ascii("content-length"@);
        assert(r.headers.last() == r.headers[1]);
        assert(crate::bytes::lower(r.headers[1].0) =~= crate::bytes::lower(probe)) by {
            assert forall|i: int| 0 <= i < 14 implies crate::bytes::lower_byte(
                #[trigger] ascii("Content-Length"@)[i],
            ) == crate::bytes::lower_byte(probe[i]) by {}
        }
    }
}

/// Serializing a response and re-parsing the bytes as a generic message
/// recovers the status line, the exact header pairs, and the body bytes,
/// consuming the whole serialization.
pub proof fn lemma_serialize_parse_round_trip(r: RespView)
    requires
        resp_wf(r),
        spec_tokens(r.status_code).len() >= 2,
        spec_lookup(r.headers, ascii("content-length"@)) == Some(dec_rep(r.body.len())),
        r.body.len() <= usize::MAX,
    ensures
        ({
            let bytes = spec_serialize(r);
            &&& line_at(bytes, 0) == ascii("HTTP/1.1 "@) + r.status_code
            &&& spec_parse(bytes, 0) matches SpecParse::Parsed(rv, end) && rv.headers == r.headers
                && rv.body == r.body && end == bytes.len()
        }),
{
    reveal_strlit("HTTP/1.1 ");
    reveal_strlit("content-length");
    let bytes = spec_serialize(r);
    let prefix = ascii("HTTP/1.1 "@);
    let start = prefix + r.status_code;
    let sl = start.len() as int;
    let hl = header_lines(r.headers).len() as int;
    let hstart = sl + 2;
    let bstart = hstart + hl + 2;
    assert(bytes.len() == bstart + r.body.len());
    assert(no_lf(start)) by {
        assert forall|i: int| 0 <= i < start.len() implies #[trigger] start[i] != 10 by {
            if i < 9 {
                assert(start[i] == prefix[i]);
            } else {
                assert(start[i] == r.status_code[i - 9]);
            }
        }
    }
    assert(bytes.subrange(0, hstart) =~= start + crlf()) by {
        assert forall|j: int| 0 <= j < hstart implies bytes.subrange(0, hstart)[j] == (start
            + crlf())[j] by {
            assert(bytes.subrange(0, hstart)[j] == bytes[j]);
            assert(bytes[j] == (prefix + r.status_code + crlf() + header_lines(r.headers) + crlf()
                + r.body)[j]);
        }
    }
    lemma_line_region(bytes, 0, start);
    assert(line_at(bytes, 0) == start);
    // The start line tokenizes to `HTTP/1.1` and then the status tokens.
    assert(spec_tokens(start).len() >= 3) by {
        assert forall|t: int| 0 <= t < 8 implies !is_ws(#[trigger] start[t]) by {
            assert(start[t] == prefix[t]);
        }
        assert(!ws_pred()(start[0]));
        lemma_fields_nonsep_run(start, 0, 8, Seq::empty(), ws_pred());
        assert(start[8] == prefix[8]);
        assert(is_ws(start[8]));
        let w = Seq::<u8>::empty() + start.subrange(0, 8);
        assert(w.len() == 8);
        assert(fields_from(start, 8, w, ws_pred()) == opt_field(w) + fields_from(
            start,
            9,
            Seq::empty(),
            ws_pred(),
        ));
        lemma_fields_skip(start, 9, 0, Seq::empty(), ws_pred());
        assert(start.skip(9) =~= r.status_code);
        assert(fields_from(start, 9, Seq::empty(), ws_pred()) == spec_tokens(r.status_code));
        assert(spec_tokens(start).len() == 1 + spec_tokens(r.status_code).len());
    }
    // The header block parses back to the exact pairs.
    assert(bytes.subrange(hstart, bstart) =~= header_lines(r.headers) + crlf()) by {
        assert forall|j: int| 0 <= j < hl + 2 implies bytes.subrange(hstart, bstart)[j] == (
        header_lines(r.headers) + crlf())[j] by {
            assert(bytes.subrange(hstart, bstart)[j] == bytes[hstart + j]);
            assert(bytes[hstart + j] == (prefix + r.status_code + crlf() + header_lines(r.headers)
                + crlf() + r.body)[hstart + j]);
        }
    }
    lemma_headers_region(bytes, hstart, r.headers);
    // The declared content length is the body length.
    lemma_dec_rep_digits(r.body.len());
    lemma_dec_val_of_rep(r.body.len());
    assert(spec_content_len(r.headers) == r.body.len());
    // The body bytes follow exactly.
    assert(bytes.subrange(bstart, bstart + r.body.len()) =~= r.body) by {
        assert forall|j: int| 0 <= j < r.body.len() implies bytes.subrange(
            bstart,
            bstart + r.body.len(),
        )[j] == r.body[j] by {
            assert(bytes.subrange(bstart, bstart + r.body.len())[j] == bytes[bstart + j]);
            assert(bytes[bstart + j] == (prefix + r.status_code + crlf() + header_lines(r.headers)
                + crlf() + r.body)[bstart + j]);
        }
    }
    assert(find_lf(bytes, 0) == sl + 1);
    assert(spec_parse(bytes, 0) matches SpecParse::Parsed(rv, end) && rv.headers == r.headers
        && rv.body == r.body && end == bytes.len());
}

} // verus!
