//! The wire codec: framing of HTTP/1.1 messages to and from bytes.
//!
//! Both grammars are defined once as total spec functions over byte
//! sequences; the exec encoders and decoders are proved to compute
//! exactly those functions.

use vstd::prelude::*;
use crate::bytes::{
    find_pair, find_byte, lower, all_digits, dec_value, seek_pair, seek_byte, subvec, to_lower,
    append_bytes, parse_dec, lemma_find_pair_spec, lemma_find_byte_spec,
};
use crate::bytemap::{ByteMap, pairs_view, spec_insert, spec_lookup};
use crate::http::{
    HTTPMethod, HTTPRequest, HTTPResponse, ReqModel, RespModel, StatusCode, crlf, tok_get,
    tok_post, tok_get_v, tok_post_v, spec_method_from, spec_status_phrase, spec_status_of_phrase,
    key_content_length, key_content_length_v,
};

verus! {

/// Why a byte buffer failed to decode. `BodyTooShort` reports how many
/// more bytes the declared `content-length` still demands, so a caller
/// that reads incrementally knows how much to fetch.
#[derive(Clone, Copy, PartialEq, Eq, Structural, Debug)]
pub enum DecodeError {
    MalformedStartLine,
    MalformedHeader,
    MissingContentLength,
    InvalidContentLength,
    BodyTooShort { missing: usize },
    MalformedBody,
}

/// The start-line token of each method.
pub open spec fn method_token(m: HTTPMethod) -> Seq<u8> {
    match m {
        HTTPMethod::GET => tok_get(),
        HTTPMethod::POST => tok_post(),
    }
}

/// One serialized header line: `name`, a colon and a space, `value`,
/// then a line break.
pub open spec fn header_line(p: (Seq<u8>, Seq<u8>)) -> Seq<u8> {
    p.0 + seq![58u8, 32u8] + p.1 + crlf()
}

/// The serialized header block, one line per entry in order.
pub open spec fn spec_encode_headers(hs: Seq<(Seq<u8>, Seq<u8>)>) -> Seq<u8>
    decreases hs.len(),
{
    if hs.len() == 0 {
        seq![]
    } else {
        header_line(hs[0]) + spec_encode_headers(hs.skip(1))
    }
}

/// Appending a header appends its line.
pub proof fn lemma_encode_headers_push(hs: Seq<(Seq<u8>, Seq<u8>)>, p: (Seq<u8>, Seq<u8>))
    ensures
        spec_encode_headers(hs.push(p)) == spec_encode_headers(hs) + header_line(p),
    decreases hs.len(),
{
    if hs.len() == 0 {
        assert(hs.push(p)[0] == p);
        assert(hs.push(p).skip(1) =~= Seq::<(Seq<u8>, Seq<u8>)>::empty());
        assert(spec_encode_headers(Seq::<(Seq<u8>, Seq<u8>)>::empty()) == Seq::<u8>::empty());
        assert(spec_encode_headers(hs.push(p)) =~= spec_encode_headers(hs) + header_line(p));
    } else {
        assert(hs.push(p)[0] == hs[0]);
        assert(hs.push(p).skip(1) =~= hs.skip(1).push(p));
        lemma_encode_headers_push(hs.skip(1), p);
        assert(spec_encode_headers(hs.push(p)) =~= spec_encode_headers(hs) + header_line(p));
    }
}

/// The exact bytes of a serialized request: start line, header block,
/// blank line, then the raw body if one is present.
pub open spec fn spec_encode_request(q: ReqModel) -> Seq<u8> {
    method_token(q.method) + seq![32u8] + q.path + seq![32u8] + q.version + crlf()
        + spec_encode_headers(q.headers) + crlf() + (match q.body {
        Some(b) => b,
        None => Seq::<u8>::empty(),
    })
}

/// The exact bytes of a serialized response: start line; the header
/// block followed by a blank line only when headers are present; the
/// raw body if present; and a final line break closing the message.
pub open spec fn spec_encode_response(r: RespModel) -> Seq<u8> {
    r.version + seq![32u8] + spec_status_phrase(r.status) + crlf() + (if r.headers.len() > 0 {
        spec_encode_headers(r.headers) + crlf()
    } else {
        Seq::<u8>::empty()
    }) + (match r.body {
        Some(b) => b,
        None => Seq::<u8>::empty(),
    }) + crlf()
}

/// Serialize a response.
pub fn encode_response(resp: &HTTPResponse) -> (out: Vec<u8>)
    ensures
        out@ == spec_encode_response(resp@),
{
    let mut out: Vec<u8> = Vec::new();
    append_bytes(&mut out, &resp.version);
    out.push(32);
    let ph = resp.status_code.phrase();
    append_bytes(&mut out, &ph);
    out.push(13);
    out.push(10);
    let ghost start = resp@.version + seq![32u8] + spec_status_phrase(resp@.status) + crlf();
    assert(out@ =~= start);
    let ghost hpart = if resp@.headers.len() > 0 {
        spec_encode_headers(resp@.headers) + crlf()
    } else {
        Seq::<u8>::empty()
    };
    if resp.headers.len() > 0 {
        let mut i: usize = 0;
        while i < resp.headers.len()
            invariant
                i <= resp.headers@.len(),
                out@ == start + spec_encode_headers(pairs_view(resp.headers@).subrange(0, i as int)),
            decreases resp.headers@.len() - i,
        {
            let ghost before = out@;
            let ghost hs = pairs_view(resp.headers@);
            append_bytes(&mut out, &resp.headers[i].0);
            out.push(58);
            out.push(32);
            append_bytes(&mut out, &resp.headers[i].1);
            out.push(13);
            out.push(10);
            proof {
                assert(out@ =~= before + header_line(hs[i as int]));
                lemma_encode_headers_push(hs.subrange(0, i as int), hs[i as int]);
                assert(hs.subrange(0, i as int).push(hs[i as int]) =~= hs.subrange(0, i + 1));
            }
            i = i + 1;
        }
        assert(pairs_view(resp.headers@).subrange(0, resp.headers@.len() as int) =~= pairs_view(
            resp.headers@,
        ));
        out.push(13);
        out.push(10);
        assert(out@ =~= start + hpart);
    }
    match &resp.body {
        Some(b) => {
            append_bytes(&mut out, b);
        },
        None => {},
    }
    out.push(13);
    out.push(10);
    assert(out@ =~= spec_encode_response(resp@));
    out
}

/// Serialize a request.
pub fn encode_request(req: &HTTPRequest) -> (out: Vec<u8>)
    ensures
        out@ == spec_encode_request(req@),
{
    let mut out: Vec<u8> = Vec::new();
    let tok = match req.method {
        HTTPMethod::GET => tok_get_v(),
        HTTPMethod::POST => tok_post_v(),
    };
    append_bytes(&mut out, &tok);
    out.push(32);
    append_bytes(&mut out, &req.path);
    out.push(32);
    append_bytes(&mut out, &req.version);
    out.push(13);
    out.push(10);
    let ghost start = method_token(req@.method) + seq![32u8] + req@.path + seq![32u8]
        + req@.version + crlf();
    assert(out@ =~= start);
    let mut i: usize = 0;
    while i < req.headers.pairs.len()
        invariant
            i <= req.headers.pairs@.len(),
            out@ == start + spec_encode_headers(req.headers.entries().subrange(0, i as int)),
        decreases req.headers.pairs@.len() - i,
    {
        let ghost before = out@;
        let ghost hs = req.headers.entries();
        append_bytes(&mut out, &req.headers.pairs[i].0);
        out.push(58);
        out.push(32);
        append_bytes(&mut out, &req.headers.pairs[i].1);
        out.push(13);
        out.push(10);
        proof {
            assert(out@ =~= before + header_line(hs[i as int]));
            lemma_encode_headers_push(hs.subrange(0, i as int), hs[i as int]);
            assert(hs.subrange(0, i as int).push(hs[i as int]) =~= hs.subrange(0, i + 1));
        }
        i = i + 1;
    }
    assert(req.headers.entries().subrange(0, req.headers.entries().len() as int) =~= req
        .headers
        .entries());
    out.push(13);
    out.push(10);
    match &req.body {
        Some(b) => {
            append_bytes(&mut out, b);
        },
        None => {},
    }
    assert(out@ =~= spec_encode_request(req@));
    out
}


// ---------------------------------------------------------------------------
// Decoding
// ---------------------------------------------------------------------------

/// Parse line-break-terminated header lines up to and including the
/// blank line. Yields the entries verbatim, in order, and the bytes
/// that follow the blank line. Every line must carry the colon-space
/// separator; a buffer with no blank line is malformed.
pub open spec fn spec_parse_header_block(s: Seq<u8>) -> Result<
    (Seq<(Seq<u8>, Seq<u8>)>, Seq<u8>),
    DecodeError,
>
    decreases s.len(),
{
    let i = find_pair(s, 13, 10);
    if i < 0 {
        Err(DecodeError::MalformedHeader)
    } else if i == 0 {
        Ok((seq![], s.skip(2)))
    } else if i + 2 > s.len() {
        Err(DecodeError::MalformedHeader)
    } else {
        let line = s.subrange(0, i);
        let rest = s.skip(i + 2);
        let j = find_pair(line, 58, 32);
        if j < 0 {
            Err(DecodeError::MalformedHeader)
        } else {
            let k = line.subrange(0, j);
            let v = line.skip(j + 2);
            match spec_parse_header_block(rest) {
                Err(e) => Err(e),
                Ok((es, r)) => Ok((seq![(k, v)] + es, r)),
            }
        }
    }
}

/// Header entries as a request stores them: keys lowercased, one value
/// per key, later occurrences overwriting earlier ones.
pub open spec fn spec_fold_headers(es: Seq<(Seq<u8>, Seq<u8>)>) -> Seq<(Seq<u8>, Seq<u8>)>
    decreases es.len(),
{
    if es.len() == 0 {
        seq![]
    } else {
        spec_insert(spec_fold_headers(es.drop_last()), lower(es.last().0), es.last().1)
    }
}

/// Split a start line on single spaces into exactly three tokens.
pub open spec fn spec_split_start(line: Seq<u8>) -> Option<(Seq<u8>, Seq<u8>, Seq<u8>)> {
    let a = find_byte(line, 32);
    if a < 0 {
        None
    } else {
        let first = line.subrange(0, a);
        let rest = line.skip(a + 1);
        let b = find_byte(rest, 32);
        if b < 0 {
            None
        } else {
            let second = rest.subrange(0, b);
            let third = rest.skip(b + 1);
            if find_byte(third, 32) >= 0 {
                None
            } else {
                Some((first, second, third))
            }
        }
    }
}

/// Meaning of a byte buffer as a request, per the request grammar:
/// a three-token start line with a recognized method, headers to the
/// blank line, and — for POST only — a body of exactly the declared
/// `content-length` bytes. GET carries no body whatever the headers say.
pub open spec fn spec_decode_request(s: Seq<u8>) -> Result<ReqModel, DecodeError> {
    let i = find_pair(s, 13, 10);
    if i < 0 {
        Err(DecodeError::MalformedStartLine)
    } else {
        let line = s.subrange(0, i);
        let rest = s.skip(i + 2);
        match spec_split_start(line) {
            None => Err(DecodeError::MalformedStartLine),
            Some((m, p, ver)) => match spec_method_from(m) {
                None => Err(DecodeError::MalformedStartLine),
                Some(method) => match spec_parse_header_block(rest) {
                    Err(e) => Err(e),
                    Ok((raw, rest2)) => {
                        let hs = spec_fold_headers(raw);
                        match method {
                            HTTPMethod::GET => Ok(
                                ReqModel {
                                    method,
                                    path: p,
                                    version: ver,
                                    headers: hs,
                                    body: None,
                                },
                            ),
                            HTTPMethod::POST => match spec_lookup(hs, key_content_length()) {
                                None => Err(DecodeError::MissingContentLength),
                                Some(cl) => if !(cl.len() > 0 && all_digits(cl)) || dec_value(cl)
                                    > usize::MAX {
                                    Err(DecodeError::InvalidContentLength)
                                } else if rest2.len() < dec_value(cl) {
                                    Err(
                                        DecodeError::BodyTooShort {
                                            missing: (dec_value(cl) - rest2.len()) as usize,
                                        },
                                    )
                                } else {
                                    Ok(
                                        ReqModel {
                                            method,
                                            path: p,
                                            version: ver,
                                            headers: hs,
                                            body: Some(rest2.subrange(0, dec_value(cl))),
                                        },
                                    )
                                },
                            },
                        }
                    },
                },
            },
        }
    }
}

/// Meaning of a byte buffer as a response, mirroring the response
/// grammar the encoder emits: a start line whose remainder after the
/// first space is one of the three status phrases, headers to the blank
/// line kept verbatim, then either nothing, a bare final line break, or
/// a body closed by the final line break.
pub open spec fn spec_decode_response(s: Seq<u8>) -> Result<RespModel, DecodeError> {
    let i = find_pair(s, 13, 10);
    if i < 0 {
        Err(DecodeError::MalformedStartLine)
    } else {
        let line = s.subrange(0, i);
        let rest = s.skip(i + 2);
        let a = find_byte(line, 32);
        if a < 0 {
            Err(DecodeError::MalformedStartLine)
        } else {
            let ver = line.subrange(0, a);
            let phrase = line.skip(a + 1);
            match spec_status_of_phrase(phrase) {
                None => Err(DecodeError::MalformedStartLine),
                Some(status) => match spec_parse_header_block(rest) {
                    Err(e) => Err(e),
                    Ok((es, r2)) => if r2.len() == 0 {
                        Ok(RespModel { version: ver, status, headers: es, body: None })
                    } else if r2 == crlf() {
                        Ok(RespModel { version: ver, status, headers: es, body: None })
                    } else if r2.len() >= 2 && r2[r2.len() - 1] == 10 && r2[r2.len() - 2] == 13 {
                        Ok(
                            RespModel {
                                version: ver,
                                status,
                                headers: es,
                                body: Some(r2.subrange(0, r2.len() - 2)),
                            },
                        )
                    } else {
                        Err(DecodeError::MalformedBody)
                    },
                },
            }
        }
    }
}

/// Exec recognition of a status phrase.
fn status_from_phrase(p: &Vec<u8>) -> (r: Option<StatusCode>)
    ensures
        r == spec_status_of_phrase(p@),
{
    let ok = StatusCode::OK.phrase();
    if crate::bytes::bytes_eq(p, &ok) {
        return Some(StatusCode::OK);
    }
    let cr = StatusCode::Created.phrase();
    if crate::bytes::bytes_eq(p, &cr) {
        return Some(StatusCode::Created);
    }
    let nf = StatusCode::NotFound.phrase();
    if crate::bytes::bytes_eq(p, &nf) {
        return Some(StatusCode::NotFound);
    }
    None
}

/// Exec header-block parsing: the entries verbatim in order, and the
/// bytes after the blank line.
fn parse_headers_exec(buf: &Vec<u8>) -> (r: Result<(Vec<(Vec<u8>, Vec<u8>)>, Vec<u8>), DecodeError>)
    ensures
        match r {
            Ok(p) => spec_parse_header_block(buf@) == Ok::<
                (Seq<(Seq<u8>, Seq<u8>)>, Seq<u8>),
                DecodeError,
            >((pairs_view(p.0@), p.1@)),
            Err(e) => spec_parse_header_block(buf@) == Err::<
                (Seq<(Seq<u8>, Seq<u8>)>, Seq<u8>),
                DecodeError,
            >(e),
        },
{
    let mut rest = subvec(buf, 0, buf.len());
    assert(rest@ == buf@);
    let mut hdrs: Vec<(Vec<u8>, Vec<u8>)> = Vec::new();
    assert(pairs_view(hdrs@) =~= Seq::<(Seq<u8>, Seq<u8>)>::empty());
    loop
        invariant_except_break
            spec_parse_header_block(buf@) == (match spec_parse_header_block(rest@) {
                Ok((es, r2)) => Ok::<(Seq<(Seq<u8>, Seq<u8>)>, Seq<u8>), DecodeError>(
                    (pairs_view(hdrs@) + es, r2),
                ),
                Err(e) => Err::<(Seq<(Seq<u8>, Seq<u8>)>, Seq<u8>), DecodeError>(e),
            }),
        ensures
            spec_parse_header_block(buf@) == Ok::<
                (Seq<(Seq<u8>, Seq<u8>)>, Seq<u8>),
                DecodeError,
            >((pairs_view(hdrs@), rest@)),
        decreases rest@.len(),
    {
        let j = match seek_pair(&rest, 13, 10) {
            None => {
                return Err(DecodeError::MalformedHeader);
            },
            Some(j) => j,
        };
        proof {
            lemma_find_pair_spec(rest@, 13, 10);
        }
        if j == 0 {
            let r2 = subvec(&rest, 2, rest.len());
            assert(r2@ == rest@.skip(2));
            assert(pairs_view(hdrs@) + Seq::<(Seq<u8>, Seq<u8>)>::empty() =~= pairs_view(hdrs@));
            rest = r2;
            break;
        }
        let hline = subvec(&rest, 0, j);
        let c = match seek_pair(&hline, 58, 32) {
            None => {
                return Err(DecodeError::MalformedHeader);
            },
            Some(c) => c,
        };
        proof {
            lemma_find_pair_spec(hline@, 58, 32);
        }
        let name = subvec(&hline, 0, c);
        let value = subvec(&hline, c + 2, hline.len());
        assert(value@ == hline@.skip(c + 2));
        let rlen = rest.len();
        let next = subvec(&rest, j + 2, rlen);
        assert(next@ == rest@.skip(j + 2));
        let ghost prev = pairs_view(hdrs@);
        hdrs.push((name, value));
        proof {
            let p = (hline@.subrange(0, c as int), hline@.skip(c + 2));
            assert(pairs_view(hdrs@) =~= prev.push(p));
            if spec_parse_header_block(next@) is Ok {
                let q = spec_parse_header_block(next@)->Ok_0;
                assert(spec_parse_header_block(rest@) == Ok::<
                    (Seq<(Seq<u8>, Seq<u8>)>, Seq<u8>),
                    DecodeError,
                >((seq![p] + q.0, q.1)));
                assert(prev + (seq![p] + q.0) =~= prev.push(p) + q.0);
            }
        }
        rest = next;
    }
    Ok((hdrs, rest))
}

/// Fold raw header entries into a request header table: keys
/// lowercased, later occurrences overwriting earlier ones.
fn fold_headers_exec(raw: &Vec<(Vec<u8>, Vec<u8>)>) -> (hm: ByteMap)
    ensures
        hm.entries() == spec_fold_headers(pairs_view(raw@)),
        hm.wf(),
{
    let mut hm = ByteMap::new();
    assert(spec_fold_headers(pairs_view(raw@).subrange(0, 0)) =~= hm.entries());
    let mut idx: usize = 0;
    while idx < raw.len()
        invariant
            idx <= raw@.len(),
            hm.wf(),
            hm.entries() == spec_fold_headers(pairs_view(raw@).subrange(0, idx as int)),
        decreases raw@.len() - idx,
    {
        let k = to_lower(&raw[idx].0);
        let v = subvec(&raw[idx].1, 0, raw[idx].1.len());
        assert(v@ =~= raw@[idx as int].1@);
        proof {
            assert(pairs_view(raw@)[idx as int] == (raw@[idx as int].0@, raw@[idx as int].1@));
            crate::bytemap::lemma_insert_props(hm.entries(), k@, v@);
            let pv = pairs_view(raw@);
            assert(pv.subrange(0, idx + 1).drop_last() =~= pv.subrange(0, idx as int));
            assert(pv.subrange(0, idx + 1).last() == pv[idx as int]);
        }
        hm.insert(k, v);
        assert(hm.entries() == spec_fold_headers(pairs_view(raw@).subrange(0, idx + 1)));
        idx = idx + 1;
    }
    assert(pairs_view(raw@).subrange(0, raw@.len() as int) =~= pairs_view(raw@));
    hm
}

/// Decode a request from a complete message buffer.
pub fn decode_request(input: &Vec<u8>) -> (r: Result<HTTPRequest, DecodeError>)
    ensures
        match r {
            Ok(req) => spec_decode_request(input@) == Ok::<ReqModel, DecodeError>(req@)
                && req.headers.wf(),
            Err(e) => spec_decode_request(input@) == Err::<ReqModel, DecodeError>(e),
        },
{
    let n_in = input.len();
    let i = match seek_pair(input, 13, 10) {
        None => {
            return Err(DecodeError::MalformedStartLine);
        },
        Some(i) => i,
    };
    proof {
        lemma_find_pair_spec(input@, 13, 10);
    }
    let line = subvec(input, 0, i);
    // Start line: exactly three space-separated tokens.
    let a = match seek_byte(&line, 32) {
        None => {
            return Err(DecodeError::MalformedStartLine);
        },
        Some(a) => a,
    };
    proof {
        lemma_find_byte_spec(line@, 32);
    }
    let m_tok = subvec(&line, 0, a);
    let rest1 = subvec(&line, a + 1, line.len());
    assert(rest1@ == line@.skip(a + 1));
    let b = match seek_byte(&rest1, 32) {
        None => {
            return Err(DecodeError::MalformedStartLine);
        },
        Some(b) => b,
    };
    proof {
        lemma_find_byte_spec(rest1@, 32);
    }
    let path = subvec(&rest1, 0, b);
    let version = subvec(&rest1, b + 1, rest1.len());
    assert(version@ == rest1@.skip(b + 1));
    if let Some(_) = seek_byte(&version, 32) {
        return Err(DecodeError::MalformedStartLine);
    }
    assert(spec_split_start(line@) == Some((m_tok@, path@, version@)));
    let method = match HTTPMethod::from(&m_tok) {
        None => {
            return Err(DecodeError::MalformedStartLine);
        },
        Some(m) => m,
    };
    // Header block, then the request's lowercased last-write-wins table.
    let rest_all = subvec(input, i + 2, n_in);
    assert(rest_all@ == input@.skip(i + 2));
    let (raw_hdrs, rest) = match parse_headers_exec(&rest_all) {
        Err(e) => {
            return Err(e);
        },
        Ok(p) => p,
    };
    let hm = fold_headers_exec(&raw_hdrs);
    // Body.
    match method {
        HTTPMethod::GET => Ok(HTTPRequest { method, path, version, headers: hm, body: None }),
        HTTPMethod::POST => {
            let clk = key_content_length_v();
            let cl = match hm.get(&clk) {
                None => {
                    return Err(DecodeError::MissingContentLength);
                },
                Some(cl) => cl,
            };
            let n = match parse_dec(cl) {
                None => {
                    return Err(DecodeError::InvalidContentLength);
                },
                Some(n) => n,
            };
            if rest.len() < n {
                return Err(DecodeError::BodyTooShort { missing: n - rest.len() });
            }
            let body = subvec(&rest, 0, n);
            Ok(HTTPRequest { method, path, version, headers: hm, body: Some(body) })
        },
    }
}

/// Decode a response from a complete message buffer.
pub fn decode_response(input: &Vec<u8>) -> (r: Result<HTTPResponse, DecodeError>)
    ensures
        match r {
            Ok(resp) => spec_decode_response(input@) == Ok::<RespModel, DecodeError>(resp@),
            Err(e) => spec_decode_response(input@) == Err::<RespModel, DecodeError>(e),
        },
{
    let n_in = input.len();
    let i = match seek_pair(input, 13, 10) {
        None => {
            return Err(DecodeError::MalformedStartLine);
        },
        Some(i) => i,
    };
    proof {
        lemma_find_pair_spec(input@, 13, 10);
    }
    let line = subvec(input, 0, i);
    let a = match seek_byte(&line, 32) {
        None => {
            return Err(DecodeError::MalformedStartLine);
        },
        Some(a) => a,
    };
    proof {
        lemma_find_byte_spec(line@, 32);
    }
    let version = subvec(&line, 0, a);
    let phrase = subvec(&line, a + 1, line.len());
    assert(phrase@ == line@.skip(a + 1));
    let status = match status_from_phrase(&phrase) {
        None => {
            return Err(DecodeError::MalformedStartLine);
        },
        Some(s) => s,
    };
    // Header block, entries kept verbatim.
    let rest_all = subvec(input, i + 2, n_in);
    assert(rest_all@ == input@.skip(i + 2));
    let (hdrs, rest) = match parse_headers_exec(&rest_all) {
        Err(e) => {
            return Err(e);
        },
        Ok(p) => p,
    };
    // Body: nothing, a bare final line break, or body bytes closed by it.
    if rest.len() == 0 {
        return Ok(HTTPResponse { version, status_code: status, headers: hdrs, body: None });
    }
    if rest.len() == 2 && rest[0] == 13 && rest[1] == 10 {
        assert(rest@ =~= crlf());
        return Ok(HTTPResponse { version, status_code: status, headers: hdrs, body: None });
    }
    if rest.len() >= 2 && rest[rest.len() - 1] == 10 && rest[rest.len() - 2] == 13 {
        assert(rest@ != crlf());
        let body = subvec(&rest, 0, rest.len() - 2);
        return Ok(HTTPResponse { version, status_code: status, headers: hdrs, body: Some(body) });
    }
    assert(rest@.len() >= 2 ==> !(rest@[rest@.len() - 1] == 10 && rest@[rest@.len() - 2] == 13));
    Err(DecodeError::MalformedBody)
}

} // verus!
