//! The library's laws: what the router promises on each route, for all
//! inputs, and that decoding inverts encoding on both message grammars.

use vstd::prelude::*;
use crate::bytes::{
    pair_free, byte_free, starts_with, dec_digits, dec_value, lemma_dec_digits, find_pair,
    find_byte, lemma_find_byte_spec, lemma_find_pair_concat, lemma_find_byte_concat,
    lemma_pair_free_concat, lower,
};
use crate::bytemap::{spec_lookup, spec_insert, distinct_keys, lemma_insert_props,
    lemma_insert_fresh};
use crate::http::{
    HTTPMethod, ReqModel, RespModel, StatusCode, crlf, tok_get, tok_post, phrase_ok,
    phrase_created, phrase_not_found, spec_status_phrase, lemma_phrase_of_status,
    spec_method_from, path_root, pre_echo, pre_user_agent, pre_files, key_user_agent,
    key_content_length, hdr_content_type, hdr_content_length, val_text_plain, val_octet_stream,
};
use crate::router::{RouteError, dispatch_spec, resp_empty, resp_content};
use crate::codec::{
    DecodeError, spec_encode_request, spec_encode_response, spec_decode_request,
    spec_decode_response, spec_encode_headers, spec_parse_header_block, spec_fold_headers,
    spec_split_start, method_token,
};

verus! {

// ---------------------------------------------------------------------------
// Small helpers
// ---------------------------------------------------------------------------

/// A two-byte pattern cannot occur where its first byte never does.
proof fn lemma_no_first_byte_pair_free(s: Seq<u8>, a: u8, b: u8)
    requires
        byte_free(s, a),
    ensures
        pair_free(s, a, b),
{
}

/// In a two-entry table whose first key is not `k` and whose second
/// is, lookup finds the second value.
proof fn lemma_lookup_two(a: (Seq<u8>, Seq<u8>), b: (Seq<u8>, Seq<u8>), k: Seq<u8>)
    requires
        a.0 != k,
        b.0 == k,
    ensures
        spec_lookup(seq![a, b], k) == Some(b.1),
{
    assert(seq![a, b].skip(1) =~= seq![b]);
    assert(seq![a, b][0] == a);
    assert(seq![b][0] == b);
    assert(spec_lookup(seq![b], k) == Some(b.1));
}

/// The `Content-Length` value of a body-bearing response built by the
/// router is the body's exact decimal length.
proof fn lemma_content_headers(version: Seq<u8>, ct: Seq<u8>, body: Seq<u8>)
    ensures
        spec_lookup(resp_content(version, ct, body).headers, hdr_content_length()) == Some(
            dec_digits(body.len()),
        ),
        resp_content(version, ct, body).body == Some(body),
        dec_value(dec_digits(body.len())) == body.len(),
    decreases body.len(),
{
    assert(hdr_content_type().len() == 12);
    assert(hdr_content_length().len() == 14);
    lemma_lookup_two(
        (hdr_content_type(), ct),
        (hdr_content_length(), dec_digits(body.len())),
        hdr_content_length(),
    );
    assert(resp_content(version, ct, body).headers =~= seq![
        (hdr_content_type(), ct),
        (hdr_content_length(), dec_digits(body.len())),
    ]);
    lemma_dec_digits(body.len());
}

/// A path on the file routes matches no earlier route: it is not the
/// root and carries neither the echo nor the user-agent prefix.
proof fn lemma_files_path_routing(path: Seq<u8>)
    requires
        starts_with(path, pre_files()),
    ensures
        path != path_root(),
        !starts_with(path, pre_echo()),
        !starts_with(path, pre_user_agent()),
{
    assert(path.len() >= 7);
    assert(path.subrange(0, 7)[1] == path[1]);
    assert(pre_files()[1] == 102);
    assert(path_root().len() == 1);
    if starts_with(path, pre_echo()) {
        assert(path.subrange(0, 6)[1] == path[1]);
        assert(pre_echo()[1] == 101);
        assert(false);
    }
    if starts_with(path, pre_user_agent()) {
        assert(path.subrange(0, 11)[1] == path[1]);
        assert(pre_user_agent()[1] == 117);
        assert(false);
    }
}

// ---------------------------------------------------------------------------
// Routing laws
// ---------------------------------------------------------------------------

/// Every echo request is answered OK, the body is exactly the path
/// remainder after the echo prefix, its `Content-Length` header is the
/// remainder's exact byte length, and the store is untouched.
pub proof fn lemma_echo_identity(q: ReqModel, fs: Seq<(Seq<u8>, Seq<u8>)>)
    requires
        q.method == HTTPMethod::GET,
        starts_with(q.path, pre_echo()),
    ensures
        ({
            let text = q.path.skip(pre_echo().len() as int);
            let resp = resp_content(q.version, val_text_plain(), text);
            &&& dispatch_spec(q, fs) == Ok::<(RespModel, Seq<(Seq<u8>, Seq<u8>)>), RouteError>(
                (resp, fs),
            )
            &&& resp.status == StatusCode::OK
            &&& resp.body == Some(text)
            &&& spec_lookup(resp.headers, hdr_content_length()) == Some(dec_digits(text.len()))
            &&& dec_value(dec_digits(text.len())) == text.len()
        }),
{
    assert(q.path.len() >= 6);
    assert(path_root().len() == 1);
    let text = q.path.skip(pre_echo().len() as int);
    lemma_content_headers(q.version, val_text_plain(), text);
}

/// Writing a file and then fetching it under the same name returns OK
/// with exactly the written body: the write-then-read round trip.
pub proof fn lemma_files_write_then_read(
    post: ReqModel,
    get: ReqModel,
    fs: Seq<(Seq<u8>, Seq<u8>)>,
    name: Seq<u8>,
    b: Seq<u8>,
)
    requires
        distinct_keys(fs),
        post.method == HTTPMethod::POST,
        post.path == pre_files() + name,
        post.body == Some(b),
        get.method == HTTPMethod::GET,
        get.path == pre_files() + name,
    ensures
        ({
            let fs2 = spec_insert(fs, name, b);
            &&& dispatch_spec(post, fs) == Ok::<(RespModel, Seq<(Seq<u8>, Seq<u8>)>), RouteError>(
                (resp_empty(post.version, StatusCode::Created), fs2),
            )
            &&& dispatch_spec(get, fs2) == Ok::<(RespModel, Seq<(Seq<u8>, Seq<u8>)>), RouteError>(
                (resp_content(get.version, val_octet_stream(), b), fs2),
            )
        }),
{
    let path = pre_files() + name;
    assert(path.subrange(0, pre_files().len() as int) =~= pre_files());
    assert(path.skip(pre_files().len() as int) =~= name);
    lemma_files_path_routing(path);
    lemma_insert_props(fs, name, b);
}

/// Fetching a file name with no binding in the store returns a bare
/// NotFound: no headers, no body, store untouched.
pub proof fn lemma_files_missing(q: ReqModel, fs: Seq<(Seq<u8>, Seq<u8>)>)
    requires
        q.method == HTTPMethod::GET,
        starts_with(q.path, pre_files()),
        spec_lookup(fs, q.path.skip(pre_files().len() as int)) is None,
    ensures
        dispatch_spec(q, fs) == Ok::<(RespModel, Seq<(Seq<u8>, Seq<u8>)>), RouteError>(
            (resp_empty(q.version, StatusCode::NotFound), fs),
        ),
{
    lemma_files_path_routing(q.path);
}

/// The root route answers a bare OK, and its serialization is exactly
/// the version, the OK phrase, and two line breaks.
pub proof fn lemma_root_ok(q: ReqModel, fs: Seq<(Seq<u8>, Seq<u8>)>)
    requires
        q.method == HTTPMethod::GET,
        q.path == path_root(),
    ensures
        dispatch_spec(q, fs) == Ok::<(RespModel, Seq<(Seq<u8>, Seq<u8>)>), RouteError>(
            (resp_empty(q.version, StatusCode::OK), fs),
        ),
        spec_encode_response(resp_empty(q.version, StatusCode::OK)) == q.version + seq![32u8]
            + phrase_ok() + crlf() + crlf(),
{
    assert(spec_encode_response(resp_empty(q.version, StatusCode::OK)) =~= q.version + seq![32u8]
        + phrase_ok() + crlf() + crlf());
}

/// A GET path matching no route answers a bare NotFound, serialized as
/// exactly the version, the NotFound phrase, and two line breaks.
pub proof fn lemma_unmatched_not_found(q: ReqModel, fs: Seq<(Seq<u8>, Seq<u8>)>)
    requires
        q.method == HTTPMethod::GET,
        q.path != path_root(),
        !starts_with(q.path, pre_echo()),
        !starts_with(q.path, pre_user_agent()),
        !starts_with(q.path, pre_files()),
    ensures
        dispatch_spec(q, fs) == Ok::<(RespModel, Seq<(Seq<u8>, Seq<u8>)>), RouteError>(
            (resp_empty(q.version, StatusCode::NotFound), fs),
        ),
        spec_encode_response(resp_empty(q.version, StatusCode::NotFound)) == q.version
            + seq![32u8] + phrase_not_found() + crlf() + crlf(),
{
    assert(spec_encode_response(resp_empty(q.version, StatusCode::NotFound)) =~= q.version
        + seq![32u8] + phrase_not_found() + crlf() + crlf());
}

/// The user-agent route answers OK with the request's `user-agent`
/// header value, verbatim, as the body, with its exact byte length as
/// `Content-Length`.
pub proof fn lemma_user_agent_echoed(q: ReqModel, fs: Seq<(Seq<u8>, Seq<u8>)>, ua: Seq<u8>)
    requires
        q.method == HTTPMethod::GET,
        starts_with(q.path, pre_user_agent()),
        spec_lookup(q.headers, key_user_agent()) == Some(ua),
    ensures
        ({
            let resp = resp_content(q.version, val_text_plain(), ua);
            &&& dispatch_spec(q, fs) == Ok::<(RespModel, Seq<(Seq<u8>, Seq<u8>)>), RouteError>(
                (resp, fs),
            )
            &&& resp.body == Some(ua)
            &&& spec_lookup(resp.headers, hdr_content_length()) == Some(dec_digits(ua.len()))
            &&& dec_value(dec_digits(ua.len())) == ua.len()
        }),
{
    assert(q.path.len() >= 11);
    assert(path_root().len() == 1);
    if starts_with(q.path, pre_echo()) {
        assert(q.path.subrange(0, 6)[1] == q.path[1]);
        assert(q.path.subrange(0, 11)[1] == q.path[1]);
        assert(pre_echo()[1] == 101);
        assert(pre_user_agent()[1] == 117);
        assert(false);
    }
    lemma_content_headers(q.version, val_text_plain(), ua);
}

/// A request the router refuses leaves the store as it stands: a
/// missing `user-agent` header on its route, or a missing body on a
/// file write, yields exactly that error.
pub proof fn lemma_route_errors(q: ReqModel, fs: Seq<(Seq<u8>, Seq<u8>)>)
    requires
        q.method == HTTPMethod::GET && starts_with(q.path, pre_user_agent()) && spec_lookup(
            q.headers,
            key_user_agent(),
        ) is None || q.method == HTTPMethod::POST && starts_with(q.path, pre_files())
            && q.body is None,
    ensures
        q.method == HTTPMethod::GET ==> dispatch_spec(q, fs) == Err::<
            (RespModel, Seq<(Seq<u8>, Seq<u8>)>),
            RouteError,
        >(RouteError::MissingRequiredHeader),
        q.method == HTTPMethod::POST ==> dispatch_spec(q, fs) == Err::<
            (RespModel, Seq<(Seq<u8>, Seq<u8>)>),
            RouteError,
        >(RouteError::MissingBody),
{
    if q.method == HTTPMethod::GET {
        assert(q.path.len() >= 11);
        assert(path_root().len() == 1);
        if starts_with(q.path, pre_echo()) {
            assert(q.path.subrange(0, 6)[1] == q.path[1]);
            assert(q.path.subrange(0, 11)[1] == q.path[1]);
            assert(pre_echo()[1] == 101);
            assert(pre_user_agent()[1] == 117);
            assert(false);
        }
    }
}


// ---------------------------------------------------------------------------
// Round-trip laws: decoding inverts encoding on both grammars
// ---------------------------------------------------------------------------

/// The `GET` token holds neither a line-break byte nor a space.
proof fn lemma_tok_get_clean()
    ensures
        pair_free(tok_get(), 13, 10),
        byte_free(tok_get(), 32),
{
    assert forall|i: int| 0 <= i < tok_get().len() implies (#[trigger] tok_get()[i]) != 13 && tok_get()[i] != 32 by {
            if i == 0 {
                assert(tok_get()[0] == 71);
            } else if i == 1 {
                assert(tok_get()[1] == 69);
            } else {
                assert(tok_get()[2] == 84);
            }
    }
    lemma_no_first_byte_pair_free(tok_get(), 13, 10);
}
/// The `POST` token holds neither a line-break byte nor a space.
proof fn lemma_tok_post_clean()
    ensures
        pair_free(tok_post(), 13, 10),
        byte_free(tok_post(), 32),
{
    assert forall|i: int| 0 <= i < tok_post().len() implies (#[trigger] tok_post()[i]) != 13 && tok_post()[i] != 32 by {
            if i == 0 {
                assert(tok_post()[0] == 80);
            } else if i == 1 {
                assert(tok_post()[1] == 79);
            } else if i == 2 {
                assert(tok_post()[2] == 83);
            } else {
                assert(tok_post()[3] == 84);
            }
    }
    lemma_no_first_byte_pair_free(tok_post(), 13, 10);
}
/// No status phrase holds a line-break byte.
proof fn lemma_phrase_clean(st: StatusCode)
    ensures
        pair_free(spec_status_phrase(st), 13, 10),
{
    match st {
        StatusCode::OK => {
    assert forall|i: int| 0 <= i < phrase_ok().len() implies (#[trigger] phrase_ok()[i]) != 13 by {
            if i == 0 {
                assert(phrase_ok()[0] == 50);
            } else if i == 1 {
                assert(phrase_ok()[1] == 48);
            } else if i == 2 {
                assert(phrase_ok()[2] == 48);
            } else if i == 3 {
                assert(phrase_ok()[3] == 32);
            } else if i == 4 {
                assert(phrase_ok()[4] == 79);
            } else {
                assert(phrase_ok()[5] == 75);
            }
    }
            lemma_no_first_byte_pair_free(phrase_ok(), 13, 10);
        },
        StatusCode::Created => {
    assert forall|i: int| 0 <= i < phrase_created().len() implies (#[trigger] phrase_created()[i]) != 13 by {
            if i == 0 {
                assert(phrase_created()[0] == 50);
            } else if i == 1 {
                assert(phrase_created()[1] == 48);
            } else if i == 2 {
                assert(phrase_created()[2] == 49);
            } else if i == 3 {
                assert(phrase_created()[3] == 32);
            } else if i == 4 {
                assert(phrase_created()[4] == 67);
            } else if i == 5 {
                assert(phrase_created()[5] == 114);
            } else if i == 6 {
                assert(phrase_created()[6] == 101);
            } else if i == 7 {
                assert(phrase_created()[7] == 97);
            } else if i == 8 {
                assert(phrase_created()[8] == 116);
            } else if i == 9 {
                assert(phrase_created()[9] == 101);
            } else {
                assert(phrase_created()[10] == 100);
            }
    }
            lemma_no_first_byte_pair_free(phrase_created(), 13, 10);
        },
        StatusCode::NotFound => {
    assert forall|i: int| 0 <= i < phrase_not_found().len() implies (#[trigger] phrase_not_found()[i]) != 13 by {
            if i == 0 {
                assert(phrase_not_found()[0] == 52);
            } else if i == 1 {
                assert(phrase_not_found()[1] == 48);
            } else if i == 2 {
                assert(phrase_not_found()[2] == 52);
            } else if i == 3 {
                assert(phrase_not_found()[3] == 32);
            } else if i == 4 {
                assert(phrase_not_found()[4] == 78);
            } else if i == 5 {
                assert(phrase_not_found()[5] == 111);
            } else if i == 6 {
                assert(phrase_not_found()[6] == 116);
            } else if i == 7 {
                assert(phrase_not_found()[7] == 32);
            } else if i == 8 {
                assert(phrase_not_found()[8] == 70);
            } else if i == 9 {
                assert(phrase_not_found()[9] == 111);
            } else if i == 10 {
                assert(phrase_not_found()[10] == 117);
            } else if i == 11 {
                assert(phrase_not_found()[11] == 110);
            } else {
                assert(phrase_not_found()[12] == 100);
            }
    }
            lemma_no_first_byte_pair_free(phrase_not_found(), 13, 10);
        },
    }
}

/// A header entry whose serialization parses back: no line-break
/// pattern in name or value, and no separator pattern in the name.
pub open spec fn wf_header(p: (Seq<u8>, Seq<u8>)) -> bool {
    pair_free(p.0, 13, 10) && pair_free(p.1, 13, 10) && pair_free(p.0, 58, 32)
}

/// Every entry is a well-formed header.
pub open spec fn wf_headers(hs: Seq<(Seq<u8>, Seq<u8>)>) -> bool {
    forall|i: int| 0 <= i < hs.len() ==> wf_header(#[trigger] hs[i])
}

/// The responses whose serialization parses back to the same value: a
/// version free of spaces and line breaks, well-formed headers, and a
/// body that, when present, is nonempty and accompanied by headers.
pub open spec fn wf_resp(r: RespModel) -> bool {
    &&& pair_free(r.version, 13, 10)
    &&& byte_free(r.version, 32)
    &&& wf_headers(r.headers)
    &&& (match r.body {
        None => true,
        Some(b) => b.len() > 0 && r.headers.len() > 0,
    })
}

/// The requests whose serialization parses back to the same value:
/// path and version free of spaces and line breaks; well-formed header
/// entries with distinct, already-lowercase keys; a body exactly when
/// the method is POST, with a matching `content-length` entry.
pub open spec fn wf_req(q: ReqModel) -> bool {
    &&& pair_free(q.path, 13, 10)
    &&& byte_free(q.path, 32)
    &&& pair_free(q.version, 13, 10)
    &&& byte_free(q.version, 32)
    &&& wf_headers(q.headers)
    &&& distinct_keys(q.headers)
    &&& (forall|i: int|
        0 <= i < q.headers.len() ==> lower((#[trigger] q.headers[i]).0) == q.headers[i].0)
    &&& (match q.body {
        None => q.method == HTTPMethod::GET,
        Some(b) => q.method == HTTPMethod::POST && b.len() <= usize::MAX && spec_lookup(
            q.headers,
            key_content_length(),
        ) == Some(dec_digits(b.len())),
    })
}

/// Parsing the serialized block of well-formed headers recovers every
/// entry verbatim and hands back exactly what follows the blank line.
proof fn lemma_parse_encoded_headers(hs: Seq<(Seq<u8>, Seq<u8>)>, suffix: Seq<u8>)
    requires
        wf_headers(hs),
    ensures
        spec_parse_header_block(spec_encode_headers(hs) + crlf() + suffix) == Ok::<
            (Seq<(Seq<u8>, Seq<u8>)>, Seq<u8>),
            DecodeError,
        >((hs, suffix)),
    decreases hs.len(),
{
    let s = spec_encode_headers(hs) + crlf() + suffix;
    if hs.len() == 0 {
        assert(s =~= crlf() + suffix);
        assert(s[0] == 13 && s[1] == 10);
        assert(find_pair(s, 13, 10) == 0);
        assert(s.skip(2) =~= suffix);
        assert(hs =~= Seq::<(Seq<u8>, Seq<u8>)>::empty());
        assert(spec_parse_header_block(s) == Ok::<
            (Seq<(Seq<u8>, Seq<u8>)>, Seq<u8>),
            DecodeError,
        >((hs, suffix)));
    } else {
        let h = hs[0];
        assert(wf_header(h));
        let u = h.0 + seq![58u8, 32u8] + h.1;
        let tail = spec_encode_headers(hs.skip(1)) + crlf() + suffix;
        assert(s =~= u + (crlf() + tail));
        assert(seq![58u8, 32u8][0] == 58 && seq![58u8, 32u8][1] == 32);
        assert(pair_free(seq![58u8, 32u8], 13, 10));
        lemma_pair_free_concat(h.0, seq![58u8, 32u8], 13, 10);
        assert((h.0 + seq![58u8, 32u8]).last() == 32);
        lemma_pair_free_concat(h.0 + seq![58u8, 32u8], h.1, 13, 10);
        assert(u =~= (h.0 + seq![58u8, 32u8]) + h.1);
        assert((crlf() + tail)[0] == 13 && (crlf() + tail)[1] == 10);
        lemma_find_pair_concat(u, crlf() + tail, 13, 10);
        assert(find_pair(s, 13, 10) == u.len());
        assert(u.len() >= 2);
        assert(s.len() == u.len() + 2 + tail.len());
        assert(s.subrange(0, u.len() as int) =~= u);
        assert(s.skip((u.len() + 2) as int) =~= tail);
        // The separator splits the line at the name's end.
        let v2 = seq![58u8, 32u8] + h.1;
        assert(v2[0] == 58 && v2[1] == 32);
        lemma_find_pair_concat(h.0, v2, 58, 32);
        assert(u =~= h.0 + v2);
        assert(find_pair(u, 58, 32) == h.0.len());
        assert(u.subrange(0, h.0.len() as int) =~= h.0);
        assert(u.skip((h.0.len() + 2) as int) =~= h.1);
        assert forall|i: int| 0 <= i < hs.skip(1).len() implies wf_header(
            #[trigger] hs.skip(1)[i],
        ) by {
            assert(hs.skip(1)[i] == hs[i + 1]);
        }
        lemma_parse_encoded_headers(hs.skip(1), suffix);
        assert((h.0, h.1) == h);
        assert(seq![h] + hs.skip(1) =~= hs);
        assert(spec_parse_header_block(s) == Ok::<
            (Seq<(Seq<u8>, Seq<u8>)>, Seq<u8>),
            DecodeError,
        >((hs, suffix)));
    }
}

/// Folding header entries whose keys are already lowercase and
/// pairwise distinct changes nothing.
proof fn lemma_fold_identity(es: Seq<(Seq<u8>, Seq<u8>)>)
    requires
        distinct_keys(es),
        forall|i: int| 0 <= i < es.len() ==> lower((#[trigger] es[i]).0) == es[i].0,
    ensures
        spec_fold_headers(es) == es,
    decreases es.len(),
{
    if es.len() > 0 {
        let p = es.drop_last();
        assert forall|i: int, j: int| 0 <= i < j < p.len() implies (#[trigger] p[i]).0
            != (#[trigger] p[j]).0 by {
            assert(p[i] == es[i] && p[j] == es[j]);
        }
        assert forall|i: int| 0 <= i < p.len() implies lower((#[trigger] p[i]).0) == p[i].0 by {
            assert(p[i] == es[i]);
        }
        lemma_fold_identity(p);
        let last = es.last();
        assert(es[es.len() - 1] == last);
        assert(lower(last.0) == last.0);
        assert forall|j: int| 0 <= j < p.len() implies (#[trigger] p[j]).0 != last.0 by {
            assert(p[j] == es[j]);
        }
        lemma_insert_fresh(p, last.0, last.1);
        assert((last.0, last.1) == last);
        assert(p.push(last) =~= es);
    }
}

/// Decoding inverts encoding on the response grammar: for every
/// well-formed response, parsing the bytes the encoder emits yields a
/// structurally equal response.
pub proof fn lemma_response_round_trip(r: RespModel)
    requires
        wf_resp(r),
    ensures
        spec_decode_response(spec_encode_response(r)) == Ok::<RespModel, DecodeError>(r),
{
    let s = spec_encode_response(r);
    let ph = spec_status_phrase(r.status);
    let sl = r.version + seq![32u8] + ph;
    let hpart = if r.headers.len() > 0 {
        spec_encode_headers(r.headers) + crlf()
    } else {
        Seq::<u8>::empty()
    };
    let bpart = match r.body {
        Some(b) => b,
        None => Seq::<u8>::empty(),
    };
    let tail = hpart + bpart + crlf();
    assert(s =~= sl + (crlf() + tail));
    lemma_phrase_clean(r.status);
    assert(seq![32u8][0] == 32);
    assert(pair_free(seq![32u8], 13, 10));
    lemma_pair_free_concat(r.version, seq![32u8], 13, 10);
    assert((r.version + seq![32u8]).last() == 32);
    lemma_pair_free_concat(r.version + seq![32u8], ph, 13, 10);
    assert(sl =~= (r.version + seq![32u8]) + ph);
    assert((crlf() + tail)[0] == 13 && (crlf() + tail)[1] == 10);
    lemma_find_pair_concat(sl, crlf() + tail, 13, 10);
    assert(find_pair(s, 13, 10) == sl.len());
    assert(s.len() == sl.len() + 2 + tail.len());
    assert(s.subrange(0, sl.len() as int) =~= sl);
    assert(s.skip((sl.len() + 2) as int) =~= tail);
    let v2 = seq![32u8] + ph;
    assert(v2[0] == 32);
    lemma_find_byte_concat(r.version, v2, 32);
    assert(sl =~= r.version + v2);
    assert(find_byte(sl, 32) == r.version.len());
    assert(sl.subrange(0, r.version.len() as int) =~= r.version);
    assert(sl.skip((r.version.len() + 1) as int) =~= ph);
    lemma_phrase_of_status(r.status);
    if r.headers.len() > 0 {
        let suffix = bpart + crlf();
        assert(tail =~= spec_encode_headers(r.headers) + crlf() + suffix);
        lemma_parse_encoded_headers(r.headers, suffix);
        match r.body {
            None => {
                assert(suffix =~= crlf());
            },
            Some(b) => {
                assert(suffix.len() == b.len() + 2);
                assert(suffix.len() > 2);
                assert(suffix != crlf());
                assert(suffix[suffix.len() - 1] == 10 && suffix[suffix.len() - 2] == 13);
                assert(suffix.subrange(0, suffix.len() - 2) =~= b);
            },
        }
    } else {
        assert(r.body is None);
        assert(tail =~= spec_encode_headers(Seq::<(Seq<u8>, Seq<u8>)>::empty()) + crlf()
            + Seq::<u8>::empty());
        lemma_parse_encoded_headers(Seq::<(Seq<u8>, Seq<u8>)>::empty(), Seq::<u8>::empty());
        assert(r.headers =~= Seq::<(Seq<u8>, Seq<u8>)>::empty());
    }
    assert(spec_decode_response(s) == Ok::<RespModel, DecodeError>(r));
}

/// Decoding inverts encoding on the request grammar: for every
/// well-formed request, parsing the bytes the encoder emits yields a
/// structurally equal request.
pub proof fn lemma_request_round_trip(q: ReqModel)
    requires
        wf_req(q),
    ensures
        spec_decode_request(spec_encode_request(q)) == Ok::<ReqModel, DecodeError>(q),
{
    let s = spec_encode_request(q);
    let tok = method_token(q.method);
    let sl = tok + seq![32u8] + q.path + seq![32u8] + q.version;
    let bpart = match q.body {
        Some(b) => b,
        None => Seq::<u8>::empty(),
    };
    let tail = spec_encode_headers(q.headers) + crlf() + bpart;
    assert(s =~= sl + (crlf() + tail));
    lemma_tok_get_clean();
    lemma_tok_post_clean();
    assert(seq![32u8][0] == 32);
    assert(pair_free(seq![32u8], 13, 10));
    lemma_pair_free_concat(tok, seq![32u8], 13, 10);
    assert((tok + seq![32u8]).last() == 32);
    lemma_pair_free_concat(tok + seq![32u8], q.path, 13, 10);
    lemma_pair_free_concat(tok + seq![32u8] + q.path, seq![32u8], 13, 10);
    assert((tok + seq![32u8] + q.path + seq![32u8]).last() == 32);
    lemma_pair_free_concat(tok + seq![32u8] + q.path + seq![32u8], q.version, 13, 10);
    assert(sl =~= (tok + seq![32u8] + q.path + seq![32u8]) + q.version);
    assert(sl =~= ((tok + seq![32u8] + q.path) + seq![32u8]) + q.version);
    assert(sl =~= ((tok + seq![32u8]) + q.path) + seq![32u8] + q.version);
    assert((crlf() + tail)[0] == 13 && (crlf() + tail)[1] == 10);
    lemma_find_pair_concat(sl, crlf() + tail, 13, 10);
    assert(find_pair(s, 13, 10) == sl.len());
    assert(s.len() == sl.len() + 2 + tail.len());
    assert(s.subrange(0, sl.len() as int) =~= sl);
    assert(s.skip((sl.len() + 2) as int) =~= tail);
    // First space: after the method token.
    let r1 = q.path + seq![32u8] + q.version;
    let v1 = seq![32u8] + r1;
    assert(v1[0] == 32);
    lemma_find_byte_concat(tok, v1, 32);
    assert(sl =~= tok + v1);
    assert(find_byte(sl, 32) == tok.len());
    assert(sl.subrange(0, tok.len() as int) =~= tok);
    assert(sl.skip((tok.len() + 1) as int) =~= r1);
    // Second space: after the path.
    let v2 = seq![32u8] + q.version;
    assert(v2[0] == 32);
    lemma_find_byte_concat(q.path, v2, 32);
    assert(r1 =~= q.path + v2);
    assert(find_byte(r1, 32) == q.path.len());
    assert(r1.subrange(0, q.path.len() as int) =~= q.path);
    assert(r1.skip((q.path.len() + 1) as int) =~= q.version);
    // No third space: the version is space-free.
    lemma_find_byte_spec(q.version, 32);
    if find_byte(q.version, 32) != -1 {
        assert(false);
    }
    assert(spec_split_start(sl) == Some((tok, q.path, q.version)));
    // The token names the method back.
    assert(tok_get().len() == 3 && tok_post().len() == 4);
    assert(spec_method_from(tok) == Some(q.method));
    // Headers parse back verbatim and fold to themselves.
    lemma_parse_encoded_headers(q.headers, bpart);
    lemma_fold_identity(q.headers);
    // Body.
    match q.body {
        None => {},
        Some(b) => {
            lemma_dec_digits(b.len());
            assert(bpart.subrange(0, b.len() as int) =~= b);
        },
    }
    assert(spec_decode_request(s) == Ok::<ReqModel, DecodeError>(q));
}

} // verus!
