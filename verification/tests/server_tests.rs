use http_server::codec::{decode_request, decode_response, encode_request, encode_response,
    DecodeError};
use http_server::handler::{handle_message, HandleError};
use http_server::http::{HTTPMethod, HTTPRequest, HTTPResponse, StatusCode};
use http_server::bytemap::ByteMap;
use http_server::router::{dispatch, route_plan, FileStore, RouteError, RoutePlan};
use http_server::bytes::{parse_dec, usize_to_dec};

fn ok_bytes(msg: &Result<Vec<u8>, HandleError>) -> &Vec<u8> {
    match msg {
        Ok(b) => b,
        Err(e) => panic!("expected a response, got {:?}", e),
    }
}

#[test]
fn get_root_serialized() {
    let mut store = FileStore::new();
    let input = b"GET / HTTP/1.1\r\n\r\n".to_vec();
    let out = handle_message(&input, &mut store);
    assert_eq!(ok_bytes(&out), &b"HTTP/1.1 200 OK\r\n\r\n".to_vec());
}

#[test]
fn get_nonexistent_serialized() {
    let mut store = FileStore::new();
    let input = b"GET /nonexistent HTTP/1.1\r\n\r\n".to_vec();
    let out = handle_message(&input, &mut store);
    assert_eq!(ok_bytes(&out), &b"HTTP/1.1 404 Not Found\r\n\r\n".to_vec());
}

#[test]
fn echo_round_trip() {
    let mut store = FileStore::new();
    let input = b"GET /echo/abc HTTP/1.1\r\n\r\n".to_vec();
    let out = handle_message(&input, &mut store);
    let expected =
        b"HTTP/1.1 200 OK\r\nContent-Type: text/plain\r\nContent-Length: 3\r\n\r\nabc\r\n";
    assert_eq!(ok_bytes(&out), &expected.to_vec());
}

#[test]
fn echo_empty_text() {
    let mut store = FileStore::new();
    let input = b"GET /echo/ HTTP/1.1\r\n\r\n".to_vec();
    let out = handle_message(&input, &mut store);
    let expected =
        b"HTTP/1.1 200 OK\r\nContent-Type: text/plain\r\nContent-Length: 0\r\n\r\n\r\n";
    assert_eq!(ok_bytes(&out), &expected.to_vec());
}

#[test]
fn user_agent_echoed() {
    let mut store = FileStore::new();
    let input = b"GET /user-agent HTTP/1.1\r\nUser-Agent: test-client/1.0\r\n\r\n".to_vec();
    let out = handle_message(&input, &mut store);
    let expected = b"HTTP/1.1 200 OK\r\nContent-Type: text/plain\r\nContent-Length: 15\r\n\r\ntest-client/1.0\r\n";
    assert_eq!(ok_bytes(&out), &expected.to_vec());
}

#[test]
fn user_agent_missing_is_refused() {
    let mut store = FileStore::new();
    let input = b"GET /user-agent HTTP/1.1\r\n\r\n".to_vec();
    let out = handle_message(&input, &mut store);
    assert_eq!(out, Err(HandleError::Route(RouteError::MissingRequiredHeader)));
}

#[test]
fn files_write_then_read() {
    let mut store = FileStore::new();
    let post = b"POST /files/foo.txt HTTP/1.1\r\nContent-Length: 5\r\n\r\nhello".to_vec();
    let out = handle_message(&post, &mut store);
    assert_eq!(ok_bytes(&out), &b"HTTP/1.1 201 Created\r\n\r\n".to_vec());
    let get = b"GET /files/foo.txt HTTP/1.1\r\n\r\n".to_vec();
    let out2 = handle_message(&get, &mut store);
    let expected = b"HTTP/1.1 200 OK\r\nContent-Type: application/octet-stream\r\nContent-Length: 5\r\n\r\nhello\r\n";
    assert_eq!(ok_bytes(&out2), &expected.to_vec());
}

#[test]
fn files_overwrite_keeps_last_body() {
    let mut store = FileStore::new();
    let post1 = b"POST /files/f HTTP/1.1\r\nContent-Length: 3\r\n\r\nold".to_vec();
    handle_message(&post1, &mut store).unwrap();
    let post2 = b"POST /files/f HTTP/1.1\r\nContent-Length: 3\r\n\r\nnew".to_vec();
    handle_message(&post2, &mut store).unwrap();
    let get = b"GET /files/f HTTP/1.1\r\n\r\n".to_vec();
    let out = handle_message(&get, &mut store);
    let expected = b"HTTP/1.1 200 OK\r\nContent-Type: application/octet-stream\r\nContent-Length: 3\r\n\r\nnew\r\n";
    assert_eq!(ok_bytes(&out), &expected.to_vec());
}

#[test]
fn files_missing_not_found() {
    let mut store = FileStore::new();
    let input = b"GET /files/absent HTTP/1.1\r\n\r\n".to_vec();
    let out = handle_message(&input, &mut store);
    assert_eq!(ok_bytes(&out), &b"HTTP/1.1 404 Not Found\r\n\r\n".to_vec());
}

#[test]
fn post_without_body_is_refused() {
    // POST with no content-length fails at decode, before routing.
    let mut store = FileStore::new();
    let post = b"POST /files/f HTTP/1.1\r\n\r\n".to_vec();
    let out = handle_message(&post, &mut store);
    assert_eq!(out, Err(HandleError::Decode(DecodeError::MissingContentLength)));
}

#[test]
fn post_unmatched_route_not_found() {
    let mut store = FileStore::new();
    let post = b"POST /echo/x HTTP/1.1\r\nContent-Length: 2\r\n\r\nhi".to_vec();
    let out = handle_message(&post, &mut store);
    assert_eq!(ok_bytes(&out), &b"HTTP/1.1 404 Not Found\r\n\r\n".to_vec());
}

#[test]
fn start_line_with_two_tokens_is_malformed() {
    let input = b"GET /\r\n\r\n".to_vec();
    let r = decode_request(&input);
    assert_eq!(r.err(), Some(DecodeError::MalformedStartLine));
}

#[test]
fn start_line_with_four_tokens_is_malformed() {
    let input = b"GET / HTTP/1.1 extra\r\n\r\n".to_vec();
    let r = decode_request(&input);
    assert_eq!(r.err(), Some(DecodeError::MalformedStartLine));
}

#[test]
fn unknown_method_is_malformed() {
    let input = b"PUT / HTTP/1.1\r\n\r\n".to_vec();
    let r = decode_request(&input);
    assert_eq!(r.err(), Some(DecodeError::MalformedStartLine));
}

#[test]
fn header_without_separator_is_malformed() {
    let input = b"GET / HTTP/1.1\r\nbroken\r\n\r\n".to_vec();
    let r = decode_request(&input);
    assert_eq!(r.err(), Some(DecodeError::MalformedHeader));
}

#[test]
fn post_without_content_length_is_refused() {
    let input = b"POST /files/f HTTP/1.1\r\nFoo: bar\r\n\r\nbody".to_vec();
    let r = decode_request(&input);
    assert_eq!(r.err(), Some(DecodeError::MissingContentLength));
}

#[test]
fn non_numeric_content_length_is_refused() {
    let input = b"POST /files/f HTTP/1.1\r\nContent-Length: abc\r\n\r\n".to_vec();
    let r = decode_request(&input);
    assert_eq!(r.err(), Some(DecodeError::InvalidContentLength));
}

#[test]
fn short_body_reports_missing_bytes() {
    let input = b"POST /files/f HTTP/1.1\r\nContent-Length: 5\r\n\r\nab".to_vec();
    let r = decode_request(&input);
    assert_eq!(r.err(), Some(DecodeError::BodyTooShort { missing: 3 }));
}

#[test]
fn header_keys_lowercased_last_write_wins() {
    let input = b"GET / HTTP/1.1\r\nX-Thing: one\r\nx-thing: two\r\n\r\n".to_vec();
    let req = decode_request(&input).unwrap();
    let got = req.headers.get(&b"x-thing".to_vec());
    assert_eq!(got, Some(&b"two".to_vec()));
    assert_eq!(req.headers.get(&b"X-Thing".to_vec()), None);
}

#[test]
fn get_ignores_content_length_body() {
    let input = b"GET / HTTP/1.1\r\nContent-Length: 4\r\n\r\nwhat".to_vec();
    let req = decode_request(&input).unwrap();
    assert_eq!(req.method, HTTPMethod::GET);
    assert!(req.body.is_none());
}

#[test]
fn response_decode_inverts_encode() {
    let resp = HTTPResponse {
        version: b"HTTP/1.1".to_vec(),
        status_code: StatusCode::OK,
        headers: vec![
            (b"Content-Type".to_vec(), b"text/plain".to_vec()),
            (b"Content-Length".to_vec(), b"2".to_vec()),
        ],
        body: Some(b"hi".to_vec()),
    };
    let bytes = encode_response(&resp);
    let back = decode_response(&bytes).unwrap();
    assert_eq!(back.version, resp.version);
    assert!(matches!(back.status_code, StatusCode::OK));
    assert_eq!(back.headers, resp.headers);
    assert_eq!(back.body, resp.body);
}

#[test]
fn bare_response_decode_inverts_encode() {
    let resp = HTTPResponse {
        version: b"HTTP/1.1".to_vec(),
        status_code: StatusCode::Created,
        headers: Vec::new(),
        body: None,
    };
    let bytes = encode_response(&resp);
    assert_eq!(bytes, b"HTTP/1.1 201 Created\r\n\r\n".to_vec());
    let back = decode_response(&bytes).unwrap();
    assert!(matches!(back.status_code, StatusCode::Created));
    assert_eq!(back.headers.len(), 0);
    assert_eq!(back.body, None);
}

#[test]
fn request_decode_inverts_encode() {
    let mut headers = ByteMap::new();
    headers.insert(b"content-length".to_vec(), b"4".to_vec());
    headers.insert(b"host".to_vec(), b"localhost".to_vec());
    let req = HTTPRequest {
        method: HTTPMethod::POST,
        path: b"/files/x".to_vec(),
        version: b"HTTP/1.1".to_vec(),
        headers,
        body: Some(b"data".to_vec()),
    };
    let bytes = encode_request(&req);
    let back = decode_request(&bytes).unwrap();
    assert_eq!(back.method, HTTPMethod::POST);
    assert_eq!(back.path, req.path);
    assert_eq!(back.version, req.version);
    assert_eq!(back.headers.pairs, req.headers.pairs);
    assert_eq!(back.body, req.body);
}

#[test]
fn method_from_recognizes_tokens() {
    assert_eq!(HTTPMethod::from(&b"GET".to_vec()), Some(HTTPMethod::GET));
    assert_eq!(HTTPMethod::from(&b"POST".to_vec()), Some(HTTPMethod::POST));
    assert_eq!(HTTPMethod::from(&b"PUT".to_vec()), None);
    assert_eq!(HTTPMethod::from(&b"get".to_vec()), None);
}

#[test]
fn status_strings_are_fixed() {
    assert_eq!(StatusCode::OK.to_status_string(), "200 OK");
    assert_eq!(StatusCode::Created.to_status_string(), "201 Created");
    assert_eq!(StatusCode::NotFound.to_status_string(), "404 Not Found");
}

#[test]
fn decimal_helpers_agree() {
    assert_eq!(usize_to_dec(0), b"0".to_vec());
    assert_eq!(usize_to_dec(1234), b"1234".to_vec());
    assert_eq!(parse_dec(&b"1234".to_vec()), Some(1234));
    assert_eq!(parse_dec(&b"".to_vec()), None);
    assert_eq!(parse_dec(&b"12a".to_vec()), None);
    assert_eq!(parse_dec(&b"99999999999999999999999999".to_vec()), None);
}

#[test]
fn route_plan_separates_file_work() {
    let req = decode_request(&b"GET /files/notes HTTP/1.1\r\n\r\n".to_vec()).unwrap();
    match route_plan(&req).unwrap() {
        RoutePlan::NeedRead { version, name } => {
            assert_eq!(version, b"HTTP/1.1".to_vec());
            assert_eq!(name, b"notes".to_vec());
        }
        _ => panic!("expected a read plan"),
    }
    let post =
        decode_request(&b"POST /files/notes HTTP/1.1\r\nContent-Length: 2\r\n\r\nok".to_vec())
            .unwrap();
    match route_plan(&post).unwrap() {
        RoutePlan::NeedWrite { version: _, name, contents } => {
            assert_eq!(name, b"notes".to_vec());
            assert_eq!(contents, b"ok".to_vec());
        }
        _ => panic!("expected a write plan"),
    }
}

#[test]
fn dispatch_reports_store_error_separately() {
    let mut store = FileStore::new();
    let req = decode_request(&b"GET /user-agent HTTP/1.1\r\n\r\n".to_vec()).unwrap();
    let r = dispatch(&req, &mut store);
    assert_eq!(r.err(), Some(RouteError::MissingRequiredHeader));
}

#[test]
fn response_with_headers_no_body_round_trips() {
    let resp = HTTPResponse {
        version: b"HTTP/1.1".to_vec(),
        status_code: StatusCode::NotFound,
        headers: vec![(b"X-Why".to_vec(), b"gone".to_vec())],
        body: None,
    };
    let bytes = encode_response(&resp);
    assert_eq!(bytes, b"HTTP/1.1 404 Not Found\r\nX-Why: gone\r\n\r\n\r\n".to_vec());
    let back = decode_response(&bytes).unwrap();
    assert_eq!(back.headers, resp.headers);
    assert_eq!(back.body, None);
}

#[test]
fn response_without_final_terminator_is_malformed() {
    let input = b"HTTP/1.1 200 OK\r\nA: b\r\n\r\nxy".to_vec();
    let r = decode_response(&input);
    assert_eq!(r.err(), Some(DecodeError::MalformedBody));
}

#[test]
fn response_with_unknown_phrase_is_malformed() {
    let input = b"HTTP/1.1 500 Oops\r\n\r\n".to_vec();
    let r = decode_response(&input);
    assert_eq!(r.err(), Some(DecodeError::MalformedStartLine));
}

#[test]
fn header_value_keeps_later_separators() {
    let input = b"GET / HTTP/1.1\r\nAccept: text/html: maybe\r\n\r\n".to_vec();
    let req = decode_request(&input).unwrap();
    assert_eq!(req.headers.get(&b"accept".to_vec()), Some(&b"text/html: maybe".to_vec()));
}

#[test]
fn version_token_echoed_verbatim() {
    let mut store = FileStore::new();
    let input = b"GET / HTTP/1.0\r\n\r\n".to_vec();
    let out = handle_message(&input, &mut store);
    assert_eq!(ok_bytes(&out), &b"HTTP/1.0 200 OK\r\n\r\n".to_vec());
}
