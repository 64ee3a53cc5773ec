//! The message model: methods, status codes, header tables, and the
//! request and response structures with their mathematical views.

use vstd::prelude::*;
use crate::bytes::bytes_eq;
use crate::bytemap::{ByteMap, pairs_view};

verus! {

// ---------------------------------------------------------------------------
// Wire tokens. Each constant exists twice: a spec-level byte sequence that
// the contracts speak of, and an exec builder proved to produce it.
// ---------------------------------------------------------------------------

pub open spec fn crlf() -> Seq<u8> {
    seq![13u8, 10u8]
}

pub open spec fn tok_get() -> Seq<u8> {
    seq![71u8, 69u8, 84u8]
}

pub open spec fn tok_post() -> Seq<u8> {
    seq![80u8, 79u8, 83u8, 84u8]
}

pub open spec fn phrase_ok() -> Seq<u8> {
    seq![50u8, 48u8, 48u8, 32u8, 79u8, 75u8]
}

pub open spec fn phrase_created() -> Seq<u8> {
    seq![50u8, 48u8, 49u8, 32u8, 67u8, 114u8, 101u8, 97u8, 116u8, 101u8, 100u8]
}

pub open spec fn phrase_not_found() -> Seq<u8> {
    seq![52u8, 48u8, 52u8, 32u8, 78u8, 111u8, 116u8, 32u8, 70u8, 111u8, 117u8, 110u8, 100u8]
}

pub fn tok_get_v() -> (r: Vec<u8>)
    ensures
        r@ == tok_get(),
{
    let mut v: Vec<u8> = Vec::new();
    v.push(71u8);
    v.push(69u8);
    v.push(84u8);
    assert(v@ =~= tok_get());
    v
}

pub fn tok_post_v() -> (r: Vec<u8>)
    ensures
        r@ == tok_post(),
{
    let mut v: Vec<u8> = Vec::new();
    v.push(80u8);
    v.push(79u8);
    v.push(83u8);
    v.push(84u8);
    assert(v@ =~= tok_post());
    v
}


/// Lowercased request header naming the body length.
pub open spec fn key_content_length() -> Seq<u8> {
    seq![99u8, 111u8, 110u8, 116u8, 101u8, 110u8, 116u8, 45u8, 108u8, 101u8, 110u8, 103u8, 116u8, 104u8]
}

pub fn key_content_length_v() -> (r: Vec<u8>)
    ensures
        r@ == key_content_length(),
{
    let mut v: Vec<u8> = Vec::new();
    v.push(99u8);
    v.push(111u8);
    v.push(110u8);
    v.push(116u8);
    v.push(101u8);
    v.push(110u8);
    v.push(116u8);
    v.push(45u8);
    v.push(108u8);
    v.push(101u8);
    v.push(110u8);
    v.push(103u8);
    v.push(116u8);
    v.push(104u8);
    assert(v@ =~= key_content_length());
    v
}

/// Lowercased request header naming the client.
pub open spec fn key_user_agent() -> Seq<u8> {
    seq![117u8, 115u8, 101u8, 114u8, 45u8, 97u8, 103u8, 101u8, 110u8, 116u8]
}

pub fn key_user_agent_v() -> (r: Vec<u8>)
    ensures
        r@ == key_user_agent(),
{
    let mut v: Vec<u8> = Vec::new();
    v.push(117u8);
    v.push(115u8);
    v.push(101u8);
    v.push(114u8);
    v.push(45u8);
    v.push(97u8);
    v.push(103u8);
    v.push(101u8);
    v.push(110u8);
    v.push(116u8);
    assert(v@ =~= key_user_agent());
    v
}

/// Response header for the body's media type.
pub open spec fn hdr_content_type() -> Seq<u8> {
    seq![67u8, 111u8, 110u8, 116u8, 101u8, 110u8, 116u8, 45u8, 84u8, 121u8, 112u8, 101u8]
}

pub fn hdr_content_type_v() -> (r: Vec<u8>)
    ensures
        r@ == hdr_content_type(),
{
    let mut v: Vec<u8> = Vec::new();
    v.push(67u8);
    v.push(111u8);
    v.push(110u8);
    v.push(116u8);
    v.push(101u8);
    v.push(110u8);
    v.push(116u8);
    v.push(45u8);
    v.push(84u8);
    v.push(121u8);
    v.push(112u8);
    v.push(101u8);
    assert(v@ =~= hdr_content_type());
    v
}

/// Response header for the body's byte length.
pub open spec fn hdr_content_length() -> Seq<u8> {
    seq![67u8, 111u8, 110u8, 116u8, 101u8, 110u8, 116u8, 45u8, 76u8, 101u8, 110u8, 103u8, 116u8, 104u8]
}

pub fn hdr_content_length_v() -> (r: Vec<u8>)
    ensures
        r@ == hdr_content_length(),
{
    let mut v: Vec<u8> = Vec::new();
    v.push(67u8);
    v.push(111u8);
    v.push(110u8);
    v.push(116u8);
    v.push(101u8);
    v.push(110u8);
    v.push(116u8);
    v.push(45u8);
    v.push(76u8);
    v.push(101u8);
    v.push(110u8);
    v.push(103u8);
    v.push(116u8);
    v.push(104u8);
    assert(v@ =~= hdr_content_length());
    v
}

/// Media type of echo and user-agent bodies.
pub open spec fn val_text_plain() -> Seq<u8> {
    seq![116u8, 101u8, 120u8, 116u8, 47u8, 112u8, 108u8, 97u8, 105u8, 110u8]
}

pub fn val_text_plain_v() -> (r: Vec<u8>)
    ensures
        r@ == val_text_plain(),
{
    let mut v: Vec<u8> = Vec::new();
    v.push(116u8);
    v.push(101u8);
    v.push(120u8);
    v.push(116u8);
    v.push(47u8);
    v.push(112u8);
    v.push(108u8);
    v.push(97u8);
    v.push(105u8);
    v.push(110u8);
    assert(v@ =~= val_text_plain());
    v
}

/// Media type of file bodies.
pub open spec fn val_octet_stream() -> Seq<u8> {
    seq![97u8, 112u8, 112u8, 108u8, 105u8, 99u8, 97u8, 116u8, 105u8, 111u8, 110u8, 47u8, 111u8, 99u8, 116u8, 101u8, 116u8, 45u8, 115u8, 116u8, 114u8, 101u8, 97u8, 109u8]
}

pub fn val_octet_stream_v() -> (r: Vec<u8>)
    ensures
        r@ == val_octet_stream(),
{
    let mut v: Vec<u8> = Vec::new();
    v.push(97u8);
    v.push(112u8);
    v.push(112u8);
    v.push(108u8);
    v.push(105u8);
    v.push(99u8);
    v.push(97u8);
    v.push(116u8);
    v.push(105u8);
    v.push(111u8);
    v.push(110u8);
    v.push(47u8);
    v.push(111u8);
    v.push(99u8);
    v.push(116u8);
    v.push(101u8);
    v.push(116u8);
    v.push(45u8);
    v.push(115u8);
    v.push(116u8);
    v.push(114u8);
    v.push(101u8);
    v.push(97u8);
    v.push(109u8);
    assert(v@ =~= val_octet_stream());
    v
}

/// The root path.
pub open spec fn path_root() -> Seq<u8> {
    seq![47u8]
}

pub fn path_root_v() -> (r: Vec<u8>)
    ensures
        r@ == path_root(),
{
    let mut v: Vec<u8> = Vec::new();
    v.push(47u8);
    assert(v@ =~= path_root());
    v
}

/// Prefix of the echo route.
pub open spec fn pre_echo() -> Seq<u8> {
    seq![47u8, 101u8, 99u8, 104u8, 111u8, 47u8]
}

pub fn pre_echo_v() -> (r: Vec<u8>)
    ensures
        r@ == pre_echo(),
{
    let mut v: Vec<u8> = Vec::new();
    v.push(47u8);
    v.push(101u8);
    v.push(99u8);
    v.push(104u8);
    v.push(111u8);
    v.push(47u8);
    assert(v@ =~= pre_echo());
    v
}

/// Prefix of the user-agent route.
pub open spec fn pre_user_agent() -> Seq<u8> {
    seq![47u8, 117u8, 115u8, 101u8, 114u8, 45u8, 97u8, 103u8, 101u8, 110u8, 116u8]
}

pub fn pre_user_agent_v() -> (r: Vec<u8>)
    ensures
        r@ == pre_user_agent(),
{
    let mut v: Vec<u8> = Vec::new();
    v.push(47u8);
    v.push(117u8);
    v.push(115u8);
    v.push(101u8);
    v.push(114u8);
    v.push(45u8);
    v.push(97u8);
    v.push(103u8);
    v.push(101u8);
    v.push(110u8);
    v.push(116u8);
    assert(v@ =~= pre_user_agent());
    v
}

/// Prefix of the two file routes.
pub open spec fn pre_files() -> Seq<u8> {
    seq![47u8, 102u8, 105u8, 108u8, 101u8, 115u8, 47u8]
}

pub fn pre_files_v() -> (r: Vec<u8>)
    ensures
        r@ == pre_files(),
{
    let mut v: Vec<u8> = Vec::new();
    v.push(47u8);
    v.push(102u8);
    v.push(105u8);
    v.push(108u8);
    v.push(101u8);
    v.push(115u8);
    v.push(47u8);
    assert(v@ =~= pre_files());
    v
}

// ---------------------------------------------------------------------------
// Methods
// ---------------------------------------------------------------------------

#[derive(Clone, Copy, PartialEq, Eq, Structural, Debug)]
pub enum HTTPMethod {
    GET,
    POST,
}

/// Meaning of a start-line method token: only the two supported methods
/// are recognized; every other token is rejected.
pub open spec fn spec_method_from(t: Seq<u8>) -> Option<HTTPMethod> {
    if t == tok_get() {
        Some(HTTPMethod::GET)
    } else if t == tok_post() {
        Some(HTTPMethod::POST)
    } else {
        None
    }
}

impl HTTPMethod {
    /// Parse a method token from the start line.
    pub fn from(token: &Vec<u8>) -> (r: Option<HTTPMethod>)
        ensures
            r == spec_method_from(token@),
    {
        let g = tok_get_v();
        if bytes_eq(token, &g) {
            return Some(HTTPMethod::GET);
        }
        let p = tok_post_v();
        if bytes_eq(token, &p) {
            return Some(HTTPMethod::POST);
        }
        None
    }
}

// ---------------------------------------------------------------------------
// Status codes
// ---------------------------------------------------------------------------

#[derive(Clone, Copy, PartialEq, Eq, Structural, Debug)]
pub enum StatusCode {
    OK,
    Created,
    NotFound,
}

/// The fixed status phrase that the start line of a response carries.
pub open spec fn spec_status_phrase(s: StatusCode) -> Seq<u8> {
    match s {
        StatusCode::OK => phrase_ok(),
        StatusCode::Created => phrase_created(),
        StatusCode::NotFound => phrase_not_found(),
    }
}

/// The status named by a phrase, if it is one of the three the codec
/// emits.
pub open spec fn spec_status_of_phrase(p: Seq<u8>) -> Option<StatusCode> {
    if p == phrase_ok() {
        Some(StatusCode::OK)
    } else if p == phrase_created() {
        Some(StatusCode::Created)
    } else if p == phrase_not_found() {
        Some(StatusCode::NotFound)
    } else {
        None
    }
}

/// The phrase of each status names that status back.
pub proof fn lemma_phrase_of_status(s: StatusCode)
    ensures
        spec_status_of_phrase(spec_status_phrase(s)) == Some(s),
{
    // The three phrases have pairwise different lengths.
    assert(phrase_ok().len() == 6);
    assert(phrase_created().len() == 11);
    assert(phrase_not_found().len() == 13);
}

/// The status phrase as a character string.
pub open spec fn spec_status_chars(s: StatusCode) -> Seq<char> {
    match s {
        StatusCode::OK => "200 OK"@,
        StatusCode::Created => "201 Created"@,
        StatusCode::NotFound => "404 Not Found"@,
    }
}

impl StatusCode {
    /// The fixed start-line phrase for this status, as text.
    pub fn to_status_string(&self) -> (r: String)
        ensures
            r@ == spec_status_chars(*self),
    {
        match self {
            StatusCode::OK => "200 OK".to_owned(),
            StatusCode::Created => "201 Created".to_owned(),
            StatusCode::NotFound => "404 Not Found".to_owned(),
        }
    }

    /// The fixed start-line phrase for this status, as wire bytes.
    pub fn phrase(&self) -> (r: Vec<u8>)
        ensures
            r@ == spec_status_phrase(*self),
    {
        let mut v: Vec<u8> = Vec::new();
        match self {
            StatusCode::OK => {
                v.push(50u8);
                v.push(48u8);
                v.push(48u8);
                v.push(32u8);
                v.push(79u8);
                v.push(75u8);
                assert(v@ =~= phrase_ok());
            },
            StatusCode::Created => {
                v.push(50u8);
                v.push(48u8);
                v.push(49u8);
                v.push(32u8);
                v.push(67u8);
                v.push(114u8);
                v.push(101u8);
                v.push(97u8);
                v.push(116u8);
                v.push(101u8);
                v.push(100u8);
                assert(v@ =~= phrase_created());
            },
            StatusCode::NotFound => {
                v.push(52u8);
                v.push(48u8);
                v.push(52u8);
                v.push(32u8);
                v.push(78u8);
                v.push(111u8);
                v.push(116u8);
                v.push(32u8);
                v.push(70u8);
                v.push(111u8);
                v.push(117u8);
                v.push(110u8);
                v.push(100u8);
                assert(v@ =~= phrase_not_found());
            },
        }
        v
    }
}


// ---------------------------------------------------------------------------
// Messages and their mathematical models
// ---------------------------------------------------------------------------

/// Mathematical model of a request.
pub ghost struct ReqModel {
    pub method: HTTPMethod,
    pub path: Seq<u8>,
    pub version: Seq<u8>,
    pub headers: Seq<(Seq<u8>, Seq<u8>)>,
    pub body: Option<Seq<u8>>,
}

/// Mathematical model of a response.
pub ghost struct RespModel {
    pub version: Seq<u8>,
    pub status: StatusCode,
    pub headers: Seq<(Seq<u8>, Seq<u8>)>,
    pub body: Option<Seq<u8>>,
}

/// A parsed inbound message. Header keys are stored lowercased, one
/// value per key (later occurrences overwrite earlier ones); the body is
/// present only for POST with a `content-length`.
pub struct HTTPRequest {
    pub method: HTTPMethod,
    pub path: Vec<u8>,
    pub version: Vec<u8>,
    pub headers: ByteMap,
    pub body: Option<Vec<u8>>,
}

impl View for HTTPRequest {
    type V = ReqModel;

    open spec fn view(&self) -> ReqModel {
        ReqModel {
            method: self.method,
            path: self.path@,
            version: self.version@,
            headers: self.headers.entries(),
            body: match self.body {
                Some(b) => Some(b@),
                None => None,
            },
        }
    }
}

/// An outbound message. Headers keep their insertion order for
/// serialization and are written back without case normalization.
pub struct HTTPResponse {
    pub version: Vec<u8>,
    pub status_code: StatusCode,
    pub headers: Vec<(Vec<u8>, Vec<u8>)>,
    pub body: Option<Vec<u8>>,
}

impl View for HTTPResponse {
    type V = RespModel;

    open spec fn view(&self) -> RespModel {
        RespModel {
            version: self.version@,
            status: self.status_code,
            headers: pairs_view(self.headers@),
            body: match self.body {
                Some(b) => Some(b@),
                None => None,
            },
        }
    }
}

} // verus!
