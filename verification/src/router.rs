//! The router: maps a parsed request to a response, reading or writing
//! the file store on the two file routes.
//!
//! Routing is split in two layers. `route_plan` decides, from the
//! request alone, either a finished response or which single file
//! operation is needed; `finish_read` and `finish_write` build the
//! response from that operation's outcome. `dispatch` composes the two
//! against the in-memory `FileStore`; a caller that keeps its files
//! elsewhere can run the same plan against its own storage.

use vstd::prelude::*;
use crate::bytes::{starts_with, dec_digits, subvec, usize_to_dec, bytes_eq, begins_with};
use crate::bytemap::{ByteMap, spec_lookup, spec_insert, lemma_insert_props, pairs_view};
use crate::http::{
    HTTPMethod, HTTPRequest, HTTPResponse, ReqModel, RespModel, StatusCode, hdr_content_type,
    hdr_content_length, hdr_content_type_v, hdr_content_length_v, val_text_plain,
    val_text_plain_v, val_octet_stream, val_octet_stream_v, path_root, path_root_v, pre_echo,
    pre_echo_v, pre_user_agent, pre_user_agent_v, pre_files, pre_files_v, key_user_agent,
    key_user_agent_v,
};

verus! {

/// Faults the router refuses to answer: they end the connection
/// instead of producing a response.
#[derive(Clone, Copy, PartialEq, Eq, Structural, Debug)]
pub enum RouteError {
    MissingRequiredHeader,
    MissingBody,
}

/// The in-memory file store: file names bound to file contents, the
/// mathematical stand-in for the directory the server is rooted at.
pub struct FileStore {
    pub files: ByteMap,
}

impl FileStore {
    /// File names are unique.
    pub open spec fn wf(self) -> bool {
        self.files.wf()
    }

    /// The store's bindings.
    pub open spec fn entries(self) -> Seq<(Seq<u8>, Seq<u8>)> {
        self.files.entries()
    }

    /// An empty store.
    pub fn new() -> (r: FileStore)
        ensures
            r.entries() == Seq::<(Seq<u8>, Seq<u8>)>::empty(),
            r.wf(),
    {
        FileStore { files: ByteMap::new() }
    }
}

/// A response with the given status and neither headers nor body.
pub open spec fn resp_empty(version: Seq<u8>, st: StatusCode) -> RespModel {
    RespModel { version, status: st, headers: seq![], body: None }
}

/// An OK response carrying `body` with its media type and exact
/// decimal `Content-Length`.
pub open spec fn resp_content(version: Seq<u8>, ct: Seq<u8>, body: Seq<u8>) -> RespModel {
    RespModel {
        version,
        status: StatusCode::OK,
        headers: seq![
            (hdr_content_type(), ct),
            (hdr_content_length(), dec_digits(body.len())),
        ],
        body: Some(body),
    }
}

/// Model of a routing decision: a finished response, or the one file
/// operation still needed with what the response will be built from.
pub ghost enum PlanModel {
    Done(RespModel),
    NeedRead { version: Seq<u8>, name: Seq<u8> },
    NeedWrite { version: Seq<u8>, name: Seq<u8>, contents: Seq<u8> },
}

/// A routing decision (see `PlanModel`).
pub enum RoutePlan {
    Done(HTTPResponse),
    NeedRead { version: Vec<u8>, name: Vec<u8> },
    NeedWrite { version: Vec<u8>, name: Vec<u8>, contents: Vec<u8> },
}

impl View for RoutePlan {
    type V = PlanModel;

    open spec fn view(&self) -> PlanModel {
        match self {
            RoutePlan::Done(r) => PlanModel::Done(r@),
            RoutePlan::NeedRead { version, name } => PlanModel::NeedRead {
                version: version@,
                name: name@,
            },
            RoutePlan::NeedWrite { version, name, contents } => PlanModel::NeedWrite {
                version: version@,
                name: name@,
                contents: contents@,
            },
        }
    }
}

/// The routing table, evaluated in precedence order per method.
pub open spec fn route_plan_spec(q: ReqModel) -> Result<PlanModel, RouteError> {
    match q.method {
        HTTPMethod::GET => if q.path == path_root() {
            Ok(PlanModel::Done(resp_empty(q.version, StatusCode::OK)))
        } else if starts_with(q.path, pre_echo()) {
            Ok(
                PlanModel::Done(
                    resp_content(
                        q.version,
                        val_text_plain(),
                        q.path.skip(pre_echo().len() as int),
                    ),
                ),
            )
        } else if starts_with(q.path, pre_user_agent()) {
            match spec_lookup(q.headers, key_user_agent()) {
                None => Err(RouteError::MissingRequiredHeader),
                Some(ua) => Ok(PlanModel::Done(resp_content(q.version, val_text_plain(), ua))),
            }
        } else if starts_with(q.path, pre_files()) {
            Ok(
                PlanModel::NeedRead {
                    version: q.version,
                    name: q.path.skip(pre_files().len() as int),
                },
            )
        } else {
            Ok(PlanModel::Done(resp_empty(q.version, StatusCode::NotFound)))
        },
        HTTPMethod::POST => if starts_with(q.path, pre_files()) {
            match q.body {
                None => Err(RouteError::MissingBody),
                Some(b) => Ok(
                    PlanModel::NeedWrite {
                        version: q.version,
                        name: q.path.skip(pre_files().len() as int),
                        contents: b,
                    },
                ),
            }
        } else {
            Ok(PlanModel::Done(resp_empty(q.version, StatusCode::NotFound)))
        },
    }
}

/// What a whole dispatch means over the store model: a finished plan
/// answers directly; a read answers from the store without changing
/// it; a write binds the name to the body and answers Created.
pub open spec fn dispatch_spec(q: ReqModel, fs: Seq<(Seq<u8>, Seq<u8>)>) -> Result<
    (RespModel, Seq<(Seq<u8>, Seq<u8>)>),
    RouteError,
> {
    match route_plan_spec(q) {
        Err(e) => Err(e),
        Ok(PlanModel::Done(r)) => Ok((r, fs)),
        Ok(PlanModel::NeedRead { version, name }) => match spec_lookup(fs, name) {
            Some(c) => Ok((resp_content(version, val_octet_stream(), c), fs)),
            None => Ok((resp_empty(version, StatusCode::NotFound), fs)),
        },
        Ok(PlanModel::NeedWrite { version, name, contents }) => Ok(
            (resp_empty(version, StatusCode::Created), spec_insert(fs, name, contents)),
        ),
    }
}

/// Build an empty response.
fn resp_empty_exec(version: Vec<u8>, st: StatusCode) -> (r: HTTPResponse)
    ensures
        r@ == resp_empty(version@, st),
{
    let r = HTTPResponse { version, status_code: st, headers: Vec::new(), body: None };
    assert(pairs_view(r.headers@) =~= Seq::<(Seq<u8>, Seq<u8>)>::empty());
    r
}

/// Build an OK response around a body.
fn resp_content_exec(version: Vec<u8>, ct: Vec<u8>, body: Vec<u8>) -> (r: HTTPResponse)
    ensures
        r@ == resp_content(version@, ct@, body@),
{
    let ghost gct = ct@;
    let ghost gbody = body@;
    let cl = usize_to_dec(body.len());
    let mut headers: Vec<(Vec<u8>, Vec<u8>)> = Vec::new();
    headers.push((hdr_content_type_v(), ct));
    headers.push((hdr_content_length_v(), cl));
    let r = HTTPResponse { version, status_code: StatusCode::OK, headers, body: Some(body) };
    assert(pairs_view(r.headers@) =~= seq![
        (hdr_content_type(), gct),
        (hdr_content_length(), dec_digits(gbody.len())),
    ]);
    r
}

/// Decide a request's route. Pure in the request: the file store is
/// not consulted here.
pub fn route_plan(req: &HTTPRequest) -> (r: Result<RoutePlan, RouteError>)
    ensures
        match r {
            Ok(p) => route_plan_spec(req@) == Ok::<PlanModel, RouteError>(p@),
            Err(e) => route_plan_spec(req@) == Err::<PlanModel, RouteError>(e),
        },
{
    let version = subvec(&req.version, 0, req.version.len());
    assert(version@ =~= req@.version);
    match req.method {
        HTTPMethod::GET => {
            let root = path_root_v();
            if bytes_eq(&req.path, &root) {
                return Ok(RoutePlan::Done(resp_empty_exec(version, StatusCode::OK)));
            }
            let echo = pre_echo_v();
            if begins_with(&req.path, &echo) {
                let text = subvec(&req.path, echo.len(), req.path.len());
                assert(text@ =~= req@.path.skip(pre_echo().len() as int));
                return Ok(
                    RoutePlan::Done(resp_content_exec(version, val_text_plain_v(), text)),
                );
            }
            let ua_pre = pre_user_agent_v();
            if begins_with(&req.path, &ua_pre) {
                let uak = key_user_agent_v();
                match req.headers.get(&uak) {
                    None => {
                        return Err(RouteError::MissingRequiredHeader);
                    },
                    Some(ua) => {
                        let ua_copy = subvec(ua, 0, ua.len());
                        assert(ua_copy@ =~= ua@);
                        return Ok(
                            RoutePlan::Done(
                                resp_content_exec(version, val_text_plain_v(), ua_copy),
                            ),
                        );
                    },
                }
            }
            let files_pre = pre_files_v();
            if begins_with(&req.path, &files_pre) {
                let name = subvec(&req.path, files_pre.len(), req.path.len());
                assert(name@ =~= req@.path.skip(pre_files().len() as int));
                return Ok(RoutePlan::NeedRead { version, name });
            }
            Ok(RoutePlan::Done(resp_empty_exec(version, StatusCode::NotFound)))
        },
        HTTPMethod::POST => {
            let files_pre = pre_files_v();
            if begins_with(&req.path, &files_pre) {
                match &req.body {
                    None => Err(RouteError::MissingBody),
                    Some(b) => {
                        let name = subvec(&req.path, files_pre.len(), req.path.len());
                        assert(name@ =~= req@.path.skip(pre_files().len() as int));
                        let contents = subvec(b, 0, b.len());
                        assert(contents@ =~= b@);
                        Ok(RoutePlan::NeedWrite { version, name, contents })
                    },
                }
            } else {
                Ok(RoutePlan::Done(resp_empty_exec(version, StatusCode::NotFound)))
            }
        },
    }
}

/// Build the response of a file read: the contents when the file was
/// found, a bare NotFound when it was not.
pub fn finish_read(version: Vec<u8>, found: Option<Vec<u8>>) -> (r: HTTPResponse)
    ensures
        r@ == (match found {
            Some(c) => resp_content(version@, val_octet_stream(), c@),
            None => resp_empty(version@, StatusCode::NotFound),
        }),
{
    match found {
        Some(c) => resp_content_exec(version, val_octet_stream_v(), c),
        None => resp_empty_exec(version, StatusCode::NotFound),
    }
}

/// Build the response of a completed file write.
pub fn finish_write(version: Vec<u8>) -> (r: HTTPResponse)
    ensures
        r@ == resp_empty(version@, StatusCode::Created),
{
    resp_empty_exec(version, StatusCode::Created)
}

/// Route a request against the in-memory store.
pub fn dispatch(req: &HTTPRequest, store: &mut FileStore) -> (r: Result<HTTPResponse, RouteError>)
    requires
        old(store).wf(),
    ensures
        final(store).wf(),
        match r {
            Ok(resp) => dispatch_spec(req@, old(store).entries()) == Ok::<
                (RespModel, Seq<(Seq<u8>, Seq<u8>)>),
                RouteError,
            >((resp@, final(store).entries())),
            Err(e) => dispatch_spec(req@, old(store).entries()) == Err::<
                (RespModel, Seq<(Seq<u8>, Seq<u8>)>),
                RouteError,
            >(e) && *final(store) == *old(store),
        },
{
    match route_plan(req) {
        Err(e) => Err(e),
        Ok(RoutePlan::Done(resp)) => Ok(resp),
        Ok(RoutePlan::NeedRead { version, name }) => {
            let found = match store.files.get(&name) {
                Some(c) => {
                    let copy = subvec(c, 0, c.len());
                    assert(copy@ =~= c@);
                    Some(copy)
                },
                None => None,
            };
            Ok(finish_read(version, found))
        },
        Ok(RoutePlan::NeedWrite { version, name, contents }) => {
            proof {
                lemma_insert_props(store.files.entries(), name@, contents@);
            }
            store.files.insert(name, contents);
            Ok(finish_write(version))
        },
    }
}

} // verus!
