//! One connection's whole cycle over a complete request buffer:
//! decode, dispatch, encode. Every fault is confined to the value this
//! returns; nothing here can bring the caller down.

use vstd::prelude::*;
use crate::codec::{
    DecodeError, decode_request, encode_response, spec_decode_request, spec_encode_response,
};
use crate::router::{RouteError, FileStore, dispatch, dispatch_spec};

verus! {

/// Why a connection produced no response: the buffer did not decode,
/// or the router refused the request.
#[derive(Clone, Copy, PartialEq, Eq, Structural, Debug)]
pub enum HandleError {
    Decode(DecodeError),
    Route(RouteError),
}

/// Answer one request buffer against the store: the exact response
/// bytes on success, the confining error otherwise, with the store
/// changed exactly as the dispatch model says.
pub fn handle_message(input: &Vec<u8>, store: &mut FileStore) -> (r: Result<Vec<u8>, HandleError>)
    requires
        old(store).wf(),
    ensures
        final(store).wf(),
        match spec_decode_request(input@) {
            Err(e) => r == Err::<Vec<u8>, HandleError>(HandleError::Decode(e)) && *final(store)
                == *old(store),
            Ok(q) => match dispatch_spec(q, old(store).entries()) {
                Err(e) => r == Err::<Vec<u8>, HandleError>(HandleError::Route(e)) && *final(store)
                    == *old(store),
                Ok(p) => r matches Ok(out) && out@ == spec_encode_response(p.0)
                    && final(store).entries() == p.1,
            },
        },
{
    let req = match decode_request(input) {
        Err(e) => {
            return Err(HandleError::Decode(e));
        },
        Ok(q) => q,
    };
    let resp = match dispatch(&req, store) {
        Err(e) => {
            return Err(HandleError::Route(e));
        },
        Ok(resp) => resp,
    };
    Ok(encode_response(&resp))
}

} // verus!
