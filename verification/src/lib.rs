//! A verified HTTP/1.1 message pipeline: wire codec, router, and
//! per-connection handler, specified down to the exact bytes on the wire.

pub mod bytemap;
pub mod bytes;
pub mod codec;
pub mod handler;
pub mod http;
pub mod laws;
pub mod router;

use vstd::prelude::*;

verus! {

} // verus!
