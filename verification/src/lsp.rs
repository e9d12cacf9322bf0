//! The one concrete message schema this endpoint knows: the `initialize`
//! request. Handlers decode their own payloads from the raw body; these
//! types are the shape that decode produces for `initialize`.

use vstd::prelude::*;

verus! {

/// A client's `initialize` request: the JSON-RPC envelope fields and the
/// request's parameters.
#[derive(Debug)]
pub struct InitializeRequest {
    pub jsonrpc: String,
    pub id: usize,
    pub method: String,
    pub params: InitializeRequestParams,
}

/// The parameters of `initialize`; only the client's self-description is
/// read here.
#[derive(Debug)]
pub struct InitializeRequestParams {
    pub client_info: Option<ClientInfo>,
}

/// The connecting client's name and version.
#[derive(Debug)]
pub struct ClientInfo {
    pub name: String,
    pub version: String,
}

} // verus!
