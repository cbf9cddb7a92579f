//! JSON-RPC 2.0 types for the broker pipe protocol.
//!
//! Framing is newline-delimited: one JSON object per line, in both directions.

use crate::json::Json;
use vstd::prelude::*;

verus! {

/// Protocol version spoken over the pipe. Additive changes only within a major version;
/// clients and broker negotiate at handshake.
pub const BROKER_PROTOCOL: u32 = 1;

// JSON-RPC reserved codes, plus the broker's own range starting at -32000.
pub const PARSE_ERROR: i32 = -32700;
pub const INVALID_REQUEST: i32 = -32600;
pub const METHOD_NOT_FOUND: i32 = -32601;
pub const INVALID_PARAMS: i32 = -32602;

#[derive(Debug)]
pub struct Request {
    pub jsonrpc: String,
    pub id: Json,
    pub method: String,
    pub params: Option<Json>,
}

#[derive(Debug)]
pub struct RpcError {
    pub code: i32,
    pub message: String,
}

#[derive(Debug)]
pub struct Response {
    pub jsonrpc: String,
    pub id: Json,
    pub result: Option<Json>,
    pub error: Option<RpcError>,
}

#[derive(Debug)]
pub struct HandshakeResult {
    pub broker_version: String,
    pub broker_protocol: u32,
}

/// Runtime state of a registered server.
#[derive(Debug, Clone, Copy, PartialEq, Eq, Structural)]
pub enum ServerState {
    Registered,
    Launching,
    Running,
    Idle,
    Stopping,
    Orphaned,
}

impl Response {
    /// A successful answer to request `id`.
    pub fn ok(id: Json, result: Json) -> (r: Self)
        ensures
            r.jsonrpc@ == "2.0"@,
            r.id == id,
            r.result == Some(result),
            r.error is None,
    {
        Response { jsonrpc: crate::text::owned("2.0"), id, result: Some(result), error: None }
    }

    /// An error answer to request `id`.
    pub fn err(id: Json, code: i32, message: String) -> (r: Self)
        ensures
            r.jsonrpc@ == "2.0"@,
            r.id == id,
            r.result is None,
            r.error matches Some(e) && e.code == code && e.message == message,
    {
        Response {
            jsonrpc: crate::text::owned("2.0"),
            id,
            result: None,
            error: Some(RpcError { code, message }),
        }
    }
}

impl ServerState {
    /// The state's name on the wire.
    pub fn wire_name(&self) -> (r: &'static str)
        ensures
            r@ == server_state_name(*self),
    {
        match self {
            ServerState::Registered => "registered",
            ServerState::Launching => "launching",
            ServerState::Running => "running",
            ServerState::Idle => "idle",
            ServerState::Stopping => "stopping",
            ServerState::Orphaned => "orphaned",
        }
    }
}

pub open spec fn server_state_name(s: ServerState) -> Seq<char> {
    match s {
        ServerState::Registered => "registered"@,
        ServerState::Launching => "launching"@,
        ServerState::Running => "running"@,
        ServerState::Idle => "idle"@,
        ServerState::Stopping => "stopping"@,
        ServerState::Orphaned => "orphaned"@,
    }
}

} // verus!
