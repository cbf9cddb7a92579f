//! Request dispatch.
//!
//! Framing is newline-delimited JSON-RPC over a pipe or socket; reading, writing and locking
//! are the caller's part. Here is what each request means: which method it names, which
//! parameters it must carry, and what the answer says, given the catalog, the engine and the
//! consent store it was answered from.

use crate::activation::{count_named, running_spec, ActivateError, ActivateResult, Engine, EngineV, holders_spec};
use crate::card::DiagnosticCode;
use crate::catalog::{diags_view, Catalog, DiagV, Diagnostic, Entry, ShadowedBy};
use crate::consent::{consent_for, ConsentRecord, ConsentScope, ConsentState, RecordV};
use crate::dirs::{tier_name, Tier};
use crate::json::{get_spec, Json, JsonNumber, JsonV};
use crate::rpc::{
    server_state_name, Request, Response, ServerState, BROKER_PROTOCOL, INVALID_PARAMS, INVALID_REQUEST,
    METHOD_NOT_FOUND, PARSE_ERROR,
};
use crate::text::{owned, push_str, string_from_chars};
use vstd::prelude::*;

verus! {

/// Broker error codes live below the JSON-RPC reserved range.
pub const CONSENT_REQUIRED: i32 = -32000;
pub const ACTIVATION_FAILED: i32 = -32001;
pub const IN_USE: i32 = -32002;

/// What a request asks for, with its parameters.
#[derive(Debug)]
pub enum Route {
    Handshake,
    List { include_orphaned: bool },
    Status { name: String },
    ConsentQuery { name: String },
    Activate { name: String },
    Release { grant_id: String },
    Deactivate { name: String, force: bool },
}

pub enum RouteV {
    Handshake,
    List(bool),
    Status(Seq<char>),
    ConsentQuery(Seq<char>),
    Activate(Seq<char>),
    Release(Seq<char>),
    Deactivate(Seq<char>, bool),
}

impl Route {
    pub open spec fn view(self) -> RouteV {
        match self {
            Route::Handshake => RouteV::Handshake,
            Route::List { include_orphaned } => RouteV::List(include_orphaned),
            Route::Status { name } => RouteV::Status(name@),
            Route::ConsentQuery { name } => RouteV::ConsentQuery(name@),
            Route::Activate { name } => RouteV::Activate(name@),
            Route::Release { grant_id } => RouteV::Release(grant_id@),
            Route::Deactivate { name, force } => RouteV::Deactivate(name@, force),
        }
    }
}

/// A parameter of a request.
pub open spec fn param_spec(params: Option<JsonV>, key: Seq<char>) -> Option<JsonV> {
    match params {
        Some(p) => get_spec(p, key),
        None => None,
    }
}

/// A string parameter; `None` when it is missing or not a string.
pub open spec fn param_str_spec(params: Option<JsonV>, key: Seq<char>) -> Option<Seq<char>> {
    match param_spec(params, key) {
        Some(JsonV::Str(s)) => Some(s),
        _ => None,
    }
}

/// A flag parameter; false when it is missing or not a boolean.
pub open spec fn param_bool_spec(params: Option<JsonV>, key: Seq<char>) -> bool {
    match param_spec(params, key) {
        Some(JsonV::Bool(b)) => b,
        _ => false,
    }
}

pub open spec fn opt_json(o: Option<Json>) -> Option<JsonV> {
    match o {
        Some(j) => Some(j@),
        None => None,
    }
}

pub open spec fn required(key: Seq<char>) -> Seq<char> {
    "`"@ + key + "` is required"@
}

/// Where a request goes, or the error it is answered with before anything is looked up.
pub open spec fn route_spec(jsonrpc: Seq<char>, method: Seq<char>, params: Option<JsonV>) -> Result<RouteV, (i32, Seq<char>)> {
    if jsonrpc != "2.0"@ {
        Err((INVALID_REQUEST, "jsonrpc must be \"2.0\""@))
    } else if method == "locator/handshake"@ {
        Ok(RouteV::Handshake)
    } else if method == "locator/list"@ {
        Ok(RouteV::List(param_bool_spec(params, "includeOrphaned"@)))
    } else if method == "locator/status"@ || method == "locator/consent/query"@ || method == "locator/activate"@
        || method == "locator/deactivate"@ {
        match param_str_spec(params, "name"@) {
            None => Err((INVALID_PARAMS, required("name"@))),
            Some(n) => if method == "locator/status"@ {
                Ok(RouteV::Status(n))
            } else if method == "locator/consent/query"@ {
                Ok(RouteV::ConsentQuery(n))
            } else if method == "locator/activate"@ {
                Ok(RouteV::Activate(n))
            } else {
                Ok(RouteV::Deactivate(n, param_bool_spec(params, "force"@)))
            },
        }
    } else if method == "locator/release"@ {
        match param_str_spec(params, "grantId"@) {
            None => Err((INVALID_PARAMS, required("grantId"@))),
            Some(g) => Ok(RouteV::Release(g)),
        }
    } else {
        Err((METHOD_NOT_FOUND, "unknown method: "@ + method))
    }
}

/// A deactivate request names its server in `name` and forces the stop only when it says so:
/// its force flag is exactly whether the params' `force` member is `true`, so a request without
/// `force` (or with anything but `true` there) is refused while others hold grants.
pub proof fn law_deactivate_forces_only_when_asked(p: JsonV, n: Seq<char>)
    requires
        get_spec(p, "name"@) == Some(JsonV::Str(n)),
    ensures
        route_spec("2.0"@, "locator/deactivate"@, Some(p)) == Ok::<RouteV, (i32, Seq<char>)>(
            RouteV::Deactivate(n, get_spec(p, "force"@) == Some(JsonV::Bool(true))),
        ),
        get_spec(p, "force"@) is None ==> route_spec("2.0"@, "locator/deactivate"@, Some(p)) == Ok::<
            RouteV,
            (i32, Seq<char>),
        >(RouteV::Deactivate(n, false)),
{
    reveal_strlit("2.0");
    reveal_strlit("locator/deactivate");
    reveal_strlit("locator/handshake");
    reveal_strlit("locator/list");
    reveal_strlit("locator/status");
    reveal_strlit("locator/consent/query");
    reveal_strlit("locator/activate");
    assert("locator/deactivate"@.len() != "locator/handshake"@.len());
    assert("locator/deactivate"@.len() != "locator/list"@.len());
    assert("locator/deactivate"@.len() != "locator/status"@.len());
    assert("locator/deactivate"@.len() != "locator/consent/query"@.len());
    assert("locator/deactivate"@.len() != "locator/activate"@.len());
}

/// `r` answers request `id` with error `code` and `message`.
pub open spec fn error_response(r: Response, id: JsonV, code: i32, message: Seq<char>) -> bool {
    &&& r.jsonrpc@ == "2.0"@
    &&& r.id@ == id
    &&& r.result is None
    &&& r.error matches Some(e) && e.code == code && e.message@ == message
}

/// `r` answers request `id` with `result`.
pub open spec fn ok_response(r: Response, id: JsonV, result: JsonV) -> bool {
    &&& r.jsonrpc@ == "2.0"@
    &&& r.id@ == id
    &&& r.error is None
    &&& r.result matches Some(j) && j@ == result
}

fn param_str(params: &Option<Json>, key: &str) -> (r: Option<String>)
    ensures
        match r {
            Some(s) => param_str_spec(opt_json(*params), key@) == Some(s@),
            None => param_str_spec(opt_json(*params), key@) is None,
        },
{
    match params {
        Some(p) => match p.get(key) {
            Some(Json::String(s)) => Some(s.clone()),
            _ => None,
        },
        None => None,
    }
}

fn param_bool(params: &Option<Json>, key: &str) -> (r: bool)
    ensures
        r == param_bool_spec(opt_json(*params), key@),
{
    match params {
        Some(p) => match p.get(key) {
            Some(Json::Bool(b)) => *b,
            _ => false,
        },
        None => false,
    }
}

fn required_message(key: &str) -> (r: String)
    ensures
        r@ == required(key@),
{
    let mut out: Vec<char> = Vec::new();
    push_str(&mut out, "`");
    push_str(&mut out, key);
    push_str(&mut out, "` is required");
    proof {
        reveal_strlit("`");
        reveal_strlit("` is required");
    }
    string_from_chars(out.as_slice())
}

/// Route a request: check its version, find its method, and take out the parameters that
/// method needs. Anything wrong is answered right away.
pub fn route(request: &Request) -> (r: Result<Route, Response>)
    ensures
        match r {
            Ok(route) => route_spec(request.jsonrpc@, request.method@, opt_json(request.params)) == Ok::<
                RouteV,
                (i32, Seq<char>),
            >(route@),
            Err(resp) => route_spec(request.jsonrpc@, request.method@, opt_json(request.params)) matches Err(
                (code, message),
            ) && error_response(resp, request.id@, code, message),
        },
{
    proof {
        reveal_strlit("2.0");
        reveal_strlit("jsonrpc must be \"2.0\"");
        reveal_strlit("locator/handshake");
        reveal_strlit("locator/list");
        reveal_strlit("locator/status");
        reveal_strlit("locator/consent/query");
        reveal_strlit("locator/activate");
        reveal_strlit("locator/deactivate");
        reveal_strlit("locator/release");
        reveal_strlit("includeOrphaned");
        reveal_strlit("name");
        reveal_strlit("grantId");
        reveal_strlit("force");
        reveal_strlit("unknown method: ");
    }
    let id = request.id.duplicate();
    if !crate::json::str_eq(request.jsonrpc.as_str(), "2.0") {
        return Err(Response::err(id, INVALID_REQUEST, owned("jsonrpc must be \"2.0\"")));
    }
    let method = request.method.as_str();
    if crate::json::str_eq(method, "locator/handshake") {
        return Ok(Route::Handshake);
    }
    if crate::json::str_eq(method, "locator/list") {
        return Ok(Route::List { include_orphaned: param_bool(&request.params, "includeOrphaned") });
    }
    let status = crate::json::str_eq(method, "locator/status");
    let query = crate::json::str_eq(method, "locator/consent/query");
    let activate = crate::json::str_eq(method, "locator/activate");
    let deactivate = crate::json::str_eq(method, "locator/deactivate");
    if status || query || activate || deactivate {
        let name = match param_str(&request.params, "name") {
            Some(n) => n,
            None => {
                return Err(Response::err(id, INVALID_PARAMS, required_message("name")));
            },
        };
        if status {
            return Ok(Route::Status { name });
        } else if query {
            return Ok(Route::ConsentQuery { name });
        } else if activate {
            return Ok(Route::Activate { name });
        } else {
            return Ok(Route::Deactivate { name, force: param_bool(&request.params, "force") });
        }
    }
    if crate::json::str_eq(method, "locator/release") {
        return match param_str(&request.params, "grantId") {
            Some(g) => Ok(Route::Release { grant_id: g }),
            None => Err(Response::err(id, INVALID_PARAMS, required_message("grantId"))),
        };
    }
    Err(Response::err(id, METHOD_NOT_FOUND, crate::text::concat("unknown method: ", method)))
}

/// The answer to a line that is not a request: JSON-RPC says to answer with a null id.
pub fn parse_error_response(message: String) -> (r: Response)
    ensures
        error_response(r, JsonV::Null, PARSE_ERROR, message@),
{
    Response::err(Json::Null, PARSE_ERROR, message)
}

/// The runtime state a server is reported in.
pub open spec fn state_of_spec(orphaned: bool, running: bool, grants: nat) -> ServerState {
    if orphaned {
        ServerState::Orphaned
    } else if running && grants == 0 {
        ServerState::Idle
    } else if running {
        ServerState::Running
    } else {
        ServerState::Registered
    }
}

pub fn state_of(orphaned: bool, running: bool, grants: usize) -> (r: ServerState)
    ensures
        r == state_of_spec(orphaned, running, grants as nat),
{
    if orphaned {
        ServerState::Orphaned
    } else if running && grants == 0 {
        ServerState::Idle
    } else if running {
        ServerState::Running
    } else {
        ServerState::Registered
    }
}

// ---------------------------------------------------------------------------------------------
// How things are written on the wire
// ---------------------------------------------------------------------------------------------

pub open spec fn consent_state_name(s: ConsentState) -> Seq<char> {
    match s {
        ConsentState::Granted => "granted"@,
        ConsentState::Denied => "denied"@,
        ConsentState::NotAsked => "not-asked"@,
        ConsentState::Stale => "stale"@,
    }
}

pub open spec fn scope_name(s: ConsentScope) -> Seq<char> {
    match s {
        ConsentScope::User => "user"@,
        ConsentScope::Client => "client"@,
    }
}

pub open spec fn code_name(c: DiagnosticCode) -> Seq<char> {
    match c {
        DiagnosticCode::MalformedJson => "malformed-json"@,
        DiagnosticCode::SchemaInvalid => "schema-invalid"@,
        DiagnosticCode::FilenameMismatch => "filename-mismatch"@,
        DiagnosticCode::Unreadable => "unreadable"@,
        DiagnosticCode::Shadowed => "shadowed"@,
    }
}

/// A member written only when there is a value.
pub open spec fn opt_member(key: Seq<char>, o: Option<Seq<char>>) -> Seq<(Seq<char>, JsonV)> {
    match o {
        Some(v) => seq![(key, JsonV::Str(v))],
        None => Seq::empty(),
    }
}

/// A consent record as JSON: its state, and whichever of the other fields it has.
pub open spec fn record_json(r: RecordV) -> JsonV {
    JsonV::Object(
        seq![("state"@, JsonV::Str(consent_state_name(r.state)))] + opt_member("grantedAt"@, r.granted_at)
            + opt_member("launchHash"@, r.launch_hash) + opt_member("launchCommand"@, r.launch_command)
            + opt_member(
            "scope"@,
            match r.scope {
                Some(s) => Some(scope_name(s)),
                None => None,
            },
        ),
    )
}

/// What `locator/consent/query` reports of a record: its state, when it was granted, and the
/// card hash the decision is bound to, each of the last two only when there is one.
pub open spec fn query_json(r: RecordV) -> JsonV {
    JsonV::Object(
        seq![("state"@, JsonV::Str(consent_state_name(r.state)))] + opt_member("grantedAt"@, r.granted_at)
            + opt_member("cardHash"@, r.launch_hash),
    )
}

/// A diagnostic as JSON; `name` only when the card got far enough to have one.
pub open spec fn diagnostic_json(d: DiagV) -> JsonV {
    JsonV::Object(
        seq![
            ("code"@, JsonV::Str(code_name(d.code))),
            ("path"@, JsonV::Str(d.path)),
            ("message"@, JsonV::Str(d.message)),
        ] + opt_member("name"@, d.name),
    )
}

pub open spec fn diagnostics_json(ds: Seq<DiagV>) -> Seq<JsonV> {
    ds.map_values(|d: DiagV| diagnostic_json(d))
}

pub open spec fn shadow_json(p: Seq<char>, t: Tier) -> JsonV {
    JsonV::Object(seq![("path"@, JsonV::Str(p)), ("tier"@, JsonV::Str(tier_name(t)))])
}

pub open spec fn shadows_json(s: Seq<ShadowedBy>) -> Seq<JsonV> {
    s.map_values(|x: ShadowedBy| shadow_json(x.path@, x.tier))
}

pub open spec fn count_json(n: nat) -> JsonV {
    JsonV::Number(JsonNumber::PosInt(n as u64))
}

/// One server as `locator/list` reports it.
pub open spec fn server_json(e: Entry, rec: RecordV, grants: nat, running: bool) -> JsonV {
    JsonV::Object(
        seq![
            ("name"@, JsonV::Str(e.name@)),
            ("version"@, JsonV::Str(e.version@)),
            ("title"@, match e.card.title {
                Some(t) => JsonV::Str(t@),
                None => JsonV::Null,
            }),
            ("description"@, JsonV::Str(e.card.description@)),
            ("tier"@, JsonV::Str(tier_name(e.tier))),
            ("path"@, JsonV::Str(e.path@)),
            ("orphaned"@, JsonV::Bool(e.orphaned)),
            ("launchHash"@, JsonV::Str(e.launch_hash@)),
            ("state"@, JsonV::Str(server_state_name(state_of_spec(e.orphaned, running, grants)))),
            ("consent"@, record_json(rec)),
            ("grants"@, count_json(grants)),
            ("shadowed"@, JsonV::Array(shadows_json(e.shadowed@))),
        ],
    )
}

/// Every server of a catalog as `locator/list` reports it, against engine state `v` and
/// consent records `m`.
pub open spec fn servers_json(entries: Seq<Entry>, v: EngineV, m: Map<Seq<char>, RecordV>) -> Seq<JsonV> {
    entries.map_values(
        |e: Entry|
            server_json(
                e,
                consent_for(m, e.name@, e.launch_hash@),
                count_named(v.grants, e.name@),
                running_spec(v, e.name@),
            ),
    )
}

fn str_json(s: &str) -> (r: Json)
    ensures
        r@ == JsonV::Str(s@),
{
    Json::String(owned(s))
}

fn member(key: &str, value: Json) -> (r: (String, Json))
    ensures
        r.0@ == key@,
        r.1@ == value@,
{
    (owned(key), value)
}

fn push_opt(members: &mut Vec<(String, Json)>, key: &str, value: &Option<String>)
    ensures
        crate::json::view_members(final(members)@) == crate::json::view_members(old(members)@) + opt_member(
            key@,
            crate::consent::opt_chars(*value),
        ),
{
    let ghost before = old(members)@;
    proof {
        crate::json::lemma_view_members_index(before);
    }
    match value {
        Some(v) => {
            members.push((owned(key), Json::String(v.clone())));
            proof {
                crate::json::lemma_view_members_index(members@);
                assert(crate::json::view_members(members@) =~= crate::json::view_members(before) + opt_member(
                    key@,
                    crate::consent::opt_chars(*value),
                ));
            }
        },
        None => {
            assert(crate::json::view_members(members@) =~= crate::json::view_members(before) + opt_member(
                key@,
                crate::consent::opt_chars(*value),
            ));
        },
    }
}

fn state_name_str(s: ConsentState) -> (r: &'static str)
    ensures
        r@ == consent_state_name(s),
{
    match s {
        ConsentState::Granted => "granted",
        ConsentState::Denied => "denied",
        ConsentState::NotAsked => "not-asked",
        ConsentState::Stale => "stale",
    }
}

fn code_name_str(c: DiagnosticCode) -> (r: &'static str)
    ensures
        r@ == code_name(c),
{
    match c {
        DiagnosticCode::MalformedJson => "malformed-json",
        DiagnosticCode::SchemaInvalid => "schema-invalid",
        DiagnosticCode::FilenameMismatch => "filename-mismatch",
        DiagnosticCode::Unreadable => "unreadable",
        DiagnosticCode::Shadowed => "shadowed",
    }
}

/// A consent record as JSON.
pub fn record_to_json(r: &ConsentRecord) -> (j: Json)
    ensures
        j@ == record_json(r@),
{
    proof {
        reveal_strlit("state");
        reveal_strlit("grantedAt");
        reveal_strlit("launchHash");
        reveal_strlit("launchCommand");
        reveal_strlit("scope");
    }
    let mut members: Vec<(String, Json)> = Vec::new();
    members.push(member("state", str_json(state_name_str(r.state))));
    proof {
        crate::json::lemma_view_members_index(members@);
        assert(crate::json::view_members(members@) =~= seq![("state"@, JsonV::Str(consent_state_name(r.state)))]);
    }
    push_opt(&mut members, "grantedAt", &r.granted_at);
    push_opt(&mut members, "launchHash", &r.launch_hash);
    push_opt(&mut members, "launchCommand", &r.launch_command);
    let scope = match r.scope {
        Some(ConsentScope::User) => Some(owned("user")),
        Some(ConsentScope::Client) => Some(owned("client")),
        None => None,
    };
    proof {
        reveal_strlit("user");
        reveal_strlit("client");
        assert(crate::consent::opt_chars(scope) == match r.scope {
            Some(s) => Some(scope_name(s)),
            None => None::<Seq<char>>,
        });
    }
    push_opt(&mut members, "scope", &scope);
    Json::Object(members)
}

/// A consent record as `locator/consent/query` reports it.
fn query_to_json(r: &ConsentRecord) -> (j: Json)
    ensures
        j@ == query_json(r@),
{
    proof {
        reveal_strlit("state");
        reveal_strlit("grantedAt");
        reveal_strlit("cardHash");
    }
    let mut members: Vec<(String, Json)> = Vec::new();
    members.push(member("state", str_json(state_name_str(r.state))));
    proof {
        crate::json::lemma_view_members_index(members@);
        assert(crate::json::view_members(members@) =~= seq![("state"@, JsonV::Str(consent_state_name(r.state)))]);
    }
    push_opt(&mut members, "grantedAt", &r.granted_at);
    push_opt(&mut members, "cardHash", &r.launch_hash);
    Json::Object(members)
}

/// A diagnostic as JSON.
pub fn diagnostic_to_json(d: &Diagnostic) -> (j: Json)
    ensures
        j@ == diagnostic_json(d@),
{
    proof {
        reveal_strlit("code");
        reveal_strlit("path");
        reveal_strlit("message");
        reveal_strlit("name");
    }
    let mut members: Vec<(String, Json)> = Vec::new();
    members.push(member("code", str_json(code_name_str(d.code))));
    members.push(member("path", str_json(d.path.as_str())));
    members.push(member("message", str_json(d.message.as_str())));
    proof {
        crate::json::lemma_view_members_index(members@);
        assert(crate::json::view_members(members@) =~= seq![
            ("code"@, JsonV::Str(code_name(d.code))),
            ("path"@, JsonV::Str(d.path@)),
            ("message"@, JsonV::Str(d.message@)),
        ]);
    }
    push_opt(&mut members, "name", &d.name);
    Json::Object(members)
}

/// Diagnostics as a JSON array.
pub fn diagnostics_to_json(ds: &Vec<Diagnostic>) -> (j: Json)
    ensures
        j@ == JsonV::Array(diagnostics_json(diags_view(ds@))),
{
    let mut items: Vec<Json> = Vec::new();
    let mut i: usize = 0;
    while i < ds.len()
        invariant
            i <= ds@.len(),
            crate::json::view_items(items@) == diagnostics_json(diags_view(ds@)).take(i as int),
        decreases ds@.len() - i,
    {
        let ghost before = items@;
        items.push(diagnostic_to_json(&ds[i]));
        proof {
            crate::json::lemma_view_items_index(before);
            crate::json::lemma_view_items_index(items@);
            assert(crate::json::view_items(items@) =~= diagnostics_json(diags_view(ds@)).take(i + 1));
        }
        i = i + 1;
    }
    assert(diagnostics_json(diags_view(ds@)).take(ds@.len() as int) =~= diagnostics_json(diags_view(ds@)));
    Json::Array(items)
}

fn shadows_to_json(s: &Vec<ShadowedBy>) -> (j: Json)
    ensures
        j@ == JsonV::Array(shadows_json(s@)),
{
    proof {
        reveal_strlit("path");
        reveal_strlit("tier");
    }
    let mut items: Vec<Json> = Vec::new();
    let mut i: usize = 0;
    while i < s.len()
        invariant
            i <= s@.len(),
            crate::json::view_items(items@) == shadows_json(s@).take(i as int),
        decreases s@.len() - i,
    {
        let mut members: Vec<(String, Json)> = Vec::new();
        members.push(member("path", str_json(s[i].path.as_str())));
        members.push(member("tier", str_json(s[i].tier.name())));
        proof {
            crate::json::lemma_view_members_index(members@);
            assert(crate::json::view_members(members@) =~= shadow_json(s@[i as int].path@, s@[i as int].tier)->Object_0);
        }
        let ghost before = items@;
        items.push(Json::Object(members));
        proof {
            crate::json::lemma_view_items_index(before);
            crate::json::lemma_view_items_index(items@);
            assert(crate::json::view_items(items@) =~= shadows_json(s@).take(i + 1));
        }
        i = i + 1;
    }
    assert(shadows_json(s@).take(s@.len() as int) =~= shadows_json(s@));
    Json::Array(items)
}

fn count_to_json(n: usize) -> (j: Json)
    ensures
        j@ == count_json(n as nat),
{
    Json::Number(JsonNumber::PosInt(n as u64))
}

/// One server as `locator/list` reports it.
pub fn server_to_json(entry: &Entry, engine: &Engine) -> (j: Json)
    ensures
        j@ == server_json(
            *entry,
            consent_for(engine@.consent, entry.name@, entry.launch_hash@),
            count_named(engine@.grants, entry.name@),
            running_spec(engine@, entry.name@),
        ),
{
    proof {
        reveal_strlit("name");
        reveal_strlit("version");
        reveal_strlit("title");
        reveal_strlit("description");
        reveal_strlit("tier");
        reveal_strlit("path");
        reveal_strlit("orphaned");
        reveal_strlit("launchHash");
        reveal_strlit("state");
        reveal_strlit("consent");
        reveal_strlit("grants");
        reveal_strlit("shadowed");
    }
    let consent = engine.consent().evaluate(entry.name.as_str(), entry.launch_hash.as_str());
    let grants = engine.grant_count(entry.name.as_str());
    let running = engine.is_running(entry.name.as_str());
    let state = state_of(entry.orphaned, running, grants);
    let title = match &entry.card.title {
        Some(t) => str_json(t.as_str()),
        None => Json::Null,
    };
    let mut members: Vec<(String, Json)> = Vec::new();
    members.push(member("name", str_json(entry.name.as_str())));
    members.push(member("version", str_json(entry.version.as_str())));
    members.push(member("title", title));
    members.push(member("description", str_json(entry.card.description.as_str())));
    members.push(member("tier", str_json(entry.tier.name())));
    members.push(member("path", str_json(entry.path.as_str())));
    members.push(member("orphaned", Json::Bool(entry.orphaned)));
    members.push(member("launchHash", str_json(entry.launch_hash.as_str())));
    members.push(member("state", str_json(state.wire_name())));
    members.push(member("consent", record_to_json(&consent)));
    members.push(member("grants", count_to_json(grants)));
    members.push(member("shadowed", shadows_to_json(&entry.shadowed)));
    proof {
        crate::json::lemma_view_members_index(members@);
        let expected = server_json(
            *entry,
            consent_for(engine@.consent, entry.name@, entry.launch_hash@),
            count_named(engine@.grants, entry.name@),
            running_spec(engine@, entry.name@),
        );
        assert(crate::json::view_members(members@) =~= expected->Object_0);
    }
    Json::Object(members)
}

/// The answer to `locator/list`: every server of the catalog with its state, consent and
/// grant count, and every diagnostic.
pub fn list_response(id: Json, catalog: &Catalog, engine: &Engine) -> (r: Response)
    ensures
        ok_response(
            r,
            id@,
            JsonV::Object(
                seq![
                    ("servers"@, JsonV::Array(servers_json(catalog.entries@, engine@, engine@.consent))),
                    ("diagnostics"@, JsonV::Array(diagnostics_json(diags_view(catalog.diagnostics@)))),
                ],
            ),
        ),
{
    proof {
        reveal_strlit("servers");
        reveal_strlit("diagnostics");
        reveal_strlit("2.0");
    }
    let ghost target = servers_json(catalog.entries@, engine@, engine@.consent);
    let mut items: Vec<Json> = Vec::new();
    let mut i: usize = 0;
    while i < catalog.entries.len()
        invariant
            i <= catalog.entries@.len(),
            target == servers_json(catalog.entries@, engine@, engine@.consent),
            crate::json::view_items(items@) == target.take(i as int),
        decreases catalog.entries@.len() - i,
    {
        let ghost before = items@;
        items.push(server_to_json(&catalog.entries[i], engine));
        proof {
            crate::json::lemma_view_items_index(before);
            crate::json::lemma_view_items_index(items@);
            assert(crate::json::view_items(items@) =~= target.take(i + 1));
        }
        i = i + 1;
    }
    assert(target.take(catalog.entries@.len() as int) =~= target);
    let mut members: Vec<(String, Json)> = Vec::new();
    members.push(member("servers", Json::Array(items)));
    members.push(member("diagnostics", diagnostics_to_json(&catalog.diagnostics)));
    proof {
        crate::json::lemma_view_members_index(members@);
        assert(crate::json::view_members(members@) =~= seq![
            ("servers"@, JsonV::Array(target)),
            ("diagnostics"@, JsonV::Array(diagnostics_json(diags_view(catalog.diagnostics@)))),
        ]);
    }
    Response::ok(id, Json::Object(members))
}

/// The answer to `locator/handshake`.
pub fn handshake_response(id: Json, broker_version: &str) -> (r: Response)
    ensures
        ok_response(
            r,
            id@,
            JsonV::Object(
                seq![
                    ("brokerVersion"@, JsonV::Str(broker_version@)),
                    ("brokerProtocol"@, JsonV::Number(JsonNumber::PosInt(BROKER_PROTOCOL as u64))),
                ],
            ),
        ),
{
    proof {
        reveal_strlit("brokerVersion");
        reveal_strlit("brokerProtocol");
        reveal_strlit("2.0");
    }
    let mut members: Vec<(String, Json)> = Vec::new();
    members.push(member("brokerVersion", str_json(broker_version)));
    members.push(member("brokerProtocol", Json::Number(JsonNumber::PosInt(BROKER_PROTOCOL as u64))));
    proof {
        crate::json::lemma_view_members_index(members@);
        assert(crate::json::view_members(members@) =~= seq![
            ("brokerVersion"@, JsonV::Str(broker_version@)),
            ("brokerProtocol"@, JsonV::Number(JsonNumber::PosInt(BROKER_PROTOCOL as u64))),
        ]);
    }
    Response::ok(id, Json::Object(members))
}

/// The answer to a request naming a server that no card registers.
pub fn unknown_server_response(id: Json, name: &str) -> (r: Response)
    ensures
        error_response(r, id@, INVALID_PARAMS, "unknown server: "@ + name@),
{
    proof {
        reveal_strlit("unknown server: ");
        reveal_strlit("2.0");
    }
    Response::err(id, INVALID_PARAMS, crate::text::concat("unknown server: ", name))
}

/// Entry `k` is the first of `s` called `name`.
pub open spec fn first_called(s: Seq<Entry>, name: Seq<char>, k: int) -> bool {
    0 <= k < s.len() && s[k].name@ == name && forall|j: int| 0 <= j < k ==> (#[trigger] s[j]).name@ != name
}

/// The first catalog entry called `name`.
pub fn find_entry(entries: Vec<Entry>, name: &str) -> (r: Option<Entry>)
    ensures
        match r {
            Some(e) => exists|k: int| #[trigger] first_called(entries@, name@, k) && entries@[k] == e,
            None => forall|j: int| 0 <= j < entries@.len() ==> (#[trigger] entries@[j]).name@ != name@,
        },
{
    let ghost all = entries@;
    let mut rest = entries;
    let mut i: usize = 0;
    while i < rest.len()
        invariant
            rest@ == all,
            all == entries@,
            i <= all.len(),
            forall|j: int| 0 <= j < i ==> (#[trigger] all[j]).name@ != name@,
        decreases all.len() - i,
    {
        if crate::json::str_eq(rest[i].name.as_str(), name) {
            let e = rest.remove(i);
            assert(all[i as int] == e);
            assert(first_called(all, name@, i as int));
            return Some(e);
        }
        i = i + 1;
    }
    None
}

pub open spec fn pid_json(p: Option<u32>) -> JsonV {
    match p {
        Some(pid) => JsonV::Number(JsonNumber::PosInt(pid as u64)),
        None => JsonV::Null,
    }
}

pub open spec fn holders_json(pids: Seq<Option<u32>>) -> Seq<JsonV> {
    pids.map_values(|p: Option<u32>| pid_json(p))
}

/// The status of server `name` (registered as `entry`), as `locator/status` reports it.
pub open spec fn status_json(name: Seq<char>, entry: Entry, v: EngineV, m: Map<Seq<char>, RecordV>) -> JsonV {
    let grants = count_named(v.grants, name);
    JsonV::Object(
        seq![
            ("name"@, JsonV::Str(name)),
            ("state"@, JsonV::Str(server_state_name(state_of_spec(entry.orphaned, running_spec(v, name), grants)))),
            ("grants"@, count_json(grants)),
            ("holders"@, JsonV::Array(holders_json(holders_spec(v.grants, name)))),
            ("consent"@, record_json(consent_for(m, name, entry.launch_hash@))),
        ],
    )
}

/// The answer to `locator/status` for server `name`, registered as `entry`.
pub fn status_response(id: Json, name: &str, entry: &Entry, engine: &Engine) -> (r: Response)
    ensures
        ok_response(r, id@, status_json(name@, *entry, engine@, engine@.consent)),
{
    proof {
        reveal_strlit("name");
        reveal_strlit("state");
        reveal_strlit("grants");
        reveal_strlit("holders");
        reveal_strlit("consent");
        reveal_strlit("2.0");
    }
    let grants = engine.grant_count(name);
    let running = engine.is_running(name);
    let consent = engine.consent().evaluate(name, entry.launch_hash.as_str());
    let pids = engine.holders(name);
    let mut items: Vec<Json> = Vec::new();
    let mut i: usize = 0;
    while i < pids.len()
        invariant
            i <= pids@.len(),
            crate::json::view_items(items@) == holders_json(pids@).take(i as int),
        decreases pids@.len() - i,
    {
        let item = match pids[i] {
            Some(pid) => Json::Number(JsonNumber::PosInt(pid as u64)),
            None => Json::Null,
        };
        let ghost before = items@;
        items.push(item);
        proof {
            crate::json::lemma_view_items_index(before);
            crate::json::lemma_view_items_index(items@);
            assert(crate::json::view_items(items@) =~= holders_json(pids@).take(i + 1));
        }
        i = i + 1;
    }
    assert(holders_json(pids@).take(pids@.len() as int) =~= holders_json(pids@));
    let state = state_of(entry.orphaned, running, grants);
    let mut members: Vec<(String, Json)> = Vec::new();
    members.push(member("name", str_json(name)));
    members.push(member("state", str_json(state.wire_name())));
    members.push(member("grants", count_to_json(grants)));
    members.push(member("holders", Json::Array(items)));
    members.push(member("consent", record_to_json(&consent)));
    proof {
        crate::json::lemma_view_members_index(members@);
        assert(crate::json::view_members(members@) =~= status_json(name@, *entry, engine@, engine@.consent)->Object_0);
    }
    Response::ok(id, Json::Object(members))
}

/// The answer to `locator/consent/query`: the consent state as it applies to the card, when it
/// was granted, and the card hash the decision is bound to.
pub fn consent_query_response(id: Json, name: &str, entry: &Entry, engine: &Engine) -> (r: Response)
    ensures
        ok_response(r, id@, query_json(consent_for(engine@.consent, name@, entry.launch_hash@))),
{
    proof {
        reveal_strlit("2.0");
    }
    let consent = engine.consent().evaluate(name, entry.launch_hash.as_str());
    Response::ok(id, query_to_json(&consent))
}

/// What `locator/activate` answers with a grant taken.
pub open spec fn grant_json(grant_id: Seq<char>, transport: Seq<char>, address: Seq<char>) -> JsonV {
    JsonV::Object(
        seq![
            ("grantId"@, JsonV::Str(grant_id)),
            ("connection"@, JsonV::Object(seq![("type"@, JsonV::Str(transport)), ("address"@, JsonV::Str(address))])),
        ],
    )
}

/// The answer to `locator/activate`: the grant, or why it was refused. Missing consent gets
/// its own code, so a client can route it to an "ask the user" path.
pub fn activate_response(id: Json, result: Result<ActivateResult, ActivateError>) -> (r: Response)
    ensures
        match result {
            Ok(g) => ok_response(r, id@, grant_json(g.grant_id@, g.connection.transport@, g.connection.address@)),
            Err(e) => error_response(
                r,
                id@,
                if e is ConsentRequired {
                    CONSENT_REQUIRED
                } else {
                    ACTIVATION_FAILED
                },
                crate::activation::error_message(e),
            ),
        },
{
    proof {
        reveal_strlit("grantId");
        reveal_strlit("connection");
        reveal_strlit("type");
        reveal_strlit("address");
        reveal_strlit("2.0");
    }
    match result {
        Ok(g) => {
            let mut conn: Vec<(String, Json)> = Vec::new();
            conn.push(member("type", str_json(g.connection.transport.as_str())));
            conn.push(member("address", str_json(g.connection.address.as_str())));
            let mut members: Vec<(String, Json)> = Vec::new();
            members.push(member("grantId", str_json(g.grant_id.as_str())));
            proof {
                crate::json::lemma_view_members_index(conn@);
                assert(crate::json::view_members(conn@) =~= seq![
                    ("type"@, JsonV::Str(g.connection.transport@)),
                    ("address"@, JsonV::Str(g.connection.address@)),
                ]);
            }
            members.push(member("connection", Json::Object(conn)));
            proof {
                crate::json::lemma_view_members_index(members@);
                assert(crate::json::view_members(members@) =~= grant_json(
                    g.grant_id@,
                    g.connection.transport@,
                    g.connection.address@,
                )->Object_0);
            }
            Response::ok(id, Json::Object(members))
        },
        Err(e) => {
            let code = match &e {
                ActivateError::ConsentRequired { .. } => CONSENT_REQUIRED,
                _ => ACTIVATION_FAILED,
            };
            Response::err(id, code, e.message())
        },
    }
}

/// The answer to `locator/release`: an empty object once the grant is dropped.
pub fn release_response(id: Json, grant_id: &str, released: bool) -> (r: Response)
    ensures
        released ==> ok_response(r, id@, JsonV::Object(Seq::empty())),
        !released ==> error_response(r, id@, INVALID_PARAMS, "unknown grant: "@ + grant_id@),
{
    proof {
        reveal_strlit("unknown grant: ");
        reveal_strlit("2.0");
    }
    if released {
        let members: Vec<(String, Json)> = Vec::new();
        assert(crate::json::view_members(members@) =~= Seq::<(Seq<char>, JsonV)>::empty());
        Response::ok(id, Json::Object(members))
    } else {
        Response::err(id, INVALID_PARAMS, crate::text::concat("unknown grant: ", grant_id))
    }
}

/// Holder names joined for a person to read.
pub open spec fn joined(items: Seq<Seq<char>>) -> Seq<char>
    decreases items.len(),
{
    if items.len() == 0 {
        Seq::empty()
    } else if items.len() == 1 {
        items[0]
    } else {
        joined(items.drop_last()) + ", "@ + items.last()
    }
}

fn join_holders(items: &Vec<String>) -> (r: String)
    ensures
        r@ == joined(crate::text::string_views(items@)),
{
    let ghost v = crate::text::string_views(items@);
    let mut out: Vec<char> = Vec::new();
    let mut i: usize = 0;
    proof {
        reveal_strlit(", ");
    }
    while i < items.len()
        invariant
            v == crate::text::string_views(items@),
            i <= items@.len(),
            out@ == joined(v.take(i as int)),
        decreases items@.len() - i,
    {
        assert(v.take(i + 1).drop_last() =~= v.take(i as int));
        assert(v[i as int] == items@[i as int]@);
        if i > 0 {
            push_str(&mut out, ", ");
        } else {
            assert(v.take(1)[0] == v[0]);
        }
        push_str(&mut out, items[i].as_str());
        i = i + 1;
    }
    assert(v.take(items@.len() as int) =~= v);
    string_from_chars(out.as_slice())
}

/// The answer to `locator/deactivate`: an empty object once the server is stopped, or who holds
/// it (which is what lets a person decide whether forcing is safe).
pub fn deactivate_response(id: Json, name: &str, result: Result<usize, Vec<String>>) -> (r: Response)
    ensures
        match result {
            Ok(_) => ok_response(r, id@, JsonV::Object(Seq::empty())),
            Err(h) => error_response(
                r,
                id@,
                IN_USE,
                name@ + " is in use by "@ + joined(crate::text::string_views(h@)) + "; pass force to stop it anyway"@,
            ),
        },
{
    proof {
        reveal_strlit(" is in use by ");
        reveal_strlit("; pass force to stop it anyway");
        reveal_strlit("2.0");
    }
    match result {
        Ok(_) => {
            let members: Vec<(String, Json)> = Vec::new();
            assert(crate::json::view_members(members@) =~= Seq::<(Seq<char>, JsonV)>::empty());
            Response::ok(id, Json::Object(members))
        },
        Err(holders) => {
            let list = join_holders(&holders);
            let mut out: Vec<char> = Vec::new();
            push_str(&mut out, name);
            push_str(&mut out, " is in use by ");
            push_str(&mut out, list.as_str());
            push_str(&mut out, "; pass force to stop it anyway");
            Response::err(id, IN_USE, string_from_chars(out.as_slice()))
        },
    }
}

/// The state directory the broker keeps its consent store and audit log in.
pub fn state_dir(p: crate::dirs::Platform, env: &crate::env::Env) -> (r: String)
    ensures
        r@ == crate::dirs::state_dir_spec(p, *env),
{
    crate::dirs::resolve_state_dir(p, env)
}

} // verus!
