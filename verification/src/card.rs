//! The card model and its validation.
//!
//! A card is decoded from its JSON by the rules of the card schema: required fields must be
//! present with the right type, optional ones may be absent or `null`, and members the schema
//! does not name are ignored.

use crate::json::{get_spec, member, view_items, lemma_view_items_index, Json, JsonNumber, JsonV};
use crate::text::{chars_of, push_str, string_from_chars};
use vstd::prelude::*;

verus! {

#[derive(Debug, Clone, Copy, PartialEq, Eq, Structural)]
pub enum LaunchType {
    Stdio,
    Executable,
}

#[derive(Debug, Clone, Copy, PartialEq, Eq, Structural)]
pub enum EndpointType {
    Pipe,
    UnixSocket,
    StreamableHttp,
}

#[derive(Debug)]
pub struct Launch {
    pub launch_type: LaunchType,
    pub command: String,
    pub args: Option<Vec<String>>,
    pub cwd: Option<String>,
    pub shared: Option<bool>,
}

#[derive(Debug)]
pub struct Endpoint {
    pub endpoint_type: EndpointType,
    pub address: String,
}

#[derive(Debug)]
pub struct Liveness {
    pub pid_file: Option<String>,
    pub probe: Option<bool>,
}

#[derive(Debug)]
pub struct Lifetime {
    pub idle_timeout_seconds: Option<u64>,
}

/// What the consent prompt shows about the server, in the card author's words.
#[derive(Debug)]
pub struct ConsentBlock {
    pub summary: Option<String>,
}

#[derive(Debug)]
pub struct LocalBlock {
    pub launch: Option<Launch>,
    pub endpoint: Option<Endpoint>,
    pub liveness: Option<Liveness>,
    pub lifetime: Option<Lifetime>,
    pub consent: Option<ConsentBlock>,
}

#[derive(Debug)]
pub struct Card {
    pub name: String,
    pub version: String,
    pub description: String,
    pub title: Option<String>,
    pub local: Option<LocalBlock>,
    pub remotes: Option<Vec<Json>>,
}

/// Why a card file did not yield a catalog entry.
#[derive(Debug, Clone, Copy, PartialEq, Eq, Structural)]
pub enum DiagnosticCode {
    MalformedJson,
    SchemaInvalid,
    FilenameMismatch,
    Unreadable,
    Shadowed,
}

// ---------------------------------------------------------------------------------------------
// Decoding rules
// ---------------------------------------------------------------------------------------------

/// A member that is missing or `null` reads as "not given".
pub open spec fn absent(o: Option<JsonV>) -> bool {
    o is None || o == Some(JsonV::Null)
}

pub open spec fn string_ok(o: Option<JsonV>) -> bool {
    o matches Some(JsonV::Str(_))
}

pub open spec fn string_is(f: String, o: Option<JsonV>) -> bool {
    o == Some(JsonV::Str(f@))
}

pub open spec fn opt_string_ok(o: Option<JsonV>) -> bool {
    absent(o) || string_ok(o)
}

pub open spec fn opt_string_is(f: Option<String>, o: Option<JsonV>) -> bool {
    if absent(o) {
        f is None
    } else {
        f matches Some(x) && string_is(x, o)
    }
}

pub open spec fn opt_bool_ok(o: Option<JsonV>) -> bool {
    absent(o) || o matches Some(JsonV::Bool(_))
}

pub open spec fn opt_bool_is(f: Option<bool>, o: Option<JsonV>) -> bool {
    if absent(o) {
        f is None
    } else {
        f matches Some(b) && o == Some(JsonV::Bool(b))
    }
}

/// A JSON number that is a whole number in the range of `u64`.
pub open spec fn u64_value(v: JsonV) -> Option<u64> {
    match v {
        JsonV::Number(JsonNumber::PosInt(u)) => Some(u),
        JsonV::Number(JsonNumber::NegInt(i)) => if i >= 0 {
            Some(i as u64)
        } else {
            None
        },
        _ => None,
    }
}

pub open spec fn opt_u64_ok(o: Option<JsonV>) -> bool {
    absent(o) || (o matches Some(v) && u64_value(v) is Some)
}

pub open spec fn opt_u64_is(f: Option<u64>, o: Option<JsonV>) -> bool {
    if absent(o) {
        f is None
    } else {
        f == u64_value(o.unwrap())
    }
}

pub open spec fn opt_strings_ok(o: Option<JsonV>) -> bool {
    absent(o) || (o matches Some(JsonV::Array(items)) && forall|k: int|
        0 <= k < items.len() ==> (#[trigger] items[k]) is Str)
}

pub open spec fn opt_strings_is(f: Option<Vec<String>>, o: Option<JsonV>) -> bool {
    if absent(o) {
        f is None
    } else {
        &&& f is Some
        &&& o matches Some(JsonV::Array(items))
        &&& f.unwrap()@.len() == items.len()
        &&& forall|k: int| 0 <= k < items.len() ==> items[k] == JsonV::Str((#[trigger] f.unwrap()@[k])@)
    }
}

pub open spec fn launch_type_of(o: Option<JsonV>) -> Option<LaunchType> {
    if o == Some(JsonV::Str("stdio"@)) {
        Some(LaunchType::Stdio)
    } else if o == Some(JsonV::Str("executable"@)) {
        Some(LaunchType::Executable)
    } else {
        None
    }
}

pub open spec fn endpoint_type_of(o: Option<JsonV>) -> Option<EndpointType> {
    if o == Some(JsonV::Str("pipe"@)) {
        Some(EndpointType::Pipe)
    } else if o == Some(JsonV::Str("unix-socket"@)) {
        Some(EndpointType::UnixSocket)
    } else if o == Some(JsonV::Str("streamable-http"@)) {
        Some(EndpointType::StreamableHttp)
    } else {
        None
    }
}

pub open spec fn launch_ok(v: JsonV) -> bool {
    &&& v is Object
    &&& launch_type_of(get_spec(v, "type"@)) is Some
    &&& string_ok(get_spec(v, "command"@))
    &&& opt_strings_ok(get_spec(v, "args"@))
    &&& opt_string_ok(get_spec(v, "cwd"@))
    &&& opt_bool_ok(get_spec(v, "shared"@))
}

pub open spec fn launch_is(l: Launch, v: JsonV) -> bool {
    &&& Some(l.launch_type) == launch_type_of(get_spec(v, "type"@))
    &&& string_is(l.command, get_spec(v, "command"@))
    &&& opt_strings_is(l.args, get_spec(v, "args"@))
    &&& opt_string_is(l.cwd, get_spec(v, "cwd"@))
    &&& opt_bool_is(l.shared, get_spec(v, "shared"@))
}

pub open spec fn endpoint_ok(v: JsonV) -> bool {
    &&& v is Object
    &&& endpoint_type_of(get_spec(v, "type"@)) is Some
    &&& string_ok(get_spec(v, "address"@))
}

pub open spec fn endpoint_is(e: Endpoint, v: JsonV) -> bool {
    &&& Some(e.endpoint_type) == endpoint_type_of(get_spec(v, "type"@))
    &&& string_is(e.address, get_spec(v, "address"@))
}

pub open spec fn liveness_ok(v: JsonV) -> bool {
    &&& v is Object
    &&& opt_string_ok(get_spec(v, "pidFile"@))
    &&& opt_bool_ok(get_spec(v, "probe"@))
}

pub open spec fn liveness_is(x: Liveness, v: JsonV) -> bool {
    &&& opt_string_is(x.pid_file, get_spec(v, "pidFile"@))
    &&& opt_bool_is(x.probe, get_spec(v, "probe"@))
}

pub open spec fn lifetime_ok(v: JsonV) -> bool {
    &&& v is Object
    &&& opt_u64_ok(get_spec(v, "idleTimeoutSeconds"@))
}

pub open spec fn lifetime_is(x: Lifetime, v: JsonV) -> bool {
    opt_u64_is(x.idle_timeout_seconds, get_spec(v, "idleTimeoutSeconds"@))
}

pub open spec fn consent_block_ok(v: JsonV) -> bool {
    &&& v is Object
    &&& opt_string_ok(get_spec(v, "summary"@))
}

pub open spec fn consent_block_is(x: ConsentBlock, v: JsonV) -> bool {
    opt_string_is(x.summary, get_spec(v, "summary"@))
}

pub open spec fn local_ok(v: JsonV) -> bool {
    &&& v is Object
    &&& (absent(get_spec(v, "launch"@)) || launch_ok(get_spec(v, "launch"@).unwrap()))
    &&& (absent(get_spec(v, "endpoint"@)) || endpoint_ok(get_spec(v, "endpoint"@).unwrap()))
    &&& (absent(get_spec(v, "liveness"@)) || liveness_ok(get_spec(v, "liveness"@).unwrap()))
    &&& (absent(get_spec(v, "lifetime"@)) || lifetime_ok(get_spec(v, "lifetime"@).unwrap()))
    &&& (absent(get_spec(v, "consent"@)) || consent_block_ok(get_spec(v, "consent"@).unwrap()))
}

pub open spec fn local_is(x: LocalBlock, v: JsonV) -> bool {
    &&& (if absent(get_spec(v, "launch"@)) {
        x.launch is None
    } else {
        x.launch matches Some(l) && launch_is(l, get_spec(v, "launch"@).unwrap())
    })
    &&& (if absent(get_spec(v, "endpoint"@)) {
        x.endpoint is None
    } else {
        x.endpoint matches Some(e) && endpoint_is(e, get_spec(v, "endpoint"@).unwrap())
    })
    &&& (if absent(get_spec(v, "liveness"@)) {
        x.liveness is None
    } else {
        x.liveness matches Some(l) && liveness_is(l, get_spec(v, "liveness"@).unwrap())
    })
    &&& (if absent(get_spec(v, "lifetime"@)) {
        x.lifetime is None
    } else {
        x.lifetime matches Some(l) && lifetime_is(l, get_spec(v, "lifetime"@).unwrap())
    })
    &&& (if absent(get_spec(v, "consent"@)) {
        x.consent is None
    } else {
        x.consent matches Some(c) && consent_block_is(c, get_spec(v, "consent"@).unwrap())
    })
}

pub open spec fn remotes_ok(o: Option<JsonV>) -> bool {
    absent(o) || o matches Some(JsonV::Array(_))
}

pub open spec fn remotes_is(f: Option<Vec<Json>>, o: Option<JsonV>) -> bool {
    if absent(o) {
        f is None
    } else {
        f matches Some(items) && o == Some(JsonV::Array(view_items(items@)))
    }
}

/// Whether a JSON object has the shape of a card.
pub open spec fn card_ok(v: JsonV) -> bool {
    &&& v is Object
    &&& string_ok(get_spec(v, "name"@))
    &&& string_ok(get_spec(v, "version"@))
    &&& string_ok(get_spec(v, "description"@))
    &&& opt_string_ok(get_spec(v, "title"@))
    &&& (absent(get_spec(v, "local"@)) || local_ok(get_spec(v, "local"@).unwrap()))
    &&& remotes_ok(get_spec(v, "remotes"@))
}

/// Whether `c` is the card that `v` decodes to.
pub open spec fn card_is(c: Card, v: JsonV) -> bool {
    &&& string_is(c.name, get_spec(v, "name"@))
    &&& string_is(c.version, get_spec(v, "version"@))
    &&& string_is(c.description, get_spec(v, "description"@))
    &&& opt_string_is(c.title, get_spec(v, "title"@))
    &&& (if absent(get_spec(v, "local"@)) {
        c.local is None
    } else {
        c.local matches Some(l) && local_is(l, get_spec(v, "local"@).unwrap())
    })
    &&& remotes_is(c.remotes, get_spec(v, "remotes"@))
}

// ---------------------------------------------------------------------------------------------
// Decoding
// ---------------------------------------------------------------------------------------------

/// The value of an optional reference to a JSON value.
pub open spec fn opt_view(o: Option<&Json>) -> Option<JsonV> {
    match o {
        Some(j) => Some(j@),
        None => None,
    }
}

fn is_absent(o: Option<&Json>) -> (r: bool)
    ensures
        r == absent(opt_view(o)),
{
    match o {
        None => true,
        Some(Json::Null) => true,
        Some(_) => false,
    }
}

fn decode_string(o: Option<&Json>) -> (r: Option<String>)
    ensures
        r is Some == string_ok(opt_view(o)),
        r matches Some(x) ==> string_is(x, opt_view(o)),
{
    match o {
        Some(Json::String(s)) => Some(s.clone()),
        _ => None,
    }
}

fn decode_opt_string(o: Option<&Json>) -> (r: Option<Option<String>>)
    ensures
        r is Some == opt_string_ok(opt_view(o)),
        r matches Some(f) ==> opt_string_is(f, opt_view(o)),
{
    if is_absent(o) {
        return Some(None);
    }
    match decode_string(o) {
        Some(s) => Some(Some(s)),
        None => None,
    }
}

fn decode_opt_bool(o: Option<&Json>) -> (r: Option<Option<bool>>)
    ensures
        r is Some == opt_bool_ok(opt_view(o)),
        r matches Some(f) ==> opt_bool_is(f, opt_view(o)),
{
    if is_absent(o) {
        return Some(None);
    }
    match o {
        Some(Json::Bool(b)) => Some(Some(*b)),
        _ => None,
    }
}

fn decode_opt_u64(o: Option<&Json>) -> (r: Option<Option<u64>>)
    ensures
        r is Some == opt_u64_ok(opt_view(o)),
        r matches Some(f) ==> opt_u64_is(f, opt_view(o)),
{
    if is_absent(o) {
        return Some(None);
    }
    match o {
        Some(Json::Number(JsonNumber::PosInt(u))) => Some(Some(*u)),
        Some(Json::Number(JsonNumber::NegInt(i))) => if *i >= 0 {
            Some(Some(*i as u64))
        } else {
            None
        },
        _ => None,
    }
}

fn decode_opt_strings(o: Option<&Json>) -> (r: Option<Option<Vec<String>>>)
    ensures
        r is Some == opt_strings_ok(opt_view(o)),
        r matches Some(f) ==> opt_strings_is(f, opt_view(o)),
{
    if is_absent(o) {
        return Some(None);
    }
    match o {
        Some(Json::Array(items)) => {
            proof {
                lemma_view_items_index(items@);
            }
            let ghost iv = view_items(items@);
            assert(opt_view(o) == Some(JsonV::Array(iv)));
            let mut out: Vec<String> = Vec::new();
            let mut i: usize = 0;
            while i < items.len()
                invariant
                    opt_view(o) == Some(JsonV::Array(iv)),
                    i <= items@.len(),
                    iv == view_items(items@),
                    iv.len() == items@.len(),
                    forall|k: int| 0 <= k < items@.len() ==> #[trigger] iv[k] == items@[k]@,
                    out@.len() == i,
                    forall|k: int| 0 <= k < i ==> iv[k] == JsonV::Str((#[trigger] out@[k])@),
                decreases items@.len() - i,
            {
                match &items[i] {
                    Json::String(s) => out.push(s.clone()),
                    _ => {
                        assert(!(iv[i as int] is Str));
                        return None;
                    },
                }
                i = i + 1;
            }
            assert forall|k: int| 0 <= k < iv.len() implies (#[trigger] iv[k]) is Str by {
                assert(iv[k] == JsonV::Str(out@[k]@));
            }
            Some(Some(out))
        },
        _ => None,
    }
}

fn decode_launch_type(o: Option<&Json>) -> (r: Option<LaunchType>)
    ensures
        r == launch_type_of(opt_view(o)),
{
    match o {
        Some(Json::String(s)) => {
            if crate::json::str_eq(s.as_str(), "stdio") {
                Some(LaunchType::Stdio)
            } else if crate::json::str_eq(s.as_str(), "executable") {
                Some(LaunchType::Executable)
            } else {
                None
            }
        },
        _ => None,
    }
}

fn decode_endpoint_type(o: Option<&Json>) -> (r: Option<EndpointType>)
    ensures
        r == endpoint_type_of(opt_view(o)),
{
    match o {
        Some(Json::String(s)) => {
            if crate::json::str_eq(s.as_str(), "pipe") {
                Some(EndpointType::Pipe)
            } else if crate::json::str_eq(s.as_str(), "unix-socket") {
                Some(EndpointType::UnixSocket)
            } else if crate::json::str_eq(s.as_str(), "streamable-http") {
                Some(EndpointType::StreamableHttp)
            } else {
                None
            }
        },
        _ => None,
    }
}

fn decode_launch(v: &Json) -> (r: Option<Launch>)
    ensures
        r is Some == launch_ok(v@),
        r matches Some(l) ==> launch_is(l, v@),
{
    if !(v matches Json::Object(_)) {
        return None;
    }
    let launch_type = decode_launch_type(v.get("type"));
    let command = decode_string(v.get("command"));
    let args = decode_opt_strings(v.get("args"));
    let cwd = decode_opt_string(v.get("cwd"));
    let shared = decode_opt_bool(v.get("shared"));
    match (launch_type, command, args, cwd, shared) {
        (Some(launch_type), Some(command), Some(args), Some(cwd), Some(shared)) => Some(
            Launch { launch_type, command, args, cwd, shared },
        ),
        _ => None,
    }
}

fn decode_endpoint(v: &Json) -> (r: Option<Endpoint>)
    ensures
        r is Some == endpoint_ok(v@),
        r matches Some(e) ==> endpoint_is(e, v@),
{
    if !(v matches Json::Object(_)) {
        return None;
    }
    let endpoint_type = decode_endpoint_type(v.get("type"));
    let address = decode_string(v.get("address"));
    match (endpoint_type, address) {
        (Some(endpoint_type), Some(address)) => Some(Endpoint { endpoint_type, address }),
        _ => None,
    }
}

fn decode_liveness(v: &Json) -> (r: Option<Liveness>)
    ensures
        r is Some == liveness_ok(v@),
        r matches Some(x) ==> liveness_is(x, v@),
{
    if !(v matches Json::Object(_)) {
        return None;
    }
    let pid_file = decode_opt_string(v.get("pidFile"));
    let probe = decode_opt_bool(v.get("probe"));
    match (pid_file, probe) {
        (Some(pid_file), Some(probe)) => Some(Liveness { pid_file, probe }),
        _ => None,
    }
}

fn decode_lifetime(v: &Json) -> (r: Option<Lifetime>)
    ensures
        r is Some == lifetime_ok(v@),
        r matches Some(x) ==> lifetime_is(x, v@),
{
    if !(v matches Json::Object(_)) {
        return None;
    }
    match decode_opt_u64(v.get("idleTimeoutSeconds")) {
        Some(idle_timeout_seconds) => Some(Lifetime { idle_timeout_seconds }),
        None => None,
    }
}

fn decode_consent_block(v: &Json) -> (r: Option<ConsentBlock>)
    ensures
        r is Some == consent_block_ok(v@),
        r matches Some(x) ==> consent_block_is(x, v@),
{
    if !(v matches Json::Object(_)) {
        return None;
    }
    match decode_opt_string(v.get("summary")) {
        Some(summary) => Some(ConsentBlock { summary }),
        None => None,
    }
}

fn decode_local(v: &Json) -> (r: Option<LocalBlock>)
    ensures
        r is Some == local_ok(v@),
        r matches Some(x) ==> local_is(x, v@),
{
    if !(v matches Json::Object(_)) {
        return None;
    }
    let o = v.get("launch");
    let launch: Option<Option<Launch>> = if is_absent(o) {
        Some(None)
    } else {
        match decode_launch(o.unwrap()) {
            Some(l) => Some(Some(l)),
            None => None,
        }
    };
    let o = v.get("endpoint");
    let endpoint: Option<Option<Endpoint>> = if is_absent(o) {
        Some(None)
    } else {
        match decode_endpoint(o.unwrap()) {
            Some(x) => Some(Some(x)),
            None => None,
        }
    };
    let o = v.get("liveness");
    let liveness: Option<Option<Liveness>> = if is_absent(o) {
        Some(None)
    } else {
        match decode_liveness(o.unwrap()) {
            Some(x) => Some(Some(x)),
            None => None,
        }
    };
    let o = v.get("lifetime");
    let lifetime: Option<Option<Lifetime>> = if is_absent(o) {
        Some(None)
    } else {
        match decode_lifetime(o.unwrap()) {
            Some(x) => Some(Some(x)),
            None => None,
        }
    };
    let o = v.get("consent");
    let consent: Option<Option<ConsentBlock>> = if is_absent(o) {
        Some(None)
    } else {
        match decode_consent_block(o.unwrap()) {
            Some(x) => Some(Some(x)),
            None => None,
        }
    };
    match (launch, endpoint, liveness, lifetime, consent) {
        (Some(launch), Some(endpoint), Some(liveness), Some(lifetime), Some(consent)) => Some(
            LocalBlock { launch, endpoint, liveness, lifetime, consent },
        ),
        _ => None,
    }
}

fn decode_remotes(o: Option<&Json>) -> (r: Option<Option<Vec<Json>>>)
    ensures
        r is Some == remotes_ok(opt_view(o)),
        r matches Some(f) ==> remotes_is(f, opt_view(o)),
{
    if is_absent(o) {
        return Some(None);
    }
    match o {
        Some(Json::Array(items)) => {
            let mut out: Vec<Json> = Vec::new();
            let mut i: usize = 0;
            while i < items.len()
                invariant
                    i <= items@.len(),
                    out@.len() == i,
                    forall|k: int| 0 <= k < i ==> (#[trigger] out@[k])@ == items@[k]@,
                decreases items@.len() - i,
            {
                out.push(items[i].duplicate());
                i = i + 1;
            }
            proof {
                crate::json::lemma_view_items_ext(out@, items@);
            }
            Some(Some(out))
        },
        _ => None,
    }
}

/// Decode a card object by the card schema.
fn decode_card(v: &Json) -> (r: Option<Card>)
    ensures
        r is Some == card_ok(v@),
        r matches Some(c) ==> card_is(c, v@),
{
    if !(v matches Json::Object(_)) {
        return None;
    }
    let name = decode_string(v.get("name"));
    let version = decode_string(v.get("version"));
    let description = decode_string(v.get("description"));
    let title = decode_opt_string(v.get("title"));
    let o = v.get("local");
    let local: Option<Option<LocalBlock>> = if is_absent(o) {
        Some(None)
    } else {
        match decode_local(o.unwrap()) {
            Some(x) => Some(Some(x)),
            None => None,
        }
    };
    let remotes = decode_remotes(v.get("remotes"));
    match (name, version, description, title, local, remotes) {
        (Some(name), Some(version), Some(description), Some(title), Some(local), Some(remotes)) => Some(
            Card { name, version, description, title, local, remotes },
        ),
        _ => None,
    }
}

// ---------------------------------------------------------------------------------------------
// Names
// ---------------------------------------------------------------------------------------------

/// The `.`-separated labels of a name (an empty name is one empty label).
pub open spec fn split_dots(s: Seq<char>) -> Seq<Seq<char>>
    decreases s.len(),
{
    if s.len() == 0 {
        seq![Seq::empty()]
    } else {
        let rest = split_dots(s.drop_last());
        if s.last() == '.' {
            rest.push(Seq::empty())
        } else {
            rest.update(rest.len() - 1, rest.last().push(s.last()))
        }
    }
}

pub proof fn lemma_split_dots_nonempty(s: Seq<char>)
    ensures
        split_dots(s).len() >= 1,
    decreases s.len(),
{
    if s.len() > 0 {
        lemma_split_dots_nonempty(s.drop_last());
    }
}

/// A label: lowercase letters, digits and `-`, not empty, not starting or ending with `-`.
pub open spec fn label_ok(l: Seq<char>) -> bool {
    &&& l.len() > 0
    &&& forall|k: int|
        0 <= k < l.len() ==> ('a' <= #[trigger] l[k] && l[k] <= 'z') || ('0' <= l[k] && l[k] <= '9')
            || l[k] == '-'
    &&& l[0] != '-'
    &&& l.last() != '-'
}

/// A reverse-DNS identifier: at least two valid labels, at most 200 bytes of UTF-8.
pub open spec fn reverse_dns(s: Seq<char>, byte_len: nat) -> bool {
    &&& split_dots(s).len() >= 2
    &&& byte_len <= 200
    &&& forall|k: int| 0 <= k < split_dots(s).len() ==> label_ok(#[trigger] split_dots(s)[k])
}

fn is_label(l: &Vec<char>) -> (r: bool)
    ensures
        r == label_ok(l@),
{
    if l.len() == 0 {
        return false;
    }
    let mut i: usize = 0;
    while i < l.len()
        invariant
            i <= l@.len(),
            forall|k: int|
                0 <= k < i ==> ('a' <= #[trigger] l@[k] && l@[k] <= 'z') || ('0' <= l@[k] && l@[k]
                    <= '9') || l@[k] == '-',
        decreases l@.len() - i,
    {
        let c = l[i];
        if !(('a' <= c && c <= 'z') || ('0' <= c && c <= '9') || c == '-') {
            return false;
        }
        i = i + 1;
    }
    l[0] != '-' && l[l.len() - 1] != '-'
}

/// The character sequences of a list of character vectors.
pub open spec fn char_views(v: Seq<Vec<char>>) -> Seq<Seq<char>> {
    v.map_values(|l: Vec<char>| l@)
}

/// Whether `name` is a reverse-DNS identifier such as `com.example.app`.
pub fn is_reverse_dns(name: &str) -> (r: bool)
    ensures
        r == reverse_dns(name@, name.len() as nat),
{
    let cs = chars_of(name);
    let mut labels: Vec<Vec<char>> = Vec::new();
    let mut cur: Vec<char> = Vec::new();
    let mut i: usize = 0;
    assert(cs@.take(0) =~= Seq::<char>::empty());
    assert(char_views(labels@).push(cur@) =~= seq![Seq::<char>::empty()]);
    while i < cs.len()
        invariant
            cs@ == name@,
            i <= cs@.len(),
            split_dots(cs@.take(i as int)) == char_views(labels@).push(cur@),
        decreases cs@.len() - i,
    {
        let ghost prefix = cs@.take(i + 1);
        assert(prefix.drop_last() =~= cs@.take(i as int));
        let c = cs[i];
        if c == '.' {
            let done = cur;
            labels.push(done);
            cur = Vec::new();
            assert(char_views(labels@).push(cur@) =~= split_dots(prefix));
        } else {
            let ghost before = char_views(labels@).push(cur@);
            cur.push(c);
            assert(char_views(labels@).push(cur@) =~= before.update(
                before.len() - 1,
                before.last().push(c),
            ));
        }
        i = i + 1;
    }
    assert(cs@.take(cs@.len() as int) =~= cs@);
    labels.push(cur);
    assert(char_views(labels@) == split_dots(name@));
    if labels.len() < 2 || name.len() > 200 {
        return false;
    }
    let mut j: usize = 0;
    while j < labels.len()
        invariant
            j <= labels@.len(),
            labels@.len() >= 2,
            name.len() <= 200,
            char_views(labels@) == split_dots(name@),
            forall|k: int| 0 <= k < j ==> label_ok(#[trigger] split_dots(name@)[k]),
        decreases labels@.len() - j,
    {
        if !is_label(&labels[j]) {
            assert(char_views(labels@)[j as int] == labels@[j as int]@);
            return false;
        }
        assert(char_views(labels@)[j as int] == labels@[j as int]@);
        j = j + 1;
    }
    true
}

// ---------------------------------------------------------------------------------------------
// Validation
// ---------------------------------------------------------------------------------------------

/// A member of the card's `local` block.
pub open spec fn local_member(v: JsonV, k: Seq<char>) -> Option<JsonV> {
    let l = get_spec(v, "local"@);
    if absent(l) {
        None
    } else {
        get_spec(l.unwrap(), k)
    }
}

pub open spec fn has_launch(v: JsonV) -> bool {
    !absent(local_member(v, "launch"@))
}

pub open spec fn has_endpoint(v: JsonV) -> bool {
    !absent(local_member(v, "endpoint"@))
}

pub open spec fn has_remotes(v: JsonV) -> bool {
    get_spec(v, "remotes"@) matches Some(JsonV::Array(items)) && items.len() > 0
}

/// Whether the card's launch is of type `executable`.
pub open spec fn launches_executable(v: JsonV) -> bool {
    has_launch(v) && launch_type_of(get_spec(local_member(v, "launch"@).unwrap(), "type"@))
        == Some(LaunchType::Executable)
}

pub open spec fn missing_field_message(k: Seq<char>) -> Seq<char> {
    "missing required field `"@ + k + "`"@
}

/// Why a parsed card is invalid, or `None` when it is a valid card.
pub open spec fn validation_error(v: JsonV) -> Option<Seq<char>> {
    if !(v is Object) {
        Some("card must be a JSON object"@)
    } else if get_spec(v, "name"@) is None {
        Some(missing_field_message("name"@))
    } else if get_spec(v, "version"@) is None {
        Some(missing_field_message("version"@))
    } else if get_spec(v, "description"@) is None {
        Some(missing_field_message("description"@))
    } else if !string_ok(get_spec(v, "name"@)) {
        Some("`name` must be a string"@)
    } else if !reverse_dns(
        get_spec(v, "name"@).unwrap()->Str_0,
        (vstd::utf8::encode_utf8(get_spec(v, "name"@).unwrap()->Str_0).len() as usize) as nat,
    ) {
        Some("`name` is not a reverse-DNS identifier: "@ + get_spec(v, "name"@).unwrap()->Str_0)
    } else if !card_ok(v) {
        Some("card does not match the card schema"@)
    } else if !has_launch(v) && !has_endpoint(v) && !has_remotes(v) {
        Some("card declares no launch, endpoint, or remotes"@)
    } else if launches_executable(v) && !has_endpoint(v) {
        Some("`executable` launch requires `local.endpoint`"@)
    } else {
        None
    }
}

/// Validate a parsed card against the card rules. Returns the reason it is invalid.
pub fn validate(value: &Json) -> (r: Result<Card, String>)
    ensures
        match r {
            Ok(c) => validation_error(value@) is None && card_is(c, value@),
            Err(m) => validation_error(value@) == Some(m@),
        },
{
    if !(value matches Json::Object(_)) {
        return Err(crate::text::owned("card must be a JSON object"));
    }
    if value.get("name").is_none() {
        return Err(crate::text::concat3("missing required field `", "name", "`"));
    }
    if value.get("version").is_none() {
        return Err(crate::text::concat3("missing required field `", "version", "`"));
    }
    if value.get("description").is_none() {
        return Err(crate::text::concat3("missing required field `", "description", "`"));
    }
    let name: &String = match value.get("name") {
        Some(Json::String(s)) => s,
        _ => {
            return Err(crate::text::owned("`name` must be a string"));
        },
    };
    if !is_reverse_dns(name.as_str()) {
        return Err(crate::text::concat("`name` is not a reverse-DNS identifier: ", name.as_str()));
    }
    let card = match decode_card(value) {
        Some(c) => c,
        None => {
            return Err(crate::text::owned("card does not match the card schema"));
        },
    };
    let launch_present = match &card.local {
        Some(l) => l.launch.is_some(),
        None => false,
    };
    let endpoint_present = match &card.local {
        Some(l) => l.endpoint.is_some(),
        None => false,
    };
    let remotes_present = match &card.remotes {
        Some(items) => items.len() > 0,
        None => false,
    };
    proof {
        if remotes_present || has_remotes(value@) {
            let items = card.remotes.unwrap();
            crate::json::lemma_view_items_index(items@);
        }
    }
    if !launch_present && !endpoint_present && !remotes_present {
        return Err(crate::text::owned("card declares no launch, endpoint, or remotes"));
    }
    let executable = match &card.local {
        Some(l) => match &l.launch {
            Some(launch) => launch.launch_type == LaunchType::Executable,
            None => false,
        },
        None => false,
    };
    if executable && !endpoint_present {
        return Err(crate::text::owned("`executable` launch requires `local.endpoint`"));
    }
    Ok(card)
}

/// The endpoint types are the three kebab-case names `pipe`, `unix-socket` and
/// `streamable-http`: an endpoint object with a string address is well formed exactly when its
/// type is one of them, and each name decodes to its own kind of endpoint.
pub proof fn law_endpoint_types_are_the_three_names(v: JsonV, t: Seq<char>, address: Seq<char>)
    requires
        v is Object,
        get_spec(v, "type"@) == Some(JsonV::Str(t)),
        get_spec(v, "address"@) == Some(JsonV::Str(address)),
    ensures
        endpoint_ok(v) <==> (t == "pipe"@ || t == "unix-socket"@ || t == "streamable-http"@),
        t == "pipe"@ ==> forall|e: Endpoint| endpoint_is(e, v) ==> e.endpoint_type == EndpointType::Pipe,
        t == "unix-socket"@ ==> forall|e: Endpoint| endpoint_is(e, v) ==> e.endpoint_type == EndpointType::UnixSocket,
        t == "streamable-http"@ ==> forall|e: Endpoint| endpoint_is(e, v) ==> e.endpoint_type
            == EndpointType::StreamableHttp,
{
    reveal_strlit("pipe");
    reveal_strlit("unix-socket");
    reveal_strlit("streamable-http");
    assert("pipe"@.len() != "unix-socket"@.len());
    assert("pipe"@.len() != "streamable-http"@.len());
    assert("unix-socket"@.len() != "streamable-http"@.len());
}

} // verus!
