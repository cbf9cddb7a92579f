//! Activation, grants, and lifetime.
//!
//! A *grant* is one client's claim on one server. The server starts when the first grant is
//! taken and stops when the last one is released: explicitly, when the holding connection dies,
//! or when the idle window of a shared server runs out.
//!
//! Two shapes of server, because MCP forces the distinction:
//!
//! * `stdio` launches get **one child process per grant**. An MCP stdio connection is a single
//!   session; sharing one child between two clients would interleave their traffic.
//! * `executable` launches serve a declared endpoint, so one child is **shared and counted**
//!   across grants, and stopped only after an idle window with no grant.
//!
//! The engine decides; processes, relays and timers are run by its caller. Every decision that
//! needs outside work is handed out as an [`Effect`], in order, through [`Engine::take_effects`].

use crate::audit::AuditLog;
use crate::card::{EndpointType, LaunchType};
use crate::catalog::Entry;
use crate::consent::{consent_for, ConsentState, ConsentStore};
use crate::dirs::Platform;
use crate::json::{get_spec, Json, JsonV};
use crate::text::{owned, push_str, string_from_chars};
use vstd::prelude::*;

verus! {

/// How long a shared server may sit with no grant before it is stopped, in seconds.
pub const DEFAULT_IDLE_TIMEOUT_SECS: u64 = 300;

/// Where a client reaches an activated server.
#[derive(Debug)]
pub struct ConnectionInfo {
    /// `pipe`, `unix-socket`, or the endpoint type a card declares.
    pub transport: String,
    pub address: String,
}

/// A grant taken: its id, and where to connect.
#[derive(Debug)]
pub struct ActivateResult {
    pub grant_id: String,
    pub connection: ConnectionInfo,
}

/// Why an activation was refused.
#[derive(Debug)]
pub enum ActivateError {
    UnknownServer(String),
    ConsentRequired { name: String, state: ConsentState },
    Orphaned(String),
    NotActivatable(String),
    /// Starting the server failed; the message says how.
    Io(String),
}

/// What kind of claim a grant is.
#[derive(Debug, Clone, Copy, PartialEq, Eq, Structural)]
pub enum GrantKind {
    /// A child owned solely by this grant, relayed to the client.
    Stdio,
    /// A share of the counted child behind a declared endpoint.
    Endpoint,
}

/// One client's claim on one server.
#[derive(Debug)]
pub struct Grant {
    pub name: String,
    /// The pipe connection that took the grant; it is released when that connection ends.
    pub connection: u64,
    pub client_pid: Option<u32>,
    pub kind: GrantKind,
}

/// A shared `executable`-mode server.
#[derive(Debug, Clone, Copy, PartialEq, Eq, Structural)]
pub struct SharedServer {
    /// Whether its child process is running.
    pub running: bool,
    /// Whether an idle window is counting down toward stopping it.
    pub idle_pending: bool,
}

/// Outside work the engine has decided on, for its caller to carry out in order.
#[derive(Debug)]
pub enum Effect {
    /// Cancel the idle window of shared server `name`: a grant arrived in time.
    CancelIdle { name: String },
    /// Stop the child (and relay) of stdio grant `grant_id`.
    StopStdio { grant_id: String },
    /// Start the idle window of shared server `name`: its last grant is gone.
    ArmIdle { name: String, seconds: u64 },
    /// Stop the child of shared server `name`.
    StopShared { name: String },
    /// Append an audit record.
    Audit { event: String, server: String, client_pid: Option<u32>, detail: String },
}

pub struct GrantV {
    pub name: Seq<char>,
    pub connection: u64,
    pub client_pid: Option<u32>,
    pub kind: GrantKind,
}

pub enum EffectV {
    CancelIdle(Seq<char>),
    StopStdio(Seq<char>),
    ArmIdle(Seq<char>, u64),
    StopShared(Seq<char>),
    Audit(Seq<char>, Seq<char>, Option<u32>, Seq<char>),
}

impl Grant {
    pub open spec fn view(self) -> GrantV {
        GrantV { name: self.name@, connection: self.connection, client_pid: self.client_pid, kind: self.kind }
    }
}

impl Effect {
    pub open spec fn view(self) -> EffectV {
        match self {
            Effect::CancelIdle { name } => EffectV::CancelIdle(name@),
            Effect::StopStdio { grant_id } => EffectV::StopStdio(grant_id@),
            Effect::ArmIdle { name, seconds } => EffectV::ArmIdle(name@, seconds),
            Effect::StopShared { name } => EffectV::StopShared(name@),
            Effect::Audit { event, server, client_pid, detail } => EffectV::Audit(
                event@,
                server@,
                client_pid,
                detail@,
            ),
        }
    }
}

pub open spec fn grants_view(s: Seq<(String, Grant)>) -> Seq<(Seq<char>, GrantV)> {
    s.map_values(|p: (String, Grant)| (p.0@, p.1@))
}

pub open spec fn servers_view(s: Seq<(String, SharedServer)>) -> Seq<(Seq<char>, SharedServer)> {
    s.map_values(|p: (String, SharedServer)| (p.0@, p.1))
}

pub open spec fn effects_view(s: Seq<Effect>) -> Seq<EffectV> {
    s.map_values(|e: Effect| e@)
}

/// The engine's state: grants by id in the order taken, shared servers by name, the effects
/// not yet handed out, the grant counter, and the broker's process id.
pub struct EngineV {
    /// The consent decisions the engine consults.
    pub consent: Map<Seq<char>, crate::consent::RecordV>,
    /// Where audit lines go, if anywhere.
    pub audit: Option<Seq<char>>,
    pub grants: Seq<(Seq<char>, GrantV)>,
    pub servers: Seq<(Seq<char>, SharedServer)>,
    pub effects: Seq<EffectV>,
    pub next_grant: u64,
    pub process_id: u32,
}

/// The position of the first pair whose key is `key`.
pub open spec fn find_key<V>(s: Seq<(Seq<char>, V)>, key: Seq<char>) -> Option<int>
    decreases s.len(),
{
    if s.len() == 0 {
        None
    } else {
        match find_key(s.drop_last(), key) {
            Some(i) => Some(i),
            None => if s.last().0 == key {
                Some(s.len() - 1)
            } else {
                None
            },
        }
    }
}

/// How many grants `name` has.
pub open spec fn count_named(g: Seq<(Seq<char>, GrantV)>, name: Seq<char>) -> nat
    decreases g.len(),
{
    if g.len() == 0 {
        0
    } else {
        count_named(g.drop_last(), name) + if g.last().1.name == name {
            1nat
        } else {
            0nat
        }
    }
}

/// How many endpoint grants share server `name`: its reference count.
pub open spec fn count_endpoint(g: Seq<(Seq<char>, GrantV)>, name: Seq<char>) -> nat
    decreases g.len(),
{
    if g.len() == 0 {
        0
    } else {
        count_endpoint(g.drop_last(), name) + if g.last().1.name == name && g.last().1.kind
            == GrantKind::Endpoint {
            1nat
        } else {
            0nat
        }
    }
}

/// The client processes holding grants on `name`, in grant order.
pub open spec fn holders_spec(g: Seq<(Seq<char>, GrantV)>, name: Seq<char>) -> Seq<Option<u32>>
    decreases g.len(),
{
    if g.len() == 0 {
        Seq::empty()
    } else if g.last().1.name == name {
        holders_spec(g.drop_last(), name).push(g.last().1.client_pid)
    } else {
        holders_spec(g.drop_last(), name)
    }
}

/// Whether server `name` has a live process: a grant on it, or a shared child still running
/// (as it is through its idle window).
pub open spec fn running_spec(v: EngineV, name: Seq<char>) -> bool {
    count_named(v.grants, name) > 0 || (find_key(v.servers, name) matches Some(k) && v.servers[k].1.running)
}

/// Whether `id` is one of the ids this engine has handed out: the id of a grant numbered below
/// the counter, in this broker process.
pub open spec fn issued(process_id: u32, next_grant: u64, id: Seq<char>) -> bool {
    exists|k: u64| k < next_grant && id == grant_id_text(process_id, k)
}

/// Every held grant has an id of its own, and each was handed out by this engine.
pub open spec fn ids_wf(grants: Seq<(Seq<char>, GrantV)>, process_id: u32, next_grant: u64) -> bool {
    &&& forall|i: int, j: int|
        0 <= i < j < grants.len() ==> (#[trigger] grants[i]).0 != (#[trigger] grants[j]).0
    &&& forall|i: int| 0 <= i < grants.len() ==> issued(process_id, next_grant, (#[trigger] grants[i]).0)
}

/// What holds between operations: grant ids are distinct and were handed out here; each shared
/// server appears once; an idle window only counts down on a server with no grant; and every
/// endpoint grant shares a running server.
pub open spec fn engine_wf(v: EngineV) -> bool {
    &&& ids_wf(v.grants, v.process_id, v.next_grant)
    &&& forall|i: int, j: int|
        0 <= i < j < v.servers.len() ==> (#[trigger] v.servers[i]).0 != (#[trigger] v.servers[j]).0
    &&& forall|i: int|
        0 <= i < v.servers.len() && (#[trigger] v.servers[i]).1.idle_pending ==> count_endpoint(
            v.grants,
            v.servers[i].0,
        ) == 0
    &&& forall|i: int|
        0 <= i < v.grants.len() && (#[trigger] v.grants[i]).1.kind == GrantKind::Endpoint ==> (find_key(
            v.servers,
            v.grants[i].1.name,
        ) matches Some(k) && v.servers[k].1.running)
}

/// The activation engine: grants, shared servers, and the consent store and audit log it
/// consults.
pub struct Engine {
    consent: ConsentStore,
    audit: AuditLog,
    /// Grants by id, in the order they were taken.
    grants: Vec<(String, Grant)>,
    /// Shared servers by name.
    shared: Vec<(String, SharedServer)>,
    /// Effects decided and not yet handed out.
    effects: Vec<Effect>,
    /// The number the next grant id carries.
    next_grant: u64,
    /// The broker's process id, carried by grant ids.
    process_id: u32,
}

impl Engine {
    pub closed spec fn view(&self) -> EngineV {
        EngineV {
            consent: self.consent@,
            audit: self.audit.path_spec(),
            grants: grants_view(self.grants@),
            servers: servers_view(self.shared@),
            effects: effects_view(self.effects@),
            next_grant: self.next_grant,
            process_id: self.process_id,
        }
    }

    pub open spec fn wf(&self) -> bool {
        engine_wf(self@)
    }

    /// An engine with no grants. `process_id` is the broker's own, which grant ids carry so
    /// they do not repeat across broker instances.
    pub fn new(consent: ConsentStore, audit: AuditLog, process_id: u32) -> (r: Engine)
        ensures
            r.wf(),
            r@.consent == consent@,
            r@.audit == audit.path_spec(),
            r@.grants.len() == 0,
            r@.servers.len() == 0,
            r@.effects.len() == 0,
            r@.next_grant == 1,
            r@.process_id == process_id,
    {
        let r = Engine {
            consent,
            audit,
            grants: Vec::new(),
            shared: Vec::new(),
            effects: Vec::new(),
            next_grant: 1,
            process_id,
        };
        assert(r@.grants =~= Seq::<(Seq<char>, GrantV)>::empty());
        assert(r@.servers =~= Seq::<(Seq<char>, SharedServer)>::empty());
        assert(r@.effects =~= Seq::<EffectV>::empty());
        r
    }

    /// The consent store the engine holds.
    pub closed spec fn store(&self) -> ConsentStore {
        self.consent
    }

    /// The consent store the engine consults.
    pub fn consent(&self) -> (r: &ConsentStore)
        ensures
            r@ == self@.consent,
    {
        &self.consent
    }

    /// The consent store, for the caller to refresh from disk or to record a decision in. The
    /// engine's grants and servers are left as they are.
    pub fn consent_mut(&mut self) -> (r: &mut ConsentStore)
        ensures
            *r == old(self).store(),
            final(self)@ == (EngineV { consent: final(r)@, ..old(self)@ }),
    {
        &mut self.consent
    }

    /// The audit log the engine's audit effects go to.
    pub fn audit(&self) -> (r: &AuditLog)
        ensures
            r.path_spec() == self@.audit,
    {
        &self.audit
    }

    /// Hand out the effects decided so far, oldest first.
    pub fn take_effects(&mut self) -> (r: Vec<Effect>)
        ensures
            effects_view(r@) == old(self)@.effects,
            final(self)@ == (EngineV { effects: Seq::empty(), ..old(self)@ }),
            final(self)@.consent == old(self)@.consent,
            final(self).wf() == old(self).wf(),
    {
        let mut out: Vec<Effect> = Vec::new();
        std::mem::swap(&mut out, &mut self.effects);
        assert(self@.effects =~= Seq::<EffectV>::empty());
        out
    }

    /// How many grants `name` has.
    pub fn grant_count(&self, name: &str) -> (r: usize)
        ensures
            r == count_named(self@.grants, name@),
    {
        let ghost g = self@.grants;
        let mut n: usize = 0;
        let mut i: usize = 0;
        while i < self.grants.len()
            invariant
                g == self@.grants,
                i <= self.grants@.len(),
                n == count_named(g.take(i as int), name@),
                n <= i,
            decreases self.grants@.len() - i,
        {
            assert(g.take(i + 1).drop_last() =~= g.take(i as int));
            assert(g[i as int].1.name == self.grants@[i as int].1.name@);
            if crate::json::str_eq(self.grants[i].1.name.as_str(), name) {
                n = n + 1;
            }
            i = i + 1;
        }
        assert(g.take(self.grants@.len() as int) =~= g);
        n
    }

    /// The client processes holding grants on `name`.
    pub fn holders(&self, name: &str) -> (r: Vec<Option<u32>>)
        ensures
            r@ == holders_spec(self@.grants, name@),
    {
        let ghost g = self@.grants;
        let mut out: Vec<Option<u32>> = Vec::new();
        let mut i: usize = 0;
        while i < self.grants.len()
            invariant
                g == self@.grants,
                i <= self.grants@.len(),
                out@ == holders_spec(g.take(i as int), name@),
            decreases self.grants@.len() - i,
        {
            assert(g.take(i + 1).drop_last() =~= g.take(i as int));
            assert(g[i as int].1 == self.grants@[i as int].1@);
            if crate::json::str_eq(self.grants[i].1.name.as_str(), name) {
                out.push(self.grants[i].1.client_pid);
            }
            i = i + 1;
        }
        assert(g.take(self.grants@.len() as int) =~= g);
        out
    }

    /// Whether server `name` currently has a live process, whatever its grant count: a shared
    /// server inside its idle window is running with no grant.
    pub fn is_running(&self, name: &str) -> (r: bool)
        ensures
            r == running_spec(self@, name@),
    {
        let n = self.grant_count(name);
        if n > 0 {
            return true;
        }
        let found = find_server(&self.shared, name);
        proof {
            lemma_find_key_found(servers_view(self.shared@), name@);
        }
        match found {
            Some(k) => {
                assert(self@.servers[k as int].1 == self.shared@[k as int].1);
                self.shared[k].1.running
            },
            None => false,
        }
    }
}

proof fn lemma_find_key_step<V>(s: Seq<(Seq<char>, V)>, key: Seq<char>, i: int)
    requires
        0 <= i < s.len(),
        find_key(s.take(i), key) is None,
    ensures
        find_key(s.take(i + 1), key) == (if s[i].0 == key {
            Some(i)
        } else {
            None::<int>
        }),
{
    assert(s.take(i + 1).drop_last() =~= s.take(i));
}

proof fn lemma_find_key_prefix<V>(s: Seq<(Seq<char>, V)>, key: Seq<char>, i: int, k: int)
    requires
        0 <= k < i <= s.len(),
        find_key(s.take(i), key) == Some(k),
    ensures
        find_key(s, key) == Some(k),
    decreases s.len() - i,
{
    if i < s.len() {
        assert(s.take(i + 1).drop_last() =~= s.take(i));
        lemma_find_key_prefix(s, key, i + 1, k);
    } else {
        assert(s.take(i) =~= s);
    }
}

proof fn lemma_find_key_found<V>(s: Seq<(Seq<char>, V)>, key: Seq<char>)
    ensures
        match find_key(s, key) {
            Some(k) => 0 <= k < s.len() && s[k].0 == key && forall|j: int| 0 <= j < k ==> (#[trigger] s[j]).0 != key,
            None => forall|j: int| 0 <= j < s.len() ==> (#[trigger] s[j]).0 != key,
        },
    decreases s.len(),
{
    if s.len() > 0 {
        lemma_find_key_found(s.drop_last(), key);
        match find_key(s.drop_last(), key) {
            Some(k) => {
                assert forall|j: int| 0 <= j < k implies (#[trigger] s[j]).0 != key by {
                    assert(s[j] == s.drop_last()[j]);
                }
            },
            None => {
                assert forall|j: int| 0 <= j < s.len() - 1 implies (#[trigger] s[j]).0 != key by {
                    assert(s[j] == s.drop_last()[j]);
                }
            },
        }
    }
}

/// The position of the first grant with id `id`.
fn find_grant(s: &Vec<(String, Grant)>, id: &str) -> (r: Option<usize>)
    ensures
        match r {
            Some(k) => find_key(grants_view(s@), id@) == Some(k as int),
            None => find_key(grants_view(s@), id@) is None,
        },
{
    let ghost v = grants_view(s@);
    let mut i: usize = 0;
    while i < s.len()
        invariant
            v == grants_view(s@),
            i <= s@.len(),
            find_key(v.take(i as int), id@) is None,
        decreases s@.len() - i,
    {
        proof {
            lemma_find_key_step(v, id@, i as int);
        }
        if crate::json::str_eq(s[i].0.as_str(), id) {
            proof {
                lemma_find_key_prefix(v, id@, i + 1, i as int);
            }
            return Some(i);
        }
        i = i + 1;
    }
    assert(v.take(s@.len() as int) =~= v);
    None
}

/// The position of shared server `name`.
fn find_server(s: &Vec<(String, SharedServer)>, name: &str) -> (r: Option<usize>)
    ensures
        match r {
            Some(k) => find_key(servers_view(s@), name@) == Some(k as int),
            None => find_key(servers_view(s@), name@) is None,
        },
{
    let ghost v = servers_view(s@);
    let mut i: usize = 0;
    while i < s.len()
        invariant
            v == servers_view(s@),
            i <= s@.len(),
            find_key(v.take(i as int), name@) is None,
        decreases s@.len() - i,
    {
        proof {
            lemma_find_key_step(v, name@, i as int);
        }
        if crate::json::str_eq(s[i].0.as_str(), name) {
            proof {
                lemma_find_key_prefix(v, name@, i + 1, i as int);
            }
            return Some(i);
        }
        i = i + 1;
    }
    assert(v.take(s@.len() as int) =~= v);
    None
}

// ---------------------------------------------------------------------------------------------
// Taking a grant
// ---------------------------------------------------------------------------------------------

/// A grant decided on, waiting for its server to be started by the caller.
#[derive(Debug)]
pub struct Activation {
    grant_id: String,
    process_id: u32,
    number: u64,
    name: String,
    connection: u64,
    client_pid: Option<u32>,
    kind: GrantKind,
    start: bool,
    transport: String,
    address: String,
}

pub struct ActivationV {
    pub grant_id: Seq<char>,
    /// The broker process and the counter value the id was made from.
    pub process_id: u32,
    pub number: u64,
    pub name: Seq<char>,
    pub connection: u64,
    pub client_pid: Option<u32>,
    pub kind: GrantKind,
    /// Whether a process has to be started: always for stdio, for a shared server only when
    /// it is not already running.
    pub start: bool,
    /// For a shared server, where it is reached (empty for stdio, whose relay the caller makes).
    pub transport: Seq<char>,
    pub address: Seq<char>,
}

impl Activation {
    pub closed spec fn view(&self) -> ActivationV {
        ActivationV {
            grant_id: self.grant_id@,
            process_id: self.process_id,
            number: self.number,
            name: self.name@,
            connection: self.connection,
            client_pid: self.client_pid,
            kind: self.kind,
            start: self.start,
            transport: self.transport@,
            address: self.address@,
        }
    }

    /// The id is the one its broker process and number make.
    #[verifier::type_invariant]
    spec fn id_matches(&self) -> bool {
        self.grant_id@ == grant_id_text(self.process_id, self.number)
    }

    pub fn grant_id(&self) -> (r: &str)
        ensures
            r@ == self@.grant_id,
    {
        self.grant_id.as_str()
    }

    pub fn name(&self) -> (r: &str)
        ensures
            r@ == self@.name,
    {
        self.name.as_str()
    }

    pub fn kind(&self) -> (r: GrantKind)
        ensures
            r == self@.kind,
    {
        self.kind
    }

    /// Whether the caller has to start a process before completing the grant.
    pub fn needs_start(&self) -> (r: bool)
        ensures
            r == self@.start,
    {
        self.start
    }
}

/// The id of the `n`th grant of broker process `pid`. Grant ids name relay pipes, so they must
/// not repeat across broker instances either.
pub open spec fn grant_id_text(pid: u32, n: u64) -> Seq<char> {
    "g"@ + crate::canonical::decimal(pid as nat) + "-"@ + crate::canonical::decimal(n as nat)
}

pub open spec fn state_label(s: ConsentState) -> Seq<char> {
    match s {
        ConsentState::Granted => "Granted"@,
        ConsentState::Denied => "Denied"@,
        ConsentState::NotAsked => "NotAsked"@,
        ConsentState::Stale => "Stale"@,
    }
}

pub(crate) fn state_label_str(s: ConsentState) -> (r: &'static str)
    ensures
        r@ == state_label(s),
{
    match s {
        ConsentState::Granted => "Granted",
        ConsentState::Denied => "Denied",
        ConsentState::NotAsked => "NotAsked",
        ConsentState::Stale => "Stale",
    }
}

/// How an endpoint type is named as a transport.
pub open spec fn endpoint_transport(t: EndpointType) -> Seq<char> {
    match t {
        EndpointType::Pipe => "pipe"@,
        EndpointType::UnixSocket => "unixsocket"@,
        EndpointType::StreamableHttp => "streamablehttp"@,
    }
}

fn endpoint_transport_str(t: EndpointType) -> (r: &'static str)
    ensures
        r@ == endpoint_transport(t),
{
    match t {
        EndpointType::Pipe => "pipe",
        EndpointType::UnixSocket => "unixsocket",
        EndpointType::StreamableHttp => "streamablehttp",
    }
}

/// The launch stanza of an entry's card.
pub open spec fn entry_launch(e: Entry) -> Option<crate::card::Launch> {
    match e.card.local {
        Some(l) => l.launch,
        None => None,
    }
}

/// The endpoint of an entry's card.
pub open spec fn entry_endpoint(e: Entry) -> Option<crate::card::Endpoint> {
    match e.card.local {
        Some(l) => l.endpoint,
        None => None,
    }
}

/// Shared server `name` after a grant arrived for it: registered if it was not, and with any
/// idle window cancelled.
pub open spec fn attach_spec(servers: Seq<(Seq<char>, SharedServer)>, name: Seq<char>) -> Seq<(Seq<char>, SharedServer)> {
    match find_key(servers, name) {
        Some(k) => servers.update(k, (name, SharedServer { running: servers[k].1.running, idle_pending: false })),
        None => servers.push((name, SharedServer { running: false, idle_pending: false })),
    }
}

/// Shared server `name` once its child is known to be running.
pub open spec fn started_spec(servers: Seq<(Seq<char>, SharedServer)>, name: Seq<char>) -> Seq<(Seq<char>, SharedServer)> {
    match find_key(servers, name) {
        Some(k) => servers.update(k, (name, SharedServer { running: true, idle_pending: false })),
        None => servers.push((name, SharedServer { running: true, idle_pending: false })),
    }
}

pub open spec fn was_running(servers: Seq<(Seq<char>, SharedServer)>, name: Seq<char>) -> bool {
    find_key(servers, name) matches Some(k) && servers[k].1.running
}

pub open spec fn was_idle(servers: Seq<(Seq<char>, SharedServer)>, name: Seq<char>) -> bool {
    find_key(servers, name) matches Some(k) && servers[k].1.idle_pending
}

proof fn lemma_count_push(g: Seq<(Seq<char>, GrantV)>, x: (Seq<char>, GrantV), name: Seq<char>)
    ensures
        count_named(g.push(x), name) == count_named(g, name) + if x.1.name == name {
            1nat
        } else {
            0nat
        },
        count_endpoint(g.push(x), name) == count_endpoint(g, name) + if x.1.name == name && x.1.kind
            == GrantKind::Endpoint {
            1nat
        } else {
            0nat
        },
        holders_spec(g.push(x), name) == if x.1.name == name {
            holders_spec(g, name).push(x.1.client_pid)
        } else {
            holders_spec(g, name)
        },
{
    assert(g.push(x).drop_last() =~= g);
}

proof fn lemma_find_key_same_keys<V>(s1: Seq<(Seq<char>, V)>, s2: Seq<(Seq<char>, V)>, key: Seq<char>)
    requires
        s1.len() == s2.len(),
        forall|i: int| 0 <= i < s1.len() ==> (#[trigger] s1[i]).0 == s2[i].0,
    ensures
        find_key(s1, key) == find_key(s2, key),
    decreases s1.len(),
{
    if s1.len() > 0 {
        assert forall|i: int| 0 <= i < s1.drop_last().len() implies (#[trigger] s1.drop_last()[i]).0 == s2.drop_last()[i].0 by {
            assert(s1.drop_last()[i] == s1[i]);
        }
        lemma_find_key_same_keys(s1.drop_last(), s2.drop_last(), key);
    }
}

proof fn lemma_find_key_push<V>(s: Seq<(Seq<char>, V)>, x: (Seq<char>, V), key: Seq<char>)
    ensures
        find_key(s.push(x), key) == match find_key(s, key) {
            Some(i) => Some(i),
            None => if x.0 == key {
                Some(s.len() as int)
            } else {
                None
            },
        },
{
    assert(s.push(x).drop_last() =~= s);
}

/// After `servers` changes only at names other than the grants' ones, or keeps running
/// servers running, every endpoint grant still shares a running server.
/// Ids of one broker process with different numbers differ.
proof fn lemma_grant_id_injective(pid: u32, a: u64, b: u64)
    requires
        grant_id_text(pid, a) == grant_id_text(pid, b),
    ensures
        a == b,
{
    let p = "g"@ + crate::canonical::decimal(pid as nat) + "-"@;
    let ta = grant_id_text(pid, a);
    let tb = grant_id_text(pid, b);
    assert(ta.subrange(p.len() as int, ta.len() as int) =~= crate::canonical::decimal(a as nat));
    assert(tb.subrange(p.len() as int, tb.len() as int) =~= crate::canonical::decimal(b as nat));
    crate::canonical::lemma_decimal_injective(a as nat, b as nat);
}

/// The id numbered by the counter is not held.
proof fn lemma_fresh_id(v: EngineV)
    requires
        ids_wf(v.grants, v.process_id, v.next_grant),
    ensures
        find_key(v.grants, grant_id_text(v.process_id, v.next_grant)) is None,
{
    let id = grant_id_text(v.process_id, v.next_grant);
    lemma_find_key_found(v.grants, id);
    if let Some(k) = find_key(v.grants, id) {
        assert(issued(v.process_id, v.next_grant, v.grants[k].0));
        let n = choose|n: u64| n < v.next_grant && v.grants[k].0 == grant_id_text(v.process_id, n);
        lemma_grant_id_injective(v.process_id, n, v.next_grant);
    }
}

/// Moving the counter on keeps every held id issued.
proof fn lemma_ids_bump(v: EngineV)
    requires
        ids_wf(v.grants, v.process_id, v.next_grant),
        v.next_grant < u64::MAX,
    ensures
        ids_wf(v.grants, v.process_id, (v.next_grant + 1) as u64),
{
    let w = EngineV { next_grant: (v.next_grant + 1) as u64, ..v };
    assert forall|i: int| 0 <= i < w.grants.len() implies issued(w.process_id, w.next_grant, (#[trigger] w.grants[i]).0) by {
        assert(issued(v.process_id, v.next_grant, v.grants[i].0));
        let n = choose|n: u64| n < v.next_grant && v.grants[i].0 == grant_id_text(v.process_id, n);
        assert(n < w.next_grant && w.grants[i].0 == grant_id_text(w.process_id, n));
    }
}

/// Adding a grant under an issued id that is not held keeps ids distinct and issued.
proof fn lemma_ids_push(v: EngineV, id: Seq<char>, g: GrantV)
    requires
        ids_wf(v.grants, v.process_id, v.next_grant),
        issued(v.process_id, v.next_grant, id),
        find_key(v.grants, id) is None,
    ensures
        ids_wf(v.grants.push((id, g)), v.process_id, v.next_grant),
{
    let w = EngineV { grants: v.grants.push((id, g)), ..v };
    lemma_find_key_found(v.grants, id);
    assert forall|i: int, j: int| 0 <= i < j < w.grants.len() implies (#[trigger] w.grants[i]).0 != (
    #[trigger] w.grants[j]).0 by {
        assert(w.grants[i] == v.grants[i]);
        if j < v.grants.len() {
            assert(w.grants[j] == v.grants[j]);
        }
    }
    assert forall|i: int| 0 <= i < w.grants.len() implies issued(w.process_id, w.next_grant, (#[trigger] w.grants[i]).0) by {
        if i < v.grants.len() {
            assert(w.grants[i] == v.grants[i]);
            assert(issued(v.process_id, v.next_grant, v.grants[i].0));
        }
    }
}

/// Taking a grant out keeps ids distinct and issued.
proof fn lemma_ids_remove(v: EngineV, k: int, w: EngineV)
    requires
        ids_wf(v.grants, v.process_id, v.next_grant),
        0 <= k < v.grants.len(),
        w.grants == v.grants.remove(k),
        w.next_grant == v.next_grant,
        w.process_id == v.process_id,
    ensures
        ids_wf(w.grants, w.process_id, w.next_grant),
{
    assert forall|i: int, j: int| 0 <= i < j < w.grants.len() implies (#[trigger] w.grants[i]).0 != (
    #[trigger] w.grants[j]).0 by {
        let si = if i < k { i } else { i + 1 };
        let sj = if j < k { j } else { j + 1 };
        assert(w.grants[i] == v.grants[si]);
        assert(w.grants[j] == v.grants[sj]);
    }
    assert forall|i: int| 0 <= i < w.grants.len() implies issued(w.process_id, w.next_grant, (#[trigger] w.grants[i]).0) by {
        let si = if i < k { i } else { i + 1 };
        assert(w.grants[i] == v.grants[si]);
        assert(issued(v.process_id, v.next_grant, v.grants[si].0));
    }
}

proof fn lemma_update_server_keeps_wf(v: EngineV, servers2: Seq<(Seq<char>, SharedServer)>, k: int, name: Seq<char>, s: SharedServer)
    requires
        engine_wf(v),
        0 <= k < v.servers.len(),
        v.servers[k].0 == name,
        servers2 == v.servers.update(k, (name, s)),
        v.servers[k].1.running ==> s.running,
        s.idle_pending ==> count_endpoint(v.grants, name) == 0,
    ensures
        engine_wf(EngineV { servers: servers2, ..v }),
{
    lemma_find_key_same_keys(v.servers, servers2, name);
    assert forall|n: Seq<char>| find_key(v.servers, n) == find_key(servers2, n) by {
        lemma_find_key_same_keys(v.servers, servers2, n);
    }
    let w = EngineV { servers: servers2, ..v };
    assert forall|i: int, j: int| 0 <= i < j < w.servers.len() implies (#[trigger] w.servers[i]).0 != (
    #[trigger] w.servers[j]).0 by {
        assert(w.servers[i].0 == v.servers[i].0);
        assert(w.servers[j].0 == v.servers[j].0);
    }
    assert forall|i: int| 0 <= i < w.grants.len() && (#[trigger] w.grants[i]).1.kind == GrantKind::Endpoint implies (find_key(
        w.servers,
        w.grants[i].1.name,
    ) matches Some(kk) && w.servers[kk].1.running) by {
        lemma_find_key_found(v.servers, v.grants[i].1.name);
        let kk = find_key(v.servers, v.grants[i].1.name).unwrap();
        assert(v.servers[kk].1.running);
        assert(find_key(w.servers, w.grants[i].1.name) == Some(kk));
        if kk != k {
            assert(w.servers[kk] == v.servers[kk]);
        }
    }
}

impl Engine {
    /// Register shared server `name` if needed and cancel its idle window. Returns whether its
    /// child was already running.
    fn attach(&mut self, name: &str) -> (r: bool)
        requires
            old(self).wf(),
        ensures
            final(self).wf(),
            r == was_running(old(self)@.servers, name@),
            final(self)@ == (EngineV {
                servers: attach_spec(old(self)@.servers, name@),
                effects: if was_idle(old(self)@.servers, name@) {
                    old(self)@.effects.push(EffectV::CancelIdle(name@))
                } else {
                    old(self)@.effects
                },
                ..old(self)@
            }),
            final(self)@.consent == old(self)@.consent,
            final(self)@.audit == old(self)@.audit,
    {
        let ghost v = self@;
        let found = find_server(&self.shared, name);
        proof {
            lemma_find_key_found(v.servers, name@);
        }
        match found {
            Some(k) => {
                let current = self.shared[k].1;
                if current.idle_pending {
                    self.effects.push(Effect::CancelIdle { name: owned(name) });
                    assert(self@.effects =~= v.effects.push(EffectV::CancelIdle(name@)));
                }
                let key = self.shared[k].0.clone();
                let ghost before = self.shared@;
                self.shared.set(k, (key, SharedServer { running: current.running, idle_pending: false }));
                proof {
                    assert(servers_view(self.shared@) =~= v.servers.update(
                        k as int,
                        (name@, SharedServer { running: current.running, idle_pending: false }),
                    ));
                    lemma_update_server_keeps_wf(v, servers_view(self.shared@), k as int, name@, SharedServer { running: current.running, idle_pending: false });
                }
                current.running
            },
            None => {
                let ghost before = self.shared@;
                self.shared.push((owned(name), SharedServer { running: false, idle_pending: false }));
                proof {
                    let w = self@;
                    assert(w.servers =~= v.servers.push((name@, SharedServer { running: false, idle_pending: false })));
                    assert forall|n: Seq<char>| n != name@ implies find_key(w.servers, n) == find_key(v.servers, n) by {
                        lemma_find_key_push(v.servers, (name@, SharedServer { running: false, idle_pending: false }), n);
                    }
                    assert forall|i: int, j: int| 0 <= i < j < w.servers.len() implies (#[trigger] w.servers[i]).0 != (
                    #[trigger] w.servers[j]).0 by {
                        if j == v.servers.len() {
                            assert(w.servers[i] == v.servers[i]);
                        } else {
                            assert(w.servers[i] == v.servers[i] && w.servers[j] == v.servers[j]);
                        }
                    }
                    assert forall|i: int| 0 <= i < w.grants.len() && (#[trigger] w.grants[i]).1.kind == GrantKind::Endpoint implies (find_key(
                        w.servers,
                        w.grants[i].1.name,
                    ) matches Some(kk) && w.servers[kk].1.running) by {
                        lemma_find_key_found(v.servers, v.grants[i].1.name);
                        let kk = find_key(v.servers, v.grants[i].1.name).unwrap();
                        assert(v.grants[i].1.name != name@);
                        assert(w.servers[kk] == v.servers[kk]);
                    }
                    assert forall|i: int| 0 <= i < w.servers.len() && (#[trigger] w.servers[i]).1.idle_pending implies count_endpoint(
                        w.grants,
                        w.servers[i].0,
                    ) == 0 by {
                        assert(w.servers[i] == v.servers[i]);
                    }
                }
                false
            },
        }
    }

    /// Decide on a grant of `entry` for `connection`. Refused, with the state unchanged, for an
    /// orphaned card, for one without consent (which is audited), for one with nothing to
    /// launch, and once the grant counter has run out. Otherwise a fresh grant id is taken (one
    /// that no held grant carries), a shared server is registered with its idle window
    /// cancelled, and the caller is told what to start before completing the grant.
    ///
    /// Consent is checked against the card's launch hash, so a card edited since its approval
    /// reads as stale and is refused rather than quietly launched.
    pub fn activate(&mut self, entry: &Entry, connection: u64, client_pid: Option<u32>) -> (r: Result<
        Activation,
        ActivateError,
    >)
        requires
            old(self).wf(),
        ensures
            final(self).wf(),
            final(self)@.consent == old(self)@.consent,
            final(self)@.audit == old(self)@.audit,
            r is Ok ==> find_key(old(self)@.grants, r->Ok_0@.grant_id) is None,
            ({
                let v = old(self)@;
                let rec = consent_for(old(self)@.consent, entry.name@, entry.launch_hash@);
                let id = grant_id_text(v.process_id, v.next_grant);
                if entry.orphaned {
                    &&& r matches Err(ActivateError::Orphaned(n)) && n@ == entry.name@
                    &&& final(self)@ == v
                } else if rec.state != ConsentState::Granted {
                    &&& r matches Err(ActivateError::ConsentRequired { name, state }) && name@ == entry.name@
                        && state == rec.state
                    &&& final(self)@ == (EngineV {
                        effects: v.effects.push(
                            EffectV::Audit("activate-refused"@, entry.name@, client_pid, state_label(rec.state)),
                        ),
                        ..v
                    })
                } else if entry_launch(*entry) is None {
                    &&& r matches Err(ActivateError::NotActivatable(n)) && n@ == entry.name@
                    &&& final(self)@ == v
                } else if v.next_grant == u64::MAX {
                    &&& r matches Err(ActivateError::Io(m)) && m@ == "grant ids are exhausted"@
                    &&& final(self)@ == v
                } else if entry_launch(*entry).unwrap().launch_type == LaunchType::Stdio {
                    &&& r matches Ok(a) && a@ == (ActivationV {
                        grant_id: id,
                        process_id: v.process_id,
                        number: v.next_grant,
                        name: entry.name@,
                        connection,
                        client_pid,
                        kind: GrantKind::Stdio,
                        start: true,
                        transport: Seq::empty(),
                        address: Seq::empty(),
                    })
                    &&& final(self)@ == (EngineV { next_grant: (v.next_grant + 1) as u64, ..v })
                } else if entry_endpoint(*entry) is None {
                    &&& r matches Err(ActivateError::NotActivatable(n)) && n@ == entry.name@
                    &&& final(self)@ == (EngineV { next_grant: (v.next_grant + 1) as u64, ..v })
                } else {
                    let ep = entry_endpoint(*entry).unwrap();
                    &&& r matches Ok(a) && a@ == (ActivationV {
                        grant_id: id,
                        process_id: v.process_id,
                        number: v.next_grant,
                        name: entry.name@,
                        connection,
                        client_pid,
                        kind: GrantKind::Endpoint,
                        start: !was_running(v.servers, entry.name@),
                        transport: endpoint_transport(ep.endpoint_type),
                        address: ep.address@,
                    })
                    &&& final(self)@ == (EngineV {
                        next_grant: (v.next_grant + 1) as u64,
                        servers: attach_spec(v.servers, entry.name@),
                        effects: if was_idle(v.servers, entry.name@) {
                            v.effects.push(EffectV::CancelIdle(entry.name@))
                        } else {
                            v.effects
                        },
                        ..v
                    })
                }
            }),
    {
        if entry.orphaned {
            return Err(ActivateError::Orphaned(entry.name.clone()));
        }
        let consent = self.consent.evaluate(entry.name.as_str(), entry.launch_hash.as_str());
        if consent.state != ConsentState::Granted {
            let ghost v = self@;
            self.effects.push(
                Effect::Audit {
                    event: owned("activate-refused"),
                    server: entry.name.clone(),
                    client_pid,
                    detail: owned(state_label_str(consent.state)),
                },
            );
            proof {
                reveal_strlit("activate-refused");
                assert(self@.effects =~= v.effects.push(
                    EffectV::Audit("activate-refused"@, entry.name@, client_pid, state_label(consent.state)),
                ));
            }
            return Err(ActivateError::ConsentRequired { name: entry.name.clone(), state: consent.state });
        }
        let launch = match &entry.card.local {
            Some(l) => match &l.launch {
                Some(x) => x,
                None => {
                    return Err(ActivateError::NotActivatable(entry.name.clone()));
                },
            },
            None => {
                return Err(ActivateError::NotActivatable(entry.name.clone()));
            },
        };
        if self.next_grant == u64::MAX {
            proof {
                reveal_strlit("grant ids are exhausted");
            }
            return Err(ActivateError::Io(owned("grant ids are exhausted")));
        }
        let ghost v0 = self@;
        let number = self.next_grant;
        let process_id = self.process_id;
        let grant_id = grant_id_string(process_id, number);
        proof {
            lemma_fresh_id(v0);
        }
        self.next_grant = number + 1;
        proof {
            lemma_ids_bump(v0);
        }
        match launch.launch_type {
            LaunchType::Stdio => Ok(
                Activation {
                    grant_id,
                    process_id,
                    number,
                    name: entry.name.clone(),
                    connection,
                    client_pid,
                    kind: GrantKind::Stdio,
                    start: true,
                    transport: String::new(),
                    address: String::new(),
                },
            ),
            LaunchType::Executable => {
                let endpoint = match &entry.card.local {
                    Some(l) => match &l.endpoint {
                        Some(e) => e,
                        None => {
                            return Err(ActivateError::NotActivatable(entry.name.clone()));
                        },
                    },
                    None => {
                        return Err(ActivateError::NotActivatable(entry.name.clone()));
                    },
                };
                let running = self.attach(entry.name.as_str());
                Ok(
                    Activation {
                        grant_id,
                        process_id,
                        number,
                        name: entry.name.clone(),
                        connection,
                        client_pid,
                        kind: GrantKind::Endpoint,
                        start: !running,
                        transport: owned(endpoint_transport_str(endpoint.endpoint_type)),
                        address: endpoint.address.clone(),
                    },
                )
            },
        }
    }
}

proof fn lemma_stdio_grant_wf(v: EngineV, id: Seq<char>, g: GrantV)
    requires
        engine_wf(v),
        g.kind == GrantKind::Stdio,
        issued(v.process_id, v.next_grant, id),
        find_key(v.grants, id) is None,
    ensures
        engine_wf(EngineV { grants: v.grants.push((id, g)), ..v }),
{
    lemma_ids_push(v, id, g);
    let w = EngineV { grants: v.grants.push((id, g)), ..v };
    assert forall|n: Seq<char>| count_endpoint(w.grants, n) == count_endpoint(v.grants, n) by {
        lemma_count_push(v.grants, (id, g), n);
    }
    assert forall|i: int| 0 <= i < w.grants.len() && (#[trigger] w.grants[i]).1.kind == GrantKind::Endpoint implies (find_key(
        w.servers,
        w.grants[i].1.name,
    ) matches Some(kk) && w.servers[kk].1.running) by {
        assert(i < v.grants.len());
        assert(w.grants[i] == v.grants[i]);
    }
    assert forall|i: int| 0 <= i < w.servers.len() && (#[trigger] w.servers[i]).1.idle_pending implies count_endpoint(
        w.grants,
        w.servers[i].0,
    ) == 0 by {
        assert(count_endpoint(w.grants, w.servers[i].0) == count_endpoint(v.grants, v.servers[i].0));
    }
}

proof fn lemma_endpoint_grant_wf(v: EngineV, id: Seq<char>, g: GrantV)
    requires
        engine_wf(v),
        g.kind == GrantKind::Endpoint,
        issued(v.process_id, v.next_grant, id),
        find_key(v.grants, id) is None,
    ensures
        engine_wf(EngineV { grants: v.grants.push((id, g)), servers: started_spec(v.servers, g.name), ..v }),
{
    lemma_ids_push(v, id, g);
    let name = g.name;
    let w = EngineV { grants: v.grants.push((id, g)), servers: started_spec(v.servers, g.name), ..v };
    let up = SharedServer { running: true, idle_pending: false };
    lemma_find_key_found(v.servers, name);
    assert forall|n: Seq<char>| n != name implies count_endpoint(w.grants, n) == count_endpoint(v.grants, n) by {
        lemma_count_push(v.grants, (id, g), n);
    }
    match find_key(v.servers, name) {
        Some(k) => {
            assert forall|n: Seq<char>| find_key(v.servers, n) == find_key(w.servers, n) by {
                lemma_find_key_same_keys(v.servers, w.servers, n);
            }
            assert forall|i: int, j: int| 0 <= i < j < w.servers.len() implies (#[trigger] w.servers[i]).0 != (
            #[trigger] w.servers[j]).0 by {
                assert(w.servers[i].0 == v.servers[i].0);
                assert(w.servers[j].0 == v.servers[j].0);
            }
            assert forall|i: int| 0 <= i < w.servers.len() && (#[trigger] w.servers[i]).1.idle_pending implies count_endpoint(
                w.grants,
                w.servers[i].0,
            ) == 0 by {
                assert(i != k);
                assert(w.servers[i] == v.servers[i]);
            }
            assert forall|i: int| 0 <= i < w.grants.len() && (#[trigger] w.grants[i]).1.kind == GrantKind::Endpoint implies (find_key(
                w.servers,
                w.grants[i].1.name,
            ) matches Some(kk) && w.servers[kk].1.running) by {
                if i < v.grants.len() {
                    assert(w.grants[i] == v.grants[i]);
                    lemma_find_key_found(v.servers, v.grants[i].1.name);
                    let kk = find_key(v.servers, v.grants[i].1.name).unwrap();
                    if kk != k {
                        assert(w.servers[kk] == v.servers[kk]);
                    }
                } else {
                    assert(w.grants[i] == (id, g));
                }
            }
        },
        None => {
            assert forall|n: Seq<char>| n != name implies find_key(w.servers, n) == find_key(v.servers, n) by {
                lemma_find_key_push(v.servers, (name, up), n);
            }
            lemma_find_key_push(v.servers, (name, up), name);
            assert forall|i: int, j: int| 0 <= i < j < w.servers.len() implies (#[trigger] w.servers[i]).0 != (
            #[trigger] w.servers[j]).0 by {
                if j == v.servers.len() {
                    assert(w.servers[i] == v.servers[i]);
                } else {
                    assert(w.servers[i] == v.servers[i] && w.servers[j] == v.servers[j]);
                }
            }
            assert forall|i: int| 0 <= i < w.servers.len() && (#[trigger] w.servers[i]).1.idle_pending implies count_endpoint(
                w.grants,
                w.servers[i].0,
            ) == 0 by {
                assert(i < v.servers.len());
                assert(w.servers[i] == v.servers[i]);
                assert(v.servers[i].0 != name);
            }
            assert forall|i: int| 0 <= i < w.grants.len() && (#[trigger] w.grants[i]).1.kind == GrantKind::Endpoint implies (find_key(
                w.servers,
                w.grants[i].1.name,
            ) matches Some(kk) && w.servers[kk].1.running) by {
                if i < v.grants.len() {
                    assert(w.grants[i] == v.grants[i]);
                    lemma_find_key_found(v.servers, v.grants[i].1.name);
                    let kk = find_key(v.servers, v.grants[i].1.name).unwrap();
                    assert(v.grants[i].1.name != name);
                    assert(w.servers[kk] == v.servers[kk]);
                } else {
                    assert(w.grants[i] == (id, g));
                }
            }
        },
    }
}

/// Whether a pending activation can still be completed on this engine: it was decided here
/// (same broker process, a number the counter has passed) and its id is not held already.
pub open spec fn completable(v: EngineV, a: ActivationV) -> bool {
    a.process_id == v.process_id && a.number < v.next_grant && find_key(v.grants, a.grant_id) is None
}

/// The refusal of an activation that cannot be completed.
pub open spec fn not_pending_message(id: Seq<char>) -> Seq<char> {
    "grant "@ + id + " is not awaiting completion"@
}

impl Engine {
    /// Set shared server `name` running, registering it if needed.
    fn mark_started(&mut self, name: &str)
        ensures
            final(self)@ == (EngineV { servers: started_spec(old(self)@.servers, name@), ..old(self)@ }),
            final(self)@.consent == old(self)@.consent,
            final(self)@.audit == old(self)@.audit,
    {
        let ghost v = self@;
        let found = find_server(&self.shared, name);
        proof {
            lemma_find_key_found(v.servers, name@);
        }
        let up = SharedServer { running: true, idle_pending: false };
        match found {
            Some(k) => {
                let key = self.shared[k].0.clone();
                self.shared.set(k, (key, up));
                assert(servers_view(self.shared@) =~= v.servers.update(k as int, (name@, up)));
            },
            None => {
                self.shared.push((owned(name), up));
                assert(servers_view(self.shared@) =~= v.servers.push((name@, up)));
            },
        }
    }

    fn can_complete(&self, pending: &Activation) -> (r: bool)
        ensures
            r == completable(self@, pending@),
    {
        pending.process_id == self.process_id && pending.number < self.next_grant && find_grant(
            &self.grants,
            pending.grant_id.as_str(),
        ).is_none()
    }

    fn record_grant(&mut self, pending: Activation)
        ensures
            final(self)@ == (EngineV {
                grants: old(self)@.grants.push(
                    (
                        pending@.grant_id,
                        GrantV {
                            name: pending@.name,
                            connection: pending@.connection,
                            client_pid: pending@.client_pid,
                            kind: pending@.kind,
                        },
                    ),
                ),
                effects: old(self)@.effects.push(
                    EffectV::Audit("activate"@, pending@.name, pending@.client_pid, pending@.grant_id),
                ),
                ..old(self)@
            }),
            final(self)@.consent == old(self)@.consent,
            final(self)@.audit == old(self)@.audit,
    {
        let ghost v = self@;
        let ghost pv = pending@;
        let Activation { grant_id, process_id: _, number: _, name, connection, client_pid, kind, start: _, transport: _, address: _ } = pending;
        self.effects.push(
            Effect::Audit { event: owned("activate"), server: name.clone(), client_pid, detail: grant_id.clone() },
        );
        self.grants.push((grant_id, Grant { name, connection, client_pid, kind }));
        proof {
            reveal_strlit("activate");
            assert(self@.effects =~= v.effects.push(EffectV::Audit("activate"@, pv.name, pv.client_pid, pv.grant_id)));
            assert(self@.grants =~= v.grants.push(
                (pv.grant_id, GrantV { name: pv.name, connection: pv.connection, client_pid: pv.client_pid, kind: pv.kind }),
            ));
        }
    }

    /// Complete a stdio grant once the caller started its child and relay listener (`relay`
    /// says where the client connects), or report why that failed.
    pub fn complete_stdio(&mut self, pending: Activation, relay: Result<ConnectionInfo, String>) -> (r: Result<
        ActivateResult,
        ActivateError,
    >)
        requires
            old(self).wf(),
            pending@.kind == GrantKind::Stdio,
        ensures
            final(self).wf(),
            final(self)@.consent == old(self)@.consent,
            final(self)@.audit == old(self)@.audit,
            !completable(old(self)@, pending@) ==> (r matches Err(ActivateError::Io(m)) && m@ == not_pending_message(
                pending@.grant_id,
            ) && final(self)@ == old(self)@),
            completable(old(self)@, pending@) ==> match relay {
                Err(m) => r matches Err(ActivateError::Io(x)) && x@ == m@ && final(self)@ == old(self)@,
                Ok(c) => {
                    &&& r matches Ok(res) && res.grant_id@ == pending@.grant_id && res.connection.transport@
                        == c.transport@ && res.connection.address@ == c.address@
                    &&& final(self)@ == (EngineV {
                        grants: old(self)@.grants.push(
                            (
                                pending@.grant_id,
                                GrantV {
                                    name: pending@.name,
                                    connection: pending@.connection,
                                    client_pid: pending@.client_pid,
                                    kind: GrantKind::Stdio,
                                },
                            ),
                        ),
                        effects: old(self)@.effects.push(
                            EffectV::Audit("activate"@, pending@.name, pending@.client_pid, pending@.grant_id),
                        ),
                        ..old(self)@
                    })
                },
            },
    {
        if !self.can_complete(&pending) {
            return Err(ActivateError::Io(not_pending(pending.grant_id.as_str())));
        }
        proof {
            use_type_invariant(&pending);
        }
        match relay {
            Err(m) => Err(ActivateError::Io(m)),
            Ok(connection) => {
                let ghost v = self@;
                let ghost pv = pending@;
                let grant_id = pending.grant_id.clone();
                self.record_grant(pending);
                proof {
                    assert(pv.number < v.next_grant && pv.grant_id == grant_id_text(v.process_id, pv.number));
                    lemma_stdio_grant_wf(
                        v,
                        pv.grant_id,
                        GrantV { name: pv.name, connection: pv.connection, client_pid: pv.client_pid, kind: pv.kind },
                    );
                }
                Ok(ActivateResult { grant_id, connection })
            },
        }
    }

    /// Complete a shared-server grant once the caller started its child (when it had to), or
    /// report why starting it failed.
    pub fn complete_shared(&mut self, pending: Activation, started: Result<(), String>) -> (r: Result<
        ActivateResult,
        ActivateError,
    >)
        requires
            old(self).wf(),
            pending@.kind == GrantKind::Endpoint,
        ensures
            final(self).wf(),
            final(self)@.consent == old(self)@.consent,
            final(self)@.audit == old(self)@.audit,
            !completable(old(self)@, pending@) ==> (r matches Err(ActivateError::Io(m)) && m@ == not_pending_message(
                pending@.grant_id,
            ) && final(self)@ == old(self)@),
            completable(old(self)@, pending@) ==> match started {
                Err(m) => r matches Err(ActivateError::Io(x)) && x@ == m@ && final(self)@ == old(self)@,
                Ok(_) => {
                    &&& r matches Ok(res) && res.grant_id@ == pending@.grant_id && res.connection.transport@
                        == pending@.transport && res.connection.address@ == pending@.address
                    &&& final(self)@ == (EngineV {
                        grants: old(self)@.grants.push(
                            (
                                pending@.grant_id,
                                GrantV {
                                    name: pending@.name,
                                    connection: pending@.connection,
                                    client_pid: pending@.client_pid,
                                    kind: GrantKind::Endpoint,
                                },
                            ),
                        ),
                        servers: started_spec(old(self)@.servers, pending@.name),
                        effects: old(self)@.effects.push(
                            EffectV::Audit("activate"@, pending@.name, pending@.client_pid, pending@.grant_id),
                        ),
                        ..old(self)@
                    })
                },
            },
    {
        if !self.can_complete(&pending) {
            return Err(ActivateError::Io(not_pending(pending.grant_id.as_str())));
        }
        proof {
            use_type_invariant(&pending);
        }
        match started {
            Err(m) => Err(ActivateError::Io(m)),
            Ok(_) => {
                let ghost v = self@;
                let ghost pv = pending@;
                let grant_id = pending.grant_id.clone();
                let connection = ConnectionInfo { transport: pending.transport.clone(), address: pending.address.clone() };
                self.mark_started(pending.name.as_str());
                self.record_grant(pending);
                proof {
                    assert(pv.number < v.next_grant && pv.grant_id == grant_id_text(v.process_id, pv.number));
                    lemma_endpoint_grant_wf(
                        v,
                        pv.grant_id,
                        GrantV { name: pv.name, connection: pv.connection, client_pid: pv.client_pid, kind: pv.kind },
                    );
                }
                Ok(ActivateResult { grant_id, connection })
            },
        }
    }
}

// ---------------------------------------------------------------------------------------------
// Releasing grants
// ---------------------------------------------------------------------------------------------

/// Shared server `name` with its idle window started.
pub open spec fn idle_spec(servers: Seq<(Seq<char>, SharedServer)>, name: Seq<char>) -> Seq<(Seq<char>, SharedServer)> {
    match find_key(servers, name) {
        Some(j) => servers.update(j, (name, SharedServer { running: servers[j].1.running, idle_pending: true })),
        None => servers,
    }
}

/// The servers and effects after grant `id` (`g`) was taken out of `grants`, which no longer
/// holds it: the release is audited; a stdio grant's child is stopped, since nothing else can
/// use it; a shared server left with no grant starts its idle window rather than stopping, so
/// a client coming back within the window reuses the running server.
pub open spec fn retire_spec(
    grants: Seq<(Seq<char>, GrantV)>,
    servers: Seq<(Seq<char>, SharedServer)>,
    effects: Seq<EffectV>,
    id: Seq<char>,
    g: GrantV,
) -> (Seq<(Seq<char>, SharedServer)>, Seq<EffectV>) {
    let audited = effects.push(EffectV::Audit("release"@, g.name, g.client_pid, id));
    match g.kind {
        GrantKind::Stdio => (servers, audited.push(EffectV::StopStdio(id))),
        GrantKind::Endpoint => if count_endpoint(grants, g.name) > 0 || find_key(servers, g.name) is None {
            (servers, audited)
        } else {
            (idle_spec(servers, g.name), audited.push(EffectV::ArmIdle(g.name, DEFAULT_IDLE_TIMEOUT_SECS)))
        },
    }
}

/// The engine without its grant at position `k`, retired.
pub open spec fn remove_grant(v: EngineV, k: int) -> EngineV {
    let grants = v.grants.remove(k);
    let after = retire_spec(grants, v.servers, v.effects, v.grants[k].0, v.grants[k].1);
    EngineV { grants, servers: after.0, effects: after.1, ..v }
}

/// Releasing grant `id`: the first grant with that id is removed and retired. Returns whether
/// there was one.
pub open spec fn release_spec(v: EngineV, id: Seq<char>) -> (EngineV, bool) {
    match find_key(v.grants, id) {
        Some(k) => (remove_grant(v, k), true),
        None => (v, false),
    }
}

proof fn lemma_count_remove(g: Seq<(Seq<char>, GrantV)>, k: int, name: Seq<char>)
    requires
        0 <= k < g.len(),
    ensures
        count_endpoint(g.remove(k), name) + (if g[k].1.name == name && g[k].1.kind == GrantKind::Endpoint {
            1nat
        } else {
            0nat
        }) == count_endpoint(g, name),
        count_named(g.remove(k), name) + (if g[k].1.name == name {
            1nat
        } else {
            0nat
        }) == count_named(g, name),
    decreases g.len(),
{
    if k == g.len() - 1 {
        assert(g.remove(k) =~= g.drop_last());
    } else {
        let t = g.drop_last();
        lemma_count_remove(t, k, name);
        assert(g.remove(k) =~= t.remove(k).push(g.last()));
        assert(g.remove(k).drop_last() =~= t.remove(k));
        assert(t[k] == g[k]);
    }
}

proof fn lemma_remove_grant_wf(v: EngineV, k: int)
    requires
        engine_wf(v),
        0 <= k < v.grants.len(),
    ensures
        engine_wf(remove_grant(v, k)),
{
    let g = v.grants[k].1;
    let grants = v.grants.remove(k);
    let w = remove_grant(v, k);
    lemma_ids_remove(v, k, w);
    assert forall|n: Seq<char>| count_endpoint(grants, n) <= count_endpoint(v.grants, n) by {
        lemma_count_remove(v.grants, k, n);
    }
    assert forall|n: Seq<char>| find_key(w.servers, n) == find_key(v.servers, n) by {
        lemma_find_key_found(v.servers, g.name);
        if find_key(v.servers, g.name) is Some {
            lemma_find_key_same_keys(v.servers, idle_spec(v.servers, g.name), n);
        }
    }
    lemma_find_key_found(v.servers, g.name);
    assert(w.servers.len() == v.servers.len());
    assert forall|i: int| 0 <= i < w.servers.len() implies (#[trigger] w.servers[i]).0 == v.servers[i].0 && w.servers[i].1.running
        == v.servers[i].1.running && (w.servers[i].1.idle_pending ==> v.servers[i].1.idle_pending || (w.servers[i].0
        == g.name && count_endpoint(grants, g.name) == 0)) by {}
    assert forall|i: int, j: int| 0 <= i < j < w.servers.len() implies (#[trigger] w.servers[i]).0 != (
    #[trigger] w.servers[j]).0 by {
        assert(w.servers[i].0 == v.servers[i].0);
        assert(w.servers[j].0 == v.servers[j].0);
    }
    assert forall|i: int| 0 <= i < w.servers.len() && (#[trigger] w.servers[i]).1.idle_pending implies count_endpoint(
        w.grants,
        w.servers[i].0,
    ) == 0 by {
        assert(count_endpoint(grants, v.servers[i].0) <= count_endpoint(v.grants, v.servers[i].0));
    }
    assert forall|i: int| 0 <= i < w.grants.len() && (#[trigger] w.grants[i]).1.kind == GrantKind::Endpoint implies (find_key(
        w.servers,
        w.grants[i].1.name,
    ) matches Some(kk) && w.servers[kk].1.running) by {
        let src = if i < k { i } else { i + 1 };
        assert(w.grants[i] == v.grants[src]);
        lemma_find_key_found(v.servers, v.grants[src].1.name);
        let kk = find_key(v.servers, v.grants[src].1.name).unwrap();
        assert(w.servers[kk].1.running == v.servers[kk].1.running);
    }
}

impl Engine {
    /// How many endpoint grants share server `name`.
    fn endpoint_count(&self, name: &str) -> (r: usize)
        ensures
            r == count_endpoint(self@.grants, name@),
    {
        let ghost g = self@.grants;
        let mut n: usize = 0;
        let mut i: usize = 0;
        while i < self.grants.len()
            invariant
                g == self@.grants,
                i <= self.grants@.len(),
                n == count_endpoint(g.take(i as int), name@),
                n <= i,
            decreases self.grants@.len() - i,
        {
            assert(g.take(i + 1).drop_last() =~= g.take(i as int));
            assert(g[i as int].1 == self.grants@[i as int].1@);
            if self.grants[i].1.kind == GrantKind::Endpoint && crate::json::str_eq(self.grants[i].1.name.as_str(), name) {
                n = n + 1;
            }
            i = i + 1;
        }
        assert(g.take(self.grants@.len() as int) =~= g);
        n
    }

    /// Take out the grant at position `k` and retire it.
    fn remove_grant_at(&mut self, k: usize)
        requires
            old(self).wf(),
            k < old(self)@.grants.len(),
        ensures
            final(self)@ == remove_grant(old(self)@, k as int),
            final(self).wf(),
            final(self)@.consent == old(self)@.consent,
            final(self)@.audit == old(self)@.audit,
    {
        let ghost v = self@;
        proof {
            lemma_remove_grant_wf(v, k as int);
        }
        let (id, grant) = self.grants.remove(k);
        assert(self@.grants =~= v.grants.remove(k as int));
        assert(id@ == v.grants[k as int].0 && grant@ == v.grants[k as int].1);
        self.effects.push(
            Effect::Audit { event: owned("release"), server: grant.name.clone(), client_pid: grant.client_pid, detail: id.clone() },
        );
        proof {
            reveal_strlit("release");
        }
        let ghost audited = v.effects.push(EffectV::Audit("release"@, grant.name@, grant.client_pid, id@));
        assert(self@.effects =~= audited);
        match grant.kind {
            GrantKind::Stdio => {
                self.effects.push(Effect::StopStdio { grant_id: id });
                assert(self@.effects =~= audited.push(EffectV::StopStdio(v.grants[k as int].0)));
            },
            GrantKind::Endpoint => {
                let left = self.endpoint_count(grant.name.as_str());
                let found = find_server(&self.shared, grant.name.as_str());
                proof {
                    lemma_find_key_found(v.servers, grant.name@);
                }
                if left == 0 {
                    if let Some(j) = found {
                        let current = self.shared[j].1;
                        let key = self.shared[j].0.clone();
                        self.shared.set(j, (key, SharedServer { running: current.running, idle_pending: true }));
                        assert(servers_view(self.shared@) =~= idle_spec(v.servers, grant.name@));
                        self.effects.push(Effect::ArmIdle { name: grant.name, seconds: DEFAULT_IDLE_TIMEOUT_SECS });
                        assert(self@.effects =~= audited.push(EffectV::ArmIdle(v.grants[k as int].1.name, DEFAULT_IDLE_TIMEOUT_SECS)));
                    }
                }
            },
        }
    }

    /// Release one grant. A stdio server stops with it; a shared server left with no grant
    /// starts its idle window. Returns whether there was such a grant.
    pub fn release(&mut self, grant_id: &str) -> (r: bool)
        requires
            old(self).wf(),
        ensures
            (final(self)@, r) == release_spec(old(self)@, grant_id@),
            final(self).wf(),
            final(self)@.consent == old(self)@.consent,
            final(self)@.audit == old(self)@.audit,
    {
        match find_grant(&self.grants, grant_id) {
            Some(k) => {
                proof {
                    lemma_find_key_found(self@.grants, grant_id@);
                }
                self.remove_grant_at(k);
                true
            },
            None => false,
        }
    }
}

/// Grants taken over connection `c`.
pub open spec fn of_connection(c: u64) -> spec_fn(GrantV) -> bool {
    |g: GrantV| g.connection == c
}

/// Grants on server `name`.
pub open spec fn on_server(name: Seq<char>) -> spec_fn(GrantV) -> bool {
    |g: GrantV| g.name == name
}

/// The engine after every grant from position `i` on that `pred` selects was released, in
/// order.
pub open spec fn release_from(v: EngineV, pred: spec_fn(GrantV) -> bool, i: int) -> EngineV
    decreases v.grants.len() - i,
{
    if i < 0 || i >= v.grants.len() {
        v
    } else if pred(v.grants[i].1) {
        release_from(remove_grant(v, i), pred, i)
    } else {
        release_from(v, pred, i + 1)
    }
}

/// The grants `pred` does not select, in order.
pub open spec fn without(g: Seq<(Seq<char>, GrantV)>, pred: spec_fn(GrantV) -> bool) -> Seq<(Seq<char>, GrantV)>
    decreases g.len(),
{
    if g.len() == 0 {
        g
    } else if pred(g.last().1) {
        without(g.drop_last(), pred)
    } else {
        without(g.drop_last(), pred).push(g.last())
    }
}

/// One step of releasing by position: the grant at `i` is either released or kept.
proof fn lemma_release_step(
    orig: Seq<(Seq<char>, GrantV)>,
    cur: Seq<(Seq<char>, GrantV)>,
    pred: spec_fn(GrantV) -> bool,
    i: int,
    j: int,
)
    requires
        0 <= j < orig.len(),
        cur == without(orig.take(j), pred) + orig.skip(j),
        i == without(orig.take(j), pred).len(),
    ensures
        i < cur.len(),
        cur[i] == orig[j],
        pred(orig[j].1) ==> cur.remove(i) == without(orig.take(j + 1), pred) + orig.skip(j + 1) && without(
            orig.take(j + 1),
            pred,
        ) == without(orig.take(j), pred),
        !pred(orig[j].1) ==> cur == without(orig.take(j + 1), pred) + orig.skip(j + 1) && i + 1 == without(
            orig.take(j + 1),
            pred,
        ).len(),
{
    assert(orig.take(j + 1).drop_last() =~= orig.take(j));
    assert(orig.take(j + 1).last() == orig[j]);
    assert(orig.skip(j)[0] == orig[j]);
    assert(cur[i] == orig[j]);
    if pred(orig[j].1) {
        assert(cur.remove(i) =~= without(orig.take(j + 1), pred) + orig.skip(j + 1));
    } else {
        assert(cur =~= without(orig.take(j + 1), pred) + orig.skip(j + 1));
    }
}

proof fn lemma_without_none(g: Seq<(Seq<char>, GrantV)>, pred: spec_fn(GrantV) -> bool)
    ensures
        forall|i: int| 0 <= i < without(g, pred).len() ==> !pred((#[trigger] without(g, pred)[i]).1),
    decreases g.len(),
{
    if g.len() > 0 {
        lemma_without_none(g.drop_last(), pred);
        let w = without(g.drop_last(), pred);
        if !pred(g.last().1) {
            assert forall|i: int| 0 <= i < without(g, pred).len() implies !pred((#[trigger] without(g, pred)[i]).1) by {
                if i < w.len() {
                    assert(without(g, pred)[i] == w[i]);
                }
            }
        }
    }
}

proof fn lemma_count_zero(g: Seq<(Seq<char>, GrantV)>, name: Seq<char>)
    requires
        forall|i: int| 0 <= i < g.len() ==> (#[trigger] g[i]).1.name != name,
    ensures
        count_named(g, name) == 0,
        count_endpoint(g, name) == 0,
        holders_spec(g, name).len() == 0,
    decreases g.len(),
{
    if g.len() > 0 {
        assert forall|i: int| 0 <= i < g.drop_last().len() implies (#[trigger] g.drop_last()[i]).1.name != name by {
            assert(g.drop_last()[i] == g[i]);
        }
        lemma_count_zero(g.drop_last(), name);
        assert(g.last() == g[g.len() - 1]);
    }
}

proof fn lemma_holders_len(g: Seq<(Seq<char>, GrantV)>, name: Seq<char>)
    ensures
        holders_spec(g, name).len() == count_named(g, name),
    decreases g.len(),
{
    if g.len() > 0 {
        lemma_holders_len(g.drop_last(), name);
    }
}

proof fn lemma_endpoint_le_named(g: Seq<(Seq<char>, GrantV)>, name: Seq<char>)
    ensures
        count_endpoint(g, name) <= count_named(g, name),
    decreases g.len(),
{
    if g.len() > 0 {
        lemma_endpoint_le_named(g.drop_last(), name);
    }
}

/// How a grant holder is named to whoever is told the server is in use.
pub open spec fn holder_label(pid: Option<u32>) -> Seq<char> {
    match pid {
        Some(p) => "pid "@ + crate::canonical::decimal(p as nat),
        None => "unknown client"@,
    }
}

/// The holders of server `name`, named.
pub open spec fn holder_labels(pids: Seq<Option<u32>>) -> Seq<Seq<char>>
    decreases pids.len(),
{
    if pids.len() == 0 {
        Seq::empty()
    } else {
        holder_labels(pids.drop_last()).push(holder_label(pids.last()))
    }
}

/// Shared server `name` stopped outright: its idle window cancelled and its child stopped.
pub open spec fn stop_spec(servers: Seq<(Seq<char>, SharedServer)>, effects: Seq<EffectV>, name: Seq<char>) -> (
    Seq<(Seq<char>, SharedServer)>,
    Seq<EffectV>,
) {
    match find_key(servers, name) {
        Some(j) => {
            let s = servers[j].1;
            let e1 = if s.idle_pending {
                effects.push(EffectV::CancelIdle(name))
            } else {
                effects
            };
            let e2 = if s.running {
                e1.push(EffectV::StopShared(name))
            } else {
                e1
            };
            (servers.update(j, (name, SharedServer { running: false, idle_pending: false })), e2)
        },
        None => (servers, effects),
    }
}

pub open spec fn force_label(force: bool) -> Seq<char> {
    if force {
        "force=true"@
    } else {
        "force=false"@
    }
}

/// What a shared server whose idle window may have run out becomes: one with no grant whose
/// window is among `finished` is stopped (and the stop audited) if its child still runs.
pub open spec fn reap_one(name: Seq<char>, s: SharedServer, refs: nat, finished: Seq<Seq<char>>) -> (SharedServer, Seq<EffectV>) {
    if refs == 0 && s.idle_pending && finished.contains(name) {
        let stopped = SharedServer { running: false, idle_pending: false };
        if s.running {
            (stopped, seq![EffectV::StopShared(name), EffectV::Audit("idle-shutdown"@, name, None, Seq::empty())])
        } else {
            (stopped, Seq::empty())
        }
    } else {
        (s, Seq::empty())
    }
}

/// The servers and the effects added once every server was checked, in order.
pub open spec fn reap_spec(
    grants: Seq<(Seq<char>, GrantV)>,
    servers: Seq<(Seq<char>, SharedServer)>,
    finished: Seq<Seq<char>>,
) -> (Seq<(Seq<char>, SharedServer)>, Seq<EffectV>)
    decreases servers.len(),
{
    if servers.len() == 0 {
        (servers, Seq::empty())
    } else {
        let before = reap_spec(grants, servers.drop_last(), finished);
        let last = servers.last();
        let one = reap_one(last.0, last.1, count_endpoint(grants, last.0), finished);
        (before.0.push((last.0, one.0)), before.1 + one.1)
    }
}

impl Engine {
    /// Release every grant held by a connection. Connection close covers client death too: a
    /// client that crashes, exits, or closes cleanly looks the same from here.
    pub fn release_connection(&mut self, connection: u64)
        requires
            old(self).wf(),
        ensures
            final(self)@ == release_from(old(self)@, of_connection(connection), 0),
            final(self)@.grants == without(old(self)@.grants, of_connection(connection)),
            final(self).wf(),
            final(self)@.consent == old(self)@.consent,
            final(self)@.audit == old(self)@.audit,
    {
        let ghost pred = of_connection(connection);
        let ghost orig = self@.grants;
        let ghost target = release_from(self@, pred, 0);
        let ghost mut j: int = 0;
        let mut i: usize = 0;
        assert(orig.take(0) =~= Seq::<(Seq<char>, GrantV)>::empty());
        assert(orig.skip(0) =~= orig);
        while i < self.grants.len()
            invariant
                self.wf(),
                pred == of_connection(connection),
                release_from(self@, pred, i as int) == target,
                0 <= j <= orig.len(),
                self@.grants == without(orig.take(j), pred) + orig.skip(j),
                i == without(orig.take(j), pred).len(),
                self.grants@.len() == self@.grants.len(),
                self@.consent == old(self)@.consent,
                self@.audit == old(self)@.audit,
            decreases self.grants@.len() - i,
        {
            assert(self@.grants.len() == without(orig.take(j), pred).len() + orig.len() - j);
            proof {
                lemma_release_step(orig, self@.grants, pred, i as int, j);
            }
            assert(self@.grants[i as int].1.connection == self.grants@[i as int].1.connection);
            if self.grants[i].1.connection == connection {
                self.remove_grant_at(i);
            } else {
                i = i + 1;
            }
            proof {
                j = j + 1;
            }
        }
        proof {
            if j < orig.len() {
                assert(self@.grants.len() == without(orig.take(j), pred).len() + orig.len() - j);
            }
            assert(orig.take(j) =~= orig);
            assert(orig.skip(j) =~= Seq::<(Seq<char>, GrantV)>::empty());
            assert(self@.grants =~= without(orig, pred));
        }
    }

    /// Stop server `name` outright. Without `force` this refuses while anyone holds a grant on
    /// it, naming the holders; otherwise every grant on it is released, a shared child is
    /// stopped (idle or not), and the count of grants released is returned.
    pub fn deactivate(&mut self, name: &str, force: bool) -> (r: Result<usize, Vec<String>>)
        requires
            old(self).wf(),
        ensures
            final(self).wf(),
            final(self)@.consent == old(self)@.consent,
            final(self)@.audit == old(self)@.audit,
            ({
                let v = old(self)@;
                let labels = holder_labels(holders_spec(v.grants, name@));
                if labels.len() > 0 && !force {
                    &&& r matches Err(h) && crate::text::string_views(h@) == labels
                    &&& final(self)@ == v
                } else {
                    let released = release_from(v, on_server(name@), 0);
                    let stopped = stop_spec(released.servers, released.effects, name@);
                    &&& r matches Ok(n) && n == count_named(v.grants, name@)
                    &&& released.grants == without(v.grants, on_server(name@))
                    &&& final(self)@ == (EngineV {
                        servers: stopped.0,
                        effects: stopped.1.push(EffectV::Audit("deactivate"@, name@, None, force_label(force))),
                        ..released
                    })
                }
            }),
    {
        let ghost v = self@;
        let pids = self.holders(name);
        let mut labels: Vec<String> = Vec::new();
        let mut k: usize = 0;
        while k < pids.len()
            invariant
                k <= pids@.len(),
                crate::text::string_views(labels@) == holder_labels(pids@.take(k as int)),
            decreases pids@.len() - k,
        {
            assert(pids@.take(k + 1).drop_last() =~= pids@.take(k as int));
            let label = holder_text(pids[k]);
            labels.push(label);
            assert(crate::text::string_views(labels@) =~= holder_labels(pids@.take(k + 1)));
            k = k + 1;
        }
        assert(pids@.take(pids@.len() as int) =~= pids@);
        if labels.len() > 0 && !force {
            return Err(labels);
        }
        proof {
            lemma_holders_len(v.grants, name@);
        }
        let count = pids.len();
        let ghost pred = on_server(name@);
        let ghost orig = self@.grants;
        let ghost target = release_from(self@, pred, 0);
        let ghost mut j: int = 0;
        let mut i: usize = 0;
        assert(orig.take(0) =~= Seq::<(Seq<char>, GrantV)>::empty());
        assert(orig.skip(0) =~= orig);
        while i < self.grants.len()
            invariant
                self.wf(),
                pred == on_server(name@),
                release_from(self@, pred, i as int) == target,
                0 <= j <= orig.len(),
                self@.grants == without(orig.take(j), pred) + orig.skip(j),
                i == without(orig.take(j), pred).len(),
                self.grants@.len() == self@.grants.len(),
                self@.consent == old(self)@.consent,
                self@.audit == old(self)@.audit,
            decreases self.grants@.len() - i,
        {
            assert(self@.grants.len() == without(orig.take(j), pred).len() + orig.len() - j);
            proof {
                lemma_release_step(orig, self@.grants, pred, i as int, j);
            }
            assert(self@.grants[i as int].1.name == self.grants@[i as int].1.name@);
            if crate::json::str_eq(self.grants[i].1.name.as_str(), name) {
                self.remove_grant_at(i);
            } else {
                i = i + 1;
            }
            proof {
                j = j + 1;
            }
        }
        proof {
            if j < orig.len() {
                assert(self@.grants.len() == without(orig.take(j), pred).len() + orig.len() - j);
            }
            assert(orig.take(j) =~= orig);
            assert(orig.skip(j) =~= Seq::<(Seq<char>, GrantV)>::empty());
            assert(self@.grants =~= without(orig, pred));
            lemma_without_none(orig, pred);
            lemma_count_zero(self@.grants, name@);
        }
        let ghost released = self@;
        let found = find_server(&self.shared, name);
        proof {
            lemma_find_key_found(released.servers, name@);
        }
        if let Some(s) = found {
            let current = self.shared[s].1;
            if current.idle_pending {
                self.effects.push(Effect::CancelIdle { name: owned(name) });
            }
            if current.running {
                self.effects.push(Effect::StopShared { name: owned(name) });
            }
            let key = self.shared[s].0.clone();
            self.shared.set(s, (key, SharedServer { running: false, idle_pending: false }));
            proof {
                let st = stop_spec(released.servers, released.effects, name@);
                assert(self@.effects =~= st.1);
                assert(servers_view(self.shared@) =~= st.0);
                lemma_stop_server_wf(released, s as int, name@);
            }
        }
        let ghost stopped = self@;
        self.effects.push(
            Effect::Audit {
                event: owned("deactivate"),
                server: owned(name),
                client_pid: None,
                detail: owned(if force {
                    "force=true"
                } else {
                    "force=false"
                }),
            },
        );
        proof {
            reveal_strlit("deactivate");
            reveal_strlit("force=true");
            reveal_strlit("force=false");
            assert(self@.effects =~= stopped.effects.push(EffectV::Audit("deactivate"@, name@, None, force_label(force))));
        }
        Ok(count)
    }

    /// Stop the shared servers whose idle window ran out (`finished` names them) while they
    /// still had no grant.
    pub fn reap_idle(&mut self, finished: &Vec<String>)
        requires
            old(self).wf(),
        ensures
            final(self).wf(),
            final(self)@.consent == old(self)@.consent,
            final(self)@.audit == old(self)@.audit,
            ({
                let v = old(self)@;
                let reaped = reap_spec(v.grants, v.servers, crate::text::string_views(finished@));
                final(self)@ == (EngineV { servers: reaped.0, effects: v.effects + reaped.1, ..v })
            }),
    {
        let ghost v = self@;
        let ghost fin = crate::text::string_views(finished@);
        let mut j: usize = 0;
        proof {
            lemma_reap_shape(v.grants, v.servers.take(0), fin);
        }
        assert(v.servers.take(0) =~= Seq::<(Seq<char>, SharedServer)>::empty());
        assert(self@.servers =~= reap_spec(v.grants, v.servers.take(0), fin).0 + v.servers.skip(0));
        assert(self@.effects =~= v.effects + reap_spec(v.grants, v.servers.take(0), fin).1);
        while j < self.shared.len()
            invariant
                self@.grants == v.grants,
                self@.next_grant == v.next_grant,
                self@.process_id == v.process_id,
                self@.consent == old(self)@.consent,
                self@.audit == old(self)@.audit,
                fin == crate::text::string_views(finished@),
                self.shared@.len() == v.servers.len(),
                j <= v.servers.len(),
                self@.servers == reap_spec(v.grants, v.servers.take(j as int), fin).0 + v.servers.skip(j as int),
                self@.effects == v.effects + reap_spec(v.grants, v.servers.take(j as int), fin).1,
                engine_wf(self@),
            decreases v.servers.len() - j,
        {
            let ghost before = self@;
            let ghost prefix = reap_spec(v.grants, v.servers.take(j as int), fin);
            proof {
                lemma_reap_shape(v.grants, v.servers.take(j as int), fin);
                lemma_reap_shape(v.grants, v.servers.take(j + 1), fin);
                assert(v.servers.take(j + 1).drop_last() =~= v.servers.take(j as int));
                assert(v.servers.take(j + 1).last() == v.servers[j as int]);
                assert(before.servers[j as int] == v.servers[j as int]);
            }
            let current = self.shared[j].1;
            let refs = self.endpoint_count(self.shared[j].0.as_str());
            let due = contains_string(finished, self.shared[j].0.as_str());
            let ghost key_v = v.servers[j as int].0;
            let ghost one = reap_one(key_v, v.servers[j as int].1, count_endpoint(v.grants, key_v), fin);
            assert(self.shared@[j as int].0@ == key_v);
            assert(current == v.servers[j as int].1);
            assert(reap_spec(v.grants, v.servers.take(j + 1), fin).0 == prefix.0.push((key_v, one.0)));
            assert(reap_spec(v.grants, v.servers.take(j + 1), fin).1 == prefix.1 + one.1);
            if refs == 0 && current.idle_pending && due {
                let key = self.shared[j].0.clone();
                if current.running {
                    self.effects.push(Effect::StopShared { name: key.clone() });
                    self.effects.push(
                        Effect::Audit {
                            event: owned("idle-shutdown"),
                            server: key.clone(),
                            client_pid: None,
                            detail: String::new(),
                        },
                    );
                    proof {
                        reveal_strlit("idle-shutdown");
                    }
                }
                self.shared.set(j, (key, SharedServer { running: false, idle_pending: false }));
                proof {
                    lemma_stop_server_wf(before, j as int, key_v);
                    assert(self@.effects =~= before.effects + one.1);
                    assert(self@.servers =~= before.servers.update(j as int, (key_v, one.0)));
                }
            } else {
                assert(one.1 =~= Seq::<EffectV>::empty());
                assert(one.0 == v.servers[j as int].1);
                assert(self@.effects =~= before.effects + one.1);
                assert(self@.servers =~= before.servers.update(j as int, (key_v, one.0)));
            }
            proof {
                assert(self@.servers =~= reap_spec(v.grants, v.servers.take(j + 1), fin).0 + v.servers.skip(j + 1));
                assert(self@.effects =~= v.effects + reap_spec(v.grants, v.servers.take(j + 1), fin).1);
            }
            j = j + 1;
        }
        assert(v.servers.take(v.servers.len() as int) =~= v.servers);
        assert(self@.servers =~= reap_spec(v.grants, v.servers, fin).0);
    }
}

proof fn lemma_reap_shape(
    grants: Seq<(Seq<char>, GrantV)>,
    servers: Seq<(Seq<char>, SharedServer)>,
    finished: Seq<Seq<char>>,
)
    ensures
        reap_spec(grants, servers, finished).0.len() == servers.len(),
        forall|i: int|
            0 <= i < servers.len() ==> (#[trigger] reap_spec(grants, servers, finished).0[i]).0 == servers[i].0,
    decreases servers.len(),
{
    if servers.len() > 0 {
        lemma_reap_shape(grants, servers.drop_last(), finished);
        let r = reap_spec(grants, servers, finished).0;
        assert forall|i: int| 0 <= i < servers.len() implies (#[trigger] r[i]).0 == servers[i].0 by {
            if i < servers.len() - 1 {
                assert(r[i] == reap_spec(grants, servers.drop_last(), finished).0[i]);
                assert(servers.drop_last()[i] == servers[i]);
            }
        }
    }
}

/// An effect reaping may emit: stopping a finished server, or auditing its idle shutdown.
pub open spec fn reap_effect_ok(e: EffectV, grants: Seq<(Seq<char>, GrantV)>, finished: Seq<Seq<char>>) -> bool {
    match e {
        EffectV::StopShared(n) => finished.contains(n) && count_endpoint(grants, n) == 0,
        EffectV::Audit(ev, n, pid, _) => finished.contains(n) && ev == "idle-shutdown"@ && pid is None,
        _ => false,
    }
}

/// Reaping stops only servers whose idle window is among the finished ones and that nobody
/// holds: every other server (one not in `finished`, one with a grant, one whose window is not
/// pending) is left exactly as it was, and every effect added is the stop, or the audit of the
/// idle shutdown, of a finished server with no grant. With nothing finished, nothing changes.
pub proof fn law_reaping_stops_only_finished_idle_servers(
    grants: Seq<(Seq<char>, GrantV)>,
    servers: Seq<(Seq<char>, SharedServer)>,
    finished: Seq<Seq<char>>,
)
    ensures
        reap_spec(grants, servers, finished).0.len() == servers.len(),
        forall|i: int|
            0 <= i < servers.len() && (!finished.contains(servers[i].0) || count_endpoint(grants, servers[i].0) > 0
                || !servers[i].1.idle_pending) ==> #[trigger] reap_spec(grants, servers, finished).0[i] == servers[i],
        forall|k: int|
            0 <= k < reap_spec(grants, servers, finished).1.len() ==> reap_effect_ok(
                #[trigger] reap_spec(grants, servers, finished).1[k],
                grants,
                finished,
            ),
        finished.len() == 0 ==> reap_spec(grants, servers, finished) == (servers, Seq::<EffectV>::empty()),
    decreases servers.len(),
{
    reveal_strlit("idle-shutdown");
    if servers.len() > 0 {
        let t = servers.drop_last();
        law_reaping_stops_only_finished_idle_servers(grants, t, finished);
        let before = reap_spec(grants, t, finished);
        let last = servers.last();
        let one = reap_one(last.0, last.1, count_endpoint(grants, last.0), finished);
        let r = reap_spec(grants, servers, finished);
        assert(r == (before.0.push((last.0, one.0)), before.1 + one.1));
        assert forall|i: int|
            0 <= i < servers.len() && (!finished.contains(servers[i].0) || count_endpoint(grants, servers[i].0) > 0
                || !servers[i].1.idle_pending) implies #[trigger] r.0[i] == servers[i] by {
            if i < servers.len() - 1 {
                assert(r.0[i] == before.0[i]);
                assert(t[i] == servers[i]);
            } else {
                assert(r.0[i] == (last.0, one.0));
            }
        }
        assert forall|k: int| 0 <= k < r.1.len() implies reap_effect_ok(#[trigger] r.1[k], grants, finished) by {
            if k < before.1.len() {
                assert(r.1[k] == before.1[k]);
            } else {
                assert(r.1[k] == one.1[k - before.1.len()]);
            }
        }
        if finished.len() == 0 {
            assert(!finished.contains(last.0));
            assert(r.0 =~= servers);
            assert(r.1 =~= Seq::<EffectV>::empty());
        }
    } else {
        assert(reap_spec(grants, servers, finished).1 =~= Seq::<EffectV>::empty());
    }
}

proof fn lemma_stop_server_wf(v: EngineV, k: int, name: Seq<char>)
    requires
        engine_wf(v),
        0 <= k < v.servers.len(),
        v.servers[k].0 == name,
        count_endpoint(v.grants, name) == 0,
    ensures
        engine_wf(EngineV {
            servers: v.servers.update(k, (name, SharedServer { running: false, idle_pending: false })),
            ..v
        }),
{
    let servers2 = v.servers.update(k, (name, SharedServer { running: false, idle_pending: false }));
    assert forall|n: Seq<char>| find_key(v.servers, n) == find_key(servers2, n) by {
        lemma_find_key_same_keys(v.servers, servers2, n);
    }
    {
        let w = EngineV { servers: servers2, ..v };
        assert forall|i: int, j: int| 0 <= i < j < w.servers.len() implies (#[trigger] w.servers[i]).0 != (
        #[trigger] w.servers[j]).0 by {
            assert(w.servers[i].0 == v.servers[i].0);
            assert(w.servers[j].0 == v.servers[j].0);
        }
        assert forall|i: int| 0 <= i < w.servers.len() && (#[trigger] w.servers[i]).1.idle_pending implies count_endpoint(
            w.grants,
            w.servers[i].0,
        ) == 0 by {
            assert(i != k);
            assert(w.servers[i] == v.servers[i]);
        }
        assert forall|i: int| 0 <= i < w.grants.len() && (#[trigger] w.grants[i]).1.kind == GrantKind::Endpoint implies (find_key(
            w.servers,
            w.grants[i].1.name,
        ) matches Some(kk) && w.servers[kk].1.running) by {
            lemma_find_key_found(v.servers, v.grants[i].1.name);
            let kk = find_key(v.servers, v.grants[i].1.name).unwrap();
            if kk == k {
                lemma_count_positive(v.grants, i);
                assert(false);
            }
            assert(w.servers[kk] == v.servers[kk]);
        }
    }
}

/// An endpoint grant counts toward its server.
proof fn lemma_count_positive(g: Seq<(Seq<char>, GrantV)>, i: int)
    requires
        0 <= i < g.len(),
        g[i].1.kind == GrantKind::Endpoint,
    ensures
        count_endpoint(g, g[i].1.name) > 0,
    decreases g.len(),
{
    if i < g.len() - 1 {
        assert(g.drop_last()[i] == g[i]);
        lemma_count_positive(g.drop_last(), i);
    }
}

/// Whether `names` holds `name`.
fn contains_string(names: &Vec<String>, name: &str) -> (r: bool)
    ensures
        r == crate::text::string_views(names@).contains(name@),
{
    let ghost v = crate::text::string_views(names@);
    let mut i: usize = 0;
    while i < names.len()
        invariant
            v == crate::text::string_views(names@),
            i <= names@.len(),
            forall|k: int| 0 <= k < i ==> v[k] != name@,
        decreases names@.len() - i,
    {
        assert(v[i as int] == names@[i as int]@);
        if crate::json::str_eq(names[i].as_str(), name) {
            return true;
        }
        i = i + 1;
    }
    false
}

/// How a holder is named.
fn holder_text(pid: Option<u32>) -> (r: String)
    ensures
        r@ == holder_label(pid),
{
    match pid {
        Some(p) => {
            let mut out: Vec<char> = Vec::new();
            push_str(&mut out, "pid ");
            crate::canonical::push_decimal(&mut out, p as u64);
            proof {
                reveal_strlit("pid ");
            }
            string_from_chars(out.as_slice())
        },
        None => {
            proof {
                reveal_strlit("unknown client");
            }
            owned("unknown client")
        },
    }
}

// ---------------------------------------------------------------------------------------------
// What to start
// ---------------------------------------------------------------------------------------------

/// How to start an entry's server: program, arguments, working directory, extra environment,
/// and whether its stdin and stdout are piped (a stdio grant's are; a shared server's are not).
#[derive(Debug)]
pub struct LaunchPlan {
    pub command: String,
    pub args: Vec<String>,
    pub cwd: Option<String>,
    pub env: Vec<(String, String)>,
    pub piped: bool,
}

/// The string-valued members of an object, in order.
pub open spec fn string_members(ms: Seq<(Seq<char>, JsonV)>) -> Seq<(Seq<char>, Seq<char>)>
    decreases ms.len(),
{
    if ms.len() == 0 {
        Seq::empty()
    } else {
        match ms.last().1 {
            JsonV::Str(v) => string_members(ms.drop_last()).push((ms.last().0, v)),
            _ => string_members(ms.drop_last()),
        }
    }
}

/// The extra environment a card's launch stanza sets: the string members of
/// `local.launch.env` in the expanded card.
pub open spec fn launch_env(v: JsonV) -> Seq<(Seq<char>, Seq<char>)> {
    match get_spec(v, "local"@) {
        Some(l) => match get_spec(l, "launch"@) {
            Some(x) => match get_spec(x, "env"@) {
                Some(JsonV::Object(ms)) => string_members(ms),
                _ => Seq::empty(),
            },
            None => Seq::empty(),
        },
        None => Seq::empty(),
    }
}

pub open spec fn pairs_view(s: Seq<(String, String)>) -> Seq<(Seq<char>, Seq<char>)> {
    s.map_values(|p: (String, String)| (p.0@, p.1@))
}

fn string_member_pairs(members: &Vec<(String, Json)>) -> (r: Vec<(String, String)>)
    ensures
        pairs_view(r@) == string_members(crate::json::view_members(members@)),
{
    let ghost mv = crate::json::view_members(members@);
    proof {
        crate::json::lemma_view_members_index(members@);
    }
    let mut out: Vec<(String, String)> = Vec::new();
    let mut i: usize = 0;
    while i < members.len()
        invariant
            mv == crate::json::view_members(members@),
            mv.len() == members@.len(),
            forall|k: int| 0 <= k < members@.len() ==> #[trigger] mv[k] == (members@[k].0@, members@[k].1@),
            i <= members@.len(),
            pairs_view(out@) == string_members(mv.take(i as int)),
        decreases members@.len() - i,
    {
        assert(mv.take(i + 1).drop_last() =~= mv.take(i as int));
        assert(mv.take(i + 1).last() == mv[i as int]);
        let ghost before = out@;
        match &members[i].1 {
            Json::String(value) => {
                out.push((members[i].0.clone(), value.clone()));
                assert(pairs_view(out@) =~= pairs_view(before).push((members@[i as int].0@, value@)));
            },
            _ => {},
        }
        i = i + 1;
    }
    assert(mv.take(members@.len() as int) =~= mv);
    out
}

/// How to start `entry`'s server; refused when its card has no launch stanza.
pub fn launch_plan(entry: &Entry, piped: bool) -> (r: Result<LaunchPlan, ActivateError>)
    ensures
        match entry_launch(*entry) {
            None => r matches Err(ActivateError::NotActivatable(n)) && n@ == entry.name@,
            Some(l) => r matches Ok(plan) && plan.command@ == l.command@ && crate::text::string_views(plan.args@)
                == (match l.args {
                Some(a) => crate::text::string_views(a@),
                None => Seq::empty(),
            }) && crate::consent::opt_chars(plan.cwd) == crate::consent::opt_chars(l.cwd) && pairs_view(plan.env@)
                == launch_env(entry.expanded@) && plan.piped == piped,
        },
{
    let launch = match &entry.card.local {
        Some(l) => match &l.launch {
            Some(x) => x,
            None => {
                return Err(ActivateError::NotActivatable(entry.name.clone()));
            },
        },
        None => {
            return Err(ActivateError::NotActivatable(entry.name.clone()));
        },
    };
    let mut args: Vec<String> = Vec::new();
    if let Some(a) = &launch.args {
        let mut i: usize = 0;
        while i < a.len()
            invariant
                i <= a@.len(),
                crate::text::string_views(args@) == crate::text::string_views(a@).take(i as int),
            decreases a@.len() - i,
        {
            let ghost before = args@;
            let item = a[i].clone();
            assert(item@ == a@[i as int]@);
            args.push(item);
            assert(crate::text::string_views(args@) =~= crate::text::string_views(before).push(a@[i as int]@));
            assert(crate::text::string_views(a@).take(i + 1) =~= crate::text::string_views(a@).take(i as int).push(
                a@[i as int]@,
            ));
            i = i + 1;
        }
        assert(crate::text::string_views(a@).take(a@.len() as int) =~= crate::text::string_views(a@));
    } else {
        assert(crate::text::string_views(args@) =~= Seq::<Seq<char>>::empty());
    }
    let cwd = match &launch.cwd {
        Some(c) => Some(c.clone()),
        None => None,
    };
    let mut env: Vec<(String, String)> = Vec::new();
    assert(pairs_view(env@) =~= Seq::<(Seq<char>, Seq<char>)>::empty());
    proof {
        reveal_strlit("local");
        reveal_strlit("launch");
        reveal_strlit("env");
    }
    if let Some(l) = entry.expanded.get("local") {
        if let Some(x) = l.get("launch") {
            if let Some(Json::Object(ms)) = x.get("env") {
                env = string_member_pairs(ms);
            }
        }
    }
    Ok(LaunchPlan { command: launch.command.clone(), args, cwd, env, piped })
}

/// What an activation error says to a person.
pub open spec fn error_message(e: ActivateError) -> Seq<char> {
    match e {
        ActivateError::UnknownServer(n) => "unknown server: "@ + n@,
        ActivateError::ConsentRequired { name, state } => "consent required for "@ + name@ + " (currently "@
            + state_label(state) + "); grant it interactively before activating"@,
        ActivateError::Orphaned(n) => n@ + " is orphaned: its launch command is missing"@,
        ActivateError::NotActivatable(n) => n@ + " declares no launch command, so it cannot be started"@,
        ActivateError::Io(m) => m@,
    }
}

impl ActivateError {
    /// What the error says to a person.
    pub fn message(&self) -> (r: String)
        ensures
            r@ == error_message(*self),
            r@ == match self {
                ActivateError::UnknownServer(n) => "unknown server: "@ + n@,
                ActivateError::ConsentRequired { name, state } => "consent required for "@ + name@ + " (currently "@
                    + state_label(*state) + "); grant it interactively before activating"@,
                ActivateError::Orphaned(n) => n@ + " is orphaned: its launch command is missing"@,
                ActivateError::NotActivatable(n) => n@ + " declares no launch command, so it cannot be started"@,
                ActivateError::Io(m) => m@,
            },
    {
        let mut out: Vec<char> = Vec::new();
        match self {
            ActivateError::UnknownServer(n) => {
                push_str(&mut out, "unknown server: ");
                push_str(&mut out, n.as_str());
                proof {
                    reveal_strlit("unknown server: ");
                }
            },
            ActivateError::ConsentRequired { name, state } => {
                push_str(&mut out, "consent required for ");
                push_str(&mut out, name.as_str());
                push_str(&mut out, " (currently ");
                push_str(&mut out, state_label_str(*state));
                push_str(&mut out, "); grant it interactively before activating");
                proof {
                    reveal_strlit("consent required for ");
                    reveal_strlit(" (currently ");
                    reveal_strlit("); grant it interactively before activating");
                }
            },
            ActivateError::Orphaned(n) => {
                push_str(&mut out, n.as_str());
                push_str(&mut out, " is orphaned: its launch command is missing");
                proof {
                    reveal_strlit(" is orphaned: its launch command is missing");
                }
            },
            ActivateError::NotActivatable(n) => {
                push_str(&mut out, n.as_str());
                push_str(&mut out, " declares no launch command, so it cannot be started");
                proof {
                    reveal_strlit(" declares no launch command, so it cannot be started");
                }
            },
            ActivateError::Io(m) => {
                push_str(&mut out, m.as_str());
            },
        }
        string_from_chars(out.as_slice())
    }
}

// ---------------------------------------------------------------------------------------------
// Laws
// ---------------------------------------------------------------------------------------------

/// Consent gates activation: a server reads as granted only when its record is a grant bound
/// to exactly the launch hash being activated.
pub proof fn law_consent_gates_activation(m: Map<Seq<char>, crate::consent::RecordV>, name: Seq<char>, hash: Seq<char>)
    ensures
        consent_for(m, name, hash).state == ConsentState::Granted ==> m.contains_key(name) && m[name].state
            == ConsentState::Granted && m[name].launch_hash == Some(hash),
{
}

/// Releasing a grant just taken leaves every other grant exactly as it was, in order.
pub proof fn law_release_undoes_grant(v: EngineV, id: Seq<char>, g: GrantV)
    requires
        find_key(v.grants, id) is None,
    ensures
        release_spec(EngineV { grants: v.grants.push((id, g)), ..v }, id).1,
        release_spec(EngineV { grants: v.grants.push((id, g)), ..v }, id).0.grants == v.grants,
{
    let w = EngineV { grants: v.grants.push((id, g)), ..v };
    lemma_find_key_push(v.grants, (id, g), id);
    assert(w.grants.remove(v.grants.len() as int) =~= v.grants);
}

/// A stdio server has one child per grant, so releasing its grant stops that child.
pub proof fn law_stdio_release_stops_its_child(v: EngineV, id: Seq<char>)
    requires
        find_key(v.grants, id) matches Some(k) && v.grants[k].1.kind == GrantKind::Stdio,
    ensures
        release_spec(v, id).1,
        release_spec(v, id).0.effects.last() == EffectV::StopStdio(id),
{
    lemma_find_key_found(v.grants, id);
}

/// Releasing the last grant on a shared server starts its idle window instead of stopping it:
/// the server is still running afterwards, so a client returning within the window reuses it.
pub proof fn law_last_shared_release_starts_idle_window(v: EngineV, id: Seq<char>)
    requires
        engine_wf(v),
        find_key(v.grants, id) matches Some(k) && v.grants[k].1.kind == GrantKind::Endpoint && count_endpoint(
            v.grants,
            v.grants[k].1.name,
        ) == 1,
    ensures
        ({
            let k = find_key(v.grants, id).unwrap();
            let name = v.grants[k].1.name;
            let w = release_spec(v, id).0;
            &&& w.effects.last() == EffectV::ArmIdle(name, DEFAULT_IDLE_TIMEOUT_SECS)
            &&& was_idle(w.servers, name)
            &&& running_spec(w, name)
            &&& count_endpoint(w.grants, name) == 0
        }),
{
    lemma_find_key_found(v.grants, id);
    let k = find_key(v.grants, id).unwrap();
    let name = v.grants[k].1.name;
    lemma_count_remove(v.grants, k, name);
    lemma_find_key_found(v.servers, name);
    let j = find_key(v.servers, name).unwrap();
    let w = release_spec(v, id).0;
    assert(find_key(w.servers, name) == Some(j)) by {
        lemma_find_key_same_keys(v.servers, w.servers, name);
    }
}

/// A connection that ends takes exactly its own grants with it: every grant left belongs to
/// another connection, and every grant of another connection is left.
pub proof fn law_connection_end_releases_only_its_grants(g: Seq<(Seq<char>, GrantV)>, c: u64)
    ensures
        forall|i: int|
            0 <= i < without(g, of_connection(c)).len() ==> (#[trigger] without(g, of_connection(c))[i]).1.connection
                != c,
        forall|i: int|
            0 <= i < g.len() && (#[trigger] g[i]).1.connection != c ==> without(g, of_connection(c)).contains(g[i]),
    decreases g.len(),
{
    lemma_without_none(g, of_connection(c));
    if g.len() > 0 {
        law_connection_end_releases_only_its_grants(g.drop_last(), c);
        let w = without(g.drop_last(), of_connection(c));
        assert forall|i: int| 0 <= i < g.len() && (#[trigger] g[i]).1.connection != c implies without(
            g,
            of_connection(c),
        ).contains(g[i]) by {
            if i < g.len() - 1 {
                assert(g.drop_last()[i] == g[i]);
                let j = choose|j: int| 0 <= j < w.len() && w[j] == g[i];
                if g.last().1.connection != c {
                    assert(without(g, of_connection(c))[j] == g[i]);
                } else {
                    assert(without(g, of_connection(c))[j] == g[i]);
                }
            } else {
                assert(without(g, of_connection(c))[w.len() as int] == g[i]);
            }
        }
    }
}

fn not_pending(id: &str) -> (r: String)
    ensures
        r@ == not_pending_message(id@),
{
    let mut out: Vec<char> = Vec::new();
    push_str(&mut out, "grant ");
    push_str(&mut out, id);
    push_str(&mut out, " is not awaiting completion");
    proof {
        reveal_strlit("grant ");
        reveal_strlit(" is not awaiting completion");
    }
    string_from_chars(out.as_slice())
}

/// A grant id names one grant: once it has been released, releasing it again finds nothing and
/// changes nothing.
pub proof fn law_release_is_once(v: EngineV, id: Seq<char>)
    requires
        engine_wf(v),
    ensures
        !release_spec(release_spec(v, id).0, id).1,
        release_spec(release_spec(v, id).0, id).0 == release_spec(v, id).0,
{
    lemma_find_key_found(v.grants, id);
    if let Some(k) = find_key(v.grants, id) {
        let w = remove_grant(v, k);
        assert forall|j: int| 0 <= j < w.grants.len() implies (#[trigger] w.grants[j]).0 != id by {
            let src = if j < k { j } else { j + 1 };
            assert(w.grants[j] == v.grants[src]);
        }
        lemma_find_key_found(w.grants, id);
    }
}

/// The text of grant id number `n` of broker process `pid`.
fn grant_id_string(pid: u32, n: u64) -> (r: String)
    ensures
        r@ == grant_id_text(pid, n),
{
    let mut out: Vec<char> = Vec::new();
    out.push('g');
    crate::canonical::push_decimal(&mut out, pid as u64);
    out.push('-');
    crate::canonical::push_decimal(&mut out, n);
    proof {
        reveal_strlit("g");
        reveal_strlit("-");
        assert(out@ =~= grant_id_text(pid, n));
    }
    string_from_chars(out.as_slice())
}

} // verus!
