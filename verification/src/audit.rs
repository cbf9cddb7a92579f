//! Append-only audit log.
//!
//! One JSON object per line answering "what ran, when, and who approved it". The line is built
//! here; appending it to the file is the caller's part, and a failure to write never blocks an
//! operation: losing a log line is better than wedging the broker.

use crate::canonical::{canon, canonicalize};
use crate::consent::{rfc3339_now, rfc3339_spec};
use crate::dirs::{join, join_path, Platform};
use crate::json::{Json, JsonNumber, JsonV};
use crate::text::owned;
use vstd::prelude::*;

verus! {

/// Where audit lines go, if anywhere.
#[derive(Debug)]
pub struct AuditLog {
    path: Option<String>,
}

/// The record of one event: when, what, which server and card (by its launch hash), which
/// client, and a detail.
pub open spec fn audit_value(
    at: Seq<char>,
    event: Seq<char>,
    server: Seq<char>,
    launch_hash: Seq<char>,
    client_pid: Option<u32>,
    detail: Seq<char>,
) -> JsonV {
    JsonV::Object(
        seq![
            ("at"@, JsonV::Str(at)),
            ("event"@, JsonV::Str(event)),
            ("server"@, JsonV::Str(server)),
            ("launchHash"@, JsonV::Str(launch_hash)),
            ("clientPid"@, match client_pid {
                Some(pid) => JsonV::Number(JsonNumber::PosInt(pid as u64)),
                None => JsonV::Null,
            }),
            ("detail"@, JsonV::Str(detail)),
        ],
    )
}

/// The line written for one event: its record as canonical JSON.
pub open spec fn audit_line(
    at: Seq<char>,
    event: Seq<char>,
    server: Seq<char>,
    launch_hash: Seq<char>,
    client_pid: Option<u32>,
    detail: Seq<char>,
) -> Seq<char> {
    canon(audit_value(at, event, server, launch_hash, client_pid, detail))
}

impl AuditLog {
    pub closed spec fn path_spec(&self) -> Option<Seq<char>> {
        match self.path {
            Some(p) => Some(p@),
            None => None,
        }
    }

    /// The log kept in `audit.log` under the broker's state directory.
    pub fn new(p: Platform, state_dir: &str) -> (r: Self)
        ensures
            r.path_spec() == Some(join_path(p, state_dir@, "audit.log"@)),
    {
        proof {
            reveal_strlit("audit.log");
        }
        AuditLog { path: Some(join(p, state_dir, "audit.log")) }
    }

    /// A sink that drops everything, for callers that should not touch the user's state
    /// directory.
    pub fn disabled() -> (r: Self)
        ensures
            r.path_spec() is None,
    {
        AuditLog { path: None }
    }

    /// The file lines are appended to, if the log is enabled.
    pub fn path(&self) -> (r: Option<String>)
        ensures
            match r {
                Some(p) => self.path_spec() == Some(p@),
                None => self.path_spec() is None,
            },
    {
        match &self.path {
            Some(p) => Some(p.clone()),
            None => None,
        }
    }

    /// The line recording an event at time `at`.
    pub fn line_at(
        at: &str,
        event: &str,
        server: &str,
        launch_hash: &str,
        client_pid: Option<u32>,
        detail: &str,
    ) -> (r: String)
        ensures
            r@ == audit_line(at@, event@, server@, launch_hash@, client_pid, detail@),
    {
        let pid = match client_pid {
            Some(pid) => Json::Number(JsonNumber::PosInt(pid as u64)),
            None => Json::Null,
        };
        let mut members: Vec<(String, Json)> = Vec::new();
        members.push((owned("at"), Json::String(owned(at))));
        members.push((owned("event"), Json::String(owned(event))));
        members.push((owned("server"), Json::String(owned(server))));
        members.push((owned("launchHash"), Json::String(owned(launch_hash))));
        members.push((owned("clientPid"), pid));
        members.push((owned("detail"), Json::String(owned(detail))));
        let value = Json::Object(members);
        proof {
            reveal_strlit("at");
            reveal_strlit("event");
            reveal_strlit("server");
            reveal_strlit("launchHash");
            reveal_strlit("clientPid");
            reveal_strlit("detail");
            crate::json::lemma_view_members_index(members@);
            let expected = audit_value(at@, event@, server@, launch_hash@, client_pid, detail@);
            assert(crate::json::view_members(members@) =~= expected->Object_0);
        }
        canonicalize(&value)
    }

    /// The line to append for an event happening now, or nothing when the log is disabled.
    pub fn record(
        &self,
        event: &str,
        server: &str,
        launch_hash: &str,
        client_pid: Option<u32>,
        detail: &str,
    ) -> (r: Option<String>)
        ensures
            match r {
                Some(line) => self.path_spec() is Some && exists|secs: i64|
                    line@ == audit_line(rfc3339_spec(secs as int), event@, server@, launch_hash@, client_pid, detail@),
                None => self.path_spec() is None,
            },
    {
        match &self.path {
            None => None,
            Some(_) => {
                let at = rfc3339_now();
                let line = Self::line_at(at.as_str(), event, server, launch_hash, client_pid, detail);
                Some(line)
            },
        }
    }
}

} // verus!
