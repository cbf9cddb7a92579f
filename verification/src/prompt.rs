//! Asking the user.
//!
//! The broker never draws the dialog itself; it runs `mcp-locator-consent`, which lives beside
//! it in the install directory, and reads the answer from the exit code. Two properties fall out
//! of that split and both are deliberate:
//!
//! * Nothing an AI client sends reaches the prompt. Every string shown comes from the card on
//!   disk or from the OS (the requesting process name is read from its PID, not self-reported),
//!   so a server cannot write its own consent text to make itself look official.
//! * The helper is found only next to the broker binary. If it is missing, activation fails the
//!   way it always did, with consent required, rather than proceeding unasked.

use crate::catalog::{Entry, CARD_SUFFIX};
use crate::consent::{ConsentRecord, ConsentState};
use crate::dirs::{join, join_path, tier_name, Platform};
use crate::env::Env;
use crate::text::{owned, push_str, string_from_chars, string_views};
use vstd::prelude::*;

verus! {

/// How long a prompt may sit unanswered before the broker gives up, in seconds. The client's
/// `activate` call is blocked for the whole time, so an abandoned dialog must not wedge it.
pub const PROMPT_TIMEOUT_SECS: u64 = 180;

/// The helper's exit code for "allow".
pub const ALLOW: i32 = 10;
/// The helper's exit code for "deny".
pub const DENY: i32 = 20;

/// What the user answered.
#[derive(Debug, Clone, Copy, PartialEq, Eq, Structural)]
pub enum Decision {
    Allow,
    Deny,
    /// No answer: dialog dismissed, timed out, helper missing, or prompting disabled.
    Unanswered,
}

/// The consent helper, if there is one to run.
#[derive(Debug)]
pub struct Prompter {
    helper: Option<String>,
}

/// The helper's file name on platform `p`.
pub open spec fn helper_name(p: Platform) -> Seq<char> {
    if p == Platform::Windows {
        "mcp-locator-consent.exe"@
    } else {
        "mcp-locator-consent"@
    }
}

impl Prompter {
    pub closed spec fn helper_spec(&self) -> Option<Seq<char>> {
        match self.helper {
            Some(h) => Some(h@),
            None => None,
        }
    }

    /// Locate the helper next to the broker's executable (`exe_dir` is its directory).
    /// Deliberately not a PATH lookup: PATH is writable by the user, and a consent dialog is
    /// exactly the thing worth impersonating. `MCP_LOCATOR_NO_PROMPT` switches prompting off.
    /// `is_file` says whether a path is a regular file.
    pub fn discover<F: Fn(&str) -> bool>(p: Platform, env: &Env, exe_dir: Option<&str>, is_file: &F) -> (r: Prompter)
        requires
            forall|x: &str| is_file.requires((x,)),
        ensures
            env.get_spec("MCP_LOCATOR_NO_PROMPT"@) is Some ==> r.helper_spec() is None,
            env.get_spec("MCP_LOCATOR_NO_PROMPT"@) is None ==> match r.helper_spec() {
                Some(h) => exe_dir matches Some(d) && h == join_path(p, d@, helper_name(p)) && crate::catalog::reported(
                    *is_file,
                    h,
                    true,
                ),
                None => exe_dir is None || crate::catalog::reported(
                    *is_file,
                    join_path(p, exe_dir.unwrap()@, helper_name(p)),
                    false,
                ),
            },
    {
        proof {
            reveal_strlit("MCP_LOCATOR_NO_PROMPT");
            reveal_strlit("mcp-locator-consent.exe");
            reveal_strlit("mcp-locator-consent");
        }
        if env.lookup("MCP_LOCATOR_NO_PROMPT").is_some() {
            return Prompter { helper: None };
        }
        match exe_dir {
            None => Prompter { helper: None },
            Some(dir) => {
                let name = if p == Platform::Windows {
                    "mcp-locator-consent.exe"
                } else {
                    "mcp-locator-consent"
                };
                let candidate = join(p, dir, name);
                let present = is_file(candidate.as_str());
                assert(crate::catalog::reported(*is_file, candidate@, present));
                if present {
                    Prompter { helper: Some(candidate) }
                } else {
                    Prompter { helper: None }
                }
            },
        }
    }

    /// A prompter that never asks.
    pub fn disabled() -> (r: Prompter)
        ensures
            r.helper_spec() is None,
    {
        Prompter { helper: None }
    }

    pub fn available(&self) -> (r: bool)
        ensures
            r == self.helper_spec() is Some,
    {
        self.helper.is_some()
    }

    /// The helper to run, if any.
    pub fn helper(&self) -> (r: Option<String>)
        ensures
            match r {
                Some(h) => self.helper_spec() == Some(h@),
                None => self.helper_spec() is None,
            },
    {
        match &self.helper {
            Some(h) => Some(h.clone()),
            None => None,
        }
    }

    /// Whether a dialog may be raised for a client: there has to be a helper to run, and a
    /// client known to run at low integrity may not summon one (letting sandboxed code raise
    /// a prompt would turn the user's attention into an attack surface). `level` is the
    /// client's integrity level, when it could be read.
    pub fn may_prompt(&self, p: Platform, client_pid: Option<u32>, level: Option<u32>) -> (r: bool)
        ensures
            r == (self.helper_spec() is Some && !(client_pid is Some && p == Platform::Windows && (level matches Some(
                l,
            ) && l < MEDIUM_INTEGRITY))),
    {
        if self.helper.is_none() {
            return false;
        }
        match client_pid {
            Some(_) => !is_low_integrity(p, level),
            None => true,
        }
    }

    /// Whether a consent state is one the user should be asked about. `Denied` is not: the user
    /// already answered, and re-asking on every activation would train them to click through.
    pub fn should_ask(state: ConsentState) -> (r: bool)
        ensures
            r == (state == ConsentState::NotAsked || state == ConsentState::Stale),
    {
        state == ConsentState::NotAsked || state == ConsentState::Stale
    }
}

/// The answer an exit status of the helper stands for; anything but allow or deny (a crash, a
/// kill, a dismissed dialog) is no answer.
pub fn decision_from_exit(code: Option<i32>) -> (r: Decision)
    ensures
        r == match code {
            Some(c) => if c == ALLOW {
                Decision::Allow
            } else if c == DENY {
                Decision::Deny
            } else {
                Decision::Unanswered
            },
            None => Decision::Unanswered,
        },
{
    match code {
        Some(c) => if c == ALLOW {
            Decision::Allow
        } else if c == DENY {
            Decision::Deny
        } else {
            Decision::Unanswered
        },
        None => Decision::Unanswered,
    }
}

/// The consent state after the user was asked, and the audit event to record: an allow that
/// could not be written reads as not asked (a grant honoured in memory only would evaporate on
/// the next restart) and is not audited; no answer leaves the state as it was.
pub fn consent_after_prompt(decision: Decision, before: ConsentState, recorded: bool) -> (r: (ConsentState, Option<&'static str>))
    ensures
        match decision {
            Decision::Allow => if recorded {
                r.0 == ConsentState::Granted && (r.1 matches Some(e) && e@ == "consent-granted"@)
            } else {
                r.0 == ConsentState::NotAsked && r.1 is None
            },
            Decision::Deny => r.0 == ConsentState::Denied && (r.1 matches Some(e) && e@ == "consent-denied"@),
            Decision::Unanswered => r.0 == before && (r.1 matches Some(e) && e@ == "consent-unanswered"@),
        },
{
    match decision {
        Decision::Allow => if recorded {
            (ConsentState::Granted, Some("consent-granted"))
        } else {
            (ConsentState::NotAsked, None)
        },
        Decision::Deny => (ConsentState::Denied, Some("consent-denied")),
        Decision::Unanswered => (before, Some("consent-unanswered")),
    }
}

/// Whether `c` is white space (`char::is_whitespace`).
pub open spec fn is_white(c: char) -> bool {
    ||| c == ' '
    ||| ('\u{9}' <= c <= '\u{d}')
    ||| c == '\u{85}'
    ||| c == '\u{a0}'
    ||| c == '\u{1680}'
    ||| ('\u{2000}' <= c <= '\u{200a}')
    ||| c == '\u{2028}'
    ||| c == '\u{2029}'
    ||| c == '\u{202f}'
    ||| c == '\u{205f}'
    ||| c == '\u{3000}'
}

/// `s` without trailing white space.
pub open spec fn trim_end(s: Seq<char>) -> Seq<char>
    decreases s.len(),
{
    if s.len() > 0 && is_white(s.last()) {
        trim_end(s.drop_last())
    } else {
        s
    }
}

/// Pieces joined with single spaces.
pub open spec fn spaced(items: Seq<Seq<char>>) -> Seq<char>
    decreases items.len(),
{
    if items.len() == 0 {
        Seq::empty()
    } else if items.len() == 1 {
        items[0]
    } else {
        spaced(items.drop_last()) + " "@ + items.last()
    }
}

fn white(c: char) -> (r: bool)
    ensures
        r == is_white(c),
{
    c == ' ' || ('\u{9}' <= c && c <= '\u{d}') || c == '\u{85}' || c == '\u{a0}' || c == '\u{1680}' || ('\u{2000}'
        <= c && c <= '\u{200a}') || c == '\u{2028}' || c == '\u{2029}' || c == '\u{202f}' || c == '\u{205f}' || c
        == '\u{3000}'
}

/// The characters of `s` without trailing white space.
fn trimmed(s: Vec<char>) -> (r: String)
    ensures
        r@ == trim_end(s@),
{
    let mut s = s;
    let ghost orig = s@;
    while s.len() > 0 && white(s[s.len() - 1])
        invariant
            trim_end(s@) == trim_end(orig),
        decreases s@.len(),
    {
        let ghost before = s@;
        s.pop();
        assert(s@ =~= before.drop_last());
    }
    string_from_chars(s.as_slice())
}

fn push_spaced(out: &mut Vec<char>, items: &Vec<String>)
    ensures
        final(out)@ == old(out)@ + spaced(string_views(items@)),
{
    let ghost v = string_views(items@);
    let ghost start = out@;
    let mut i: usize = 0;
    proof {
        reveal_strlit(" ");
    }
    while i < items.len()
        invariant
            v == string_views(items@),
            i <= items@.len(),
            out@ == start + spaced(v.take(i as int)),
        decreases items@.len() - i,
    {
        assert(v.take(i + 1).drop_last() =~= v.take(i as int));
        assert(v[i as int] == items@[i as int]@);
        if i > 0 {
            push_str(out, " ");
        } else {
            assert(v.take(1)[0] == v[0]);
            assert(spaced(v.take(0)) =~= Seq::<char>::empty());
        }
        push_str(out, items[i].as_str());
        i = i + 1;
    }
    assert(v.take(items@.len() as int) =~= v);
}

/// The command line of a launch stanza as a person reads it: the command, then the arguments,
/// separated by spaces, without trailing white space.
pub open spec fn command_line(command: Seq<char>, args: Option<Seq<Seq<char>>>) -> Seq<char> {
    trim_end(command + " "@ + match args {
        Some(a) => spaced(a),
        None => Seq::empty(),
    })
}

pub open spec fn entry_args(l: crate::card::Launch) -> Option<Seq<Seq<char>>> {
    match l.args {
        Some(a) => Some(string_views(a@)),
        None => None,
    }
}

/// What a card starts, as the user sees it and as it is stored beside an approval: the
/// command line, or for a card without a launch stanza its endpoint address.
pub open spec fn launch_summary_spec(e: Entry) -> Seq<char> {
    match crate::activation::entry_launch(e) {
        Some(l) => command_line(l.command@, entry_args(l)),
        None => match crate::activation::entry_endpoint(e) {
            Some(ep) => ep.address@,
            None => "(no launch stanza)"@,
        },
    }
}

pub(crate) fn command_line_of(launch: &crate::card::Launch) -> (r: String)
    ensures
        r@ == command_line(launch.command@, entry_args(*launch)),
{
    let mut out: Vec<char> = Vec::new();
    push_str(&mut out, launch.command.as_str());
    push_str(&mut out, " ");
    proof {
        reveal_strlit(" ");
    }
    match &launch.args {
        Some(a) => push_spaced(&mut out, a),
        None => {},
    }
    trimmed(out)
}

/// The command line as the user would see it. This is also what gets stored alongside the
/// approval, so a later change can be shown as a before/after rather than two opaque hashes.
pub fn launch_summary(entry: &Entry) -> (r: String)
    ensures
        r@ == launch_summary_spec(*entry),
{
    match &entry.card.local {
        Some(l) => match &l.launch {
            Some(launch) => command_line_of(launch),
            None => match &l.endpoint {
                Some(ep) => ep.address.clone(),
                None => {
                    proof {
                        reveal_strlit("(no launch stanza)");
                    }
                    owned("(no launch stanza)")
                },
            },
        },
        None => {
            proof {
                reveal_strlit("(no launch stanza)");
            }
            owned("(no launch stanza)")
        },
    }
}

/// The consent summary a card gives, if any.
pub open spec fn consent_summary(e: Entry) -> Option<Seq<char>> {
    match e.card.local {
        Some(l) => match l.consent {
            Some(c) => match c.summary {
                Some(s) => Some(s@),
                None => None,
            },
            None => None,
        },
        None => None,
    }
}

/// How the requesting client is described: its image name and process id.
pub open spec fn client_label(name: Seq<char>, pid: u32) -> Seq<char> {
    name + " (pid "@ + crate::canonical::decimal(pid as nat) + ")"@
}

pub fn describe_client(name: &str, pid: u32) -> (r: String)
    ensures
        r@ == client_label(name@, pid),
{
    let mut out: Vec<char> = Vec::new();
    push_str(&mut out, name);
    push_str(&mut out, " (pid ");
    crate::canonical::push_decimal(&mut out, pid as u64);
    push_str(&mut out, ")");
    proof {
        reveal_strlit(" (pid ");
        reveal_strlit(")");
        assert(out@ =~= client_label(name@, pid));
    }
    string_from_chars(out.as_slice())
}

/// A flag and its value, when there is a value.
pub open spec fn opt_flag(flag: Seq<char>, value: Option<Seq<char>>) -> Seq<Seq<char>> {
    match value {
        Some(v) => seq![flag, v],
        None => Seq::empty(),
    }
}

/// The helper's arguments for asking about `entry`, whose consent currently reads `record`,
/// on behalf of `client` (already described).
pub open spec fn prompt_args_spec(e: Entry, record_state: ConsentState, previous: Option<Seq<char>>, client: Option<Seq<char>>) -> Seq<Seq<char>> {
    seq![
        "--name"@,
        e.name@,
        "--title"@,
        match e.card.title {
            Some(t) => t@,
            None => e.name@,
        },
        "--tier"@,
        tier_name(e.tier),
        "--card"@,
        e.path@,
        "--hash"@,
        e.launch_hash@,
    ] + opt_flag("--summary"@, consent_summary(e)) + seq!["--command"@, launch_summary_spec(e)] + opt_flag(
        "--client"@,
        client,
    ) + if record_state == ConsentState::Stale {
        seq!["--stale"@] + opt_flag("--previous"@, previous)
    } else {
        Seq::empty()
    }
}

fn push_flag(args: &mut Vec<String>, flag: &str, value: &str)
    ensures
        string_views(final(args)@) == string_views(old(args)@) + seq![flag@, value@],
{
    let ghost before = string_views(old(args)@);
    args.push(owned(flag));
    args.push(owned(value));
    assert(string_views(args@) =~= before + seq![flag@, value@]);
}

/// The helper's arguments for asking about `entry`.
pub fn prompt_args(entry: &Entry, record: &ConsentRecord, client: Option<String>) -> (r: Vec<String>)
    ensures
        string_views(r@) == prompt_args_spec(
            *entry,
            record.state,
            crate::consent::opt_chars(record.launch_command),
            crate::consent::opt_chars(client),
        ),
{
    proof {
        reveal_strlit("--name");
        reveal_strlit("--title");
        reveal_strlit("--tier");
        reveal_strlit("--card");
        reveal_strlit("--hash");
        reveal_strlit("--summary");
        reveal_strlit("--command");
        reveal_strlit("--client");
        reveal_strlit("--stale");
        reveal_strlit("--previous");
    }
    let mut args: Vec<String> = Vec::new();
    assert(string_views(args@) =~= Seq::<Seq<char>>::empty());
    push_flag(&mut args, "--name", entry.name.as_str());
    let title = match &entry.card.title {
        Some(t) => t.as_str(),
        None => entry.name.as_str(),
    };
    push_flag(&mut args, "--title", title);
    push_flag(&mut args, "--tier", entry.tier.name());
    push_flag(&mut args, "--card", entry.path.as_str());
    push_flag(&mut args, "--hash", entry.launch_hash.as_str());
    let ghost base = string_views(args@);
    let summary: Option<&String> = match &entry.card.local {
        Some(l) => match &l.consent {
            Some(c) => match &c.summary {
                Some(s) => Some(s),
                None => None,
            },
            None => None,
        },
        None => None,
    };
    if let Some(s) = summary {
        push_flag(&mut args, "--summary", s.as_str());
    }
    assert(string_views(args@) =~= base + opt_flag("--summary"@, consent_summary(*entry)));
    let command = launch_summary(entry);
    push_flag(&mut args, "--command", command.as_str());
    let ghost with_command = string_views(args@);
    if let Some(c) = &client {
        push_flag(&mut args, "--client", c.as_str());
    }
    assert(string_views(args@) =~= with_command + opt_flag("--client"@, crate::consent::opt_chars(client)));
    let ghost with_client = string_views(args@);
    if record.state == ConsentState::Stale {
        let ghost b = string_views(args@);
        args.push(owned("--stale"));
        assert(string_views(args@) =~= b + seq!["--stale"@]);
        if let Some(prev) = &record.launch_command {
            push_flag(&mut args, "--previous", prev.as_str());
        }
        assert(string_views(args@) =~= with_client + (seq!["--stale"@] + opt_flag(
            "--previous"@,
            crate::consent::opt_chars(record.launch_command),
        )));
    } else {
        assert(string_views(args@) =~= with_client + Seq::<Seq<char>>::empty());
    }
    assert(string_views(args@) =~= prompt_args_spec(
        *entry,
        record.state,
        crate::consent::opt_chars(record.launch_command),
        crate::consent::opt_chars(client),
    ));
    args
}

/// Integrity level of an ordinary user process (`SECURITY_MANDATORY_MEDIUM_RID`). Below it is
/// AppContainer, Low, or Untrusted: sandboxes, which may register but never prompt.
pub const MEDIUM_INTEGRITY: u32 = 0x2000;

/// Whether a client whose token reports integrity level `level` (`None` when it could not be
/// read) is low-integrity. An unreadable token is not evidence of low integrity (a protected
/// or already-exited process reads the same way), so it does not count. Integrity levels are a
/// Windows concept; elsewhere nothing is low-integrity.
pub fn is_low_integrity(p: Platform, level: Option<u32>) -> (r: bool)
    ensures
        r == (p == Platform::Windows && (level matches Some(l) && l < MEDIUM_INTEGRITY)),
{
    if p != Platform::Windows {
        return false;
    }
    match level {
        Some(l) => l < MEDIUM_INTEGRITY,
        None => false,
    }
}

/// The last component of a path, splitting at `\` and `/`.
pub open spec fn base_name(path: Seq<char>) -> Seq<char>
    decreases path.len(),
{
    if path.len() == 0 {
        path
    } else if path.last() == '\\' || path.last() == '/' {
        Seq::empty()
    } else {
        base_name(path.drop_last()).push(path.last())
    }
}

/// The file name of a running image from its full path, for the "requested by" line.
pub fn image_name(path: &str) -> (r: String)
    ensures
        r@ == base_name(path@),
{
    let cs = crate::text::chars_of(path);
    let mut start: usize = 0;
    let mut i: usize = 0;
    while i < cs.len()
        invariant
            cs@ == path@,
            i <= cs@.len(),
            start <= i,
            base_name(cs@.take(i as int)) == cs@.subrange(start as int, i as int),
        decreases cs@.len() - i,
    {
        assert(cs@.take(i + 1).drop_last() =~= cs@.take(i as int));
        if cs[i] == '\\' || cs[i] == '/' {
            start = i + 1;
            assert(cs@.subrange(start as int, i + 1) =~= Seq::<char>::empty());
        } else {
            assert(cs@.subrange(start as int, i + 1) =~= cs@.subrange(start as int, i as int).push(cs@[i as int]));
        }
        i = i + 1;
    }
    assert(cs@.take(cs@.len() as int) =~= cs@);
    let mut out: Vec<char> = Vec::new();
    let mut k: usize = start;
    while k < cs.len()
        invariant
            start <= k <= cs@.len(),
            out@ == cs@.subrange(start as int, k as int),
        decreases cs@.len() - k,
    {
        out.push(cs[k]);
        assert(out@ =~= cs@.subrange(start as int, k + 1));
        k = k + 1;
    }
    string_from_chars(out.as_slice())
}

} // verus!
