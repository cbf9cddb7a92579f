//! The consent prompt's request.
//!
//! The prompt is a separate executable rather than a dialog inside the broker: the broker is a
//! headless service that must keep answering other clients while a human decides, and the
//! split makes the trust story checkable. The helper is launched by the broker alone, with
//! everything it shows given as arguments, and its answer travels back as an exit code; there
//! is no input an AI client can supply that reaches it. Here is what it is asked and what it
//! says; drawing the dialog is the caller's part.

use crate::text::{owned, push_str, string_from_chars, string_views};
use vstd::prelude::*;

verus! {

/// Exit code: allow.
pub const ALLOW: i32 = 10;
/// Exit code: deny.
pub const DENY: i32 = 20;
/// Exit code: dismissed, no decision.
pub const DISMISSED: i32 = 30;
/// Exit code: usage error.
pub const USAGE: i32 = 2;
/// Exit code: no interactive prompt available on this platform.
pub const UNSUPPORTED: i32 = 3;

/// The dialog's button that allows.
pub const ALLOW_BUTTON: i32 = 101;
/// The dialog's button that denies; it is the default, so a stray Enter does not approve.
pub const DENY_BUTTON: i32 = 102;

/// The exit code for a dialog that returned `hr` with `button` pressed: the failure code when
/// the dialog could not be shown, otherwise allow, deny, or dismissed for anything else (the
/// cancel button, closing the window).
pub fn dialog_outcome(hr: i32, button: i32) -> (r: Result<i32, i32>)
    ensures
        r == (if hr < 0 {
            Err(hr)
        } else if button == ALLOW_BUTTON {
            Ok(ALLOW)
        } else if button == DENY_BUTTON {
            Ok(DENY)
        } else {
            Ok(DISMISSED)
        }),
{
    if hr < 0 {
        Err(hr)
    } else if button == ALLOW_BUTTON {
        Ok(ALLOW)
    } else if button == DENY_BUTTON {
        Ok(DENY)
    } else {
        Ok(DISMISSED)
    }
}

/// Everything the dialog shows. The broker fills this in from the card and the connection;
/// none of it is supplied by the client asking for activation.
#[derive(Debug)]
pub struct Request {
    pub name: String,
    pub title: String,
    pub summary: String,
    pub command: String,
    pub tier: String,
    pub publisher: String,
    pub client: String,
    pub card: String,
    pub hash: String,
    pub stale: bool,
    pub previous: String,
}

pub struct RequestV {
    pub name: Seq<char>,
    pub title: Seq<char>,
    pub summary: Seq<char>,
    pub command: Seq<char>,
    pub tier: Seq<char>,
    pub publisher: Seq<char>,
    pub client: Seq<char>,
    pub card: Seq<char>,
    pub hash: Seq<char>,
    pub stale: bool,
    pub previous: Seq<char>,
}

impl Request {
    pub open spec fn view(self) -> RequestV {
        RequestV {
            name: self.name@,
            title: self.title@,
            summary: self.summary@,
            command: self.command@,
            tier: self.tier@,
            publisher: self.publisher@,
            client: self.client@,
            card: self.card@,
            hash: self.hash@,
            stale: self.stale,
            previous: self.previous@,
        }
    }
}

pub open spec fn empty_request() -> RequestV {
    RequestV {
        name: Seq::empty(),
        title: Seq::empty(),
        summary: Seq::empty(),
        command: Seq::empty(),
        tier: Seq::empty(),
        publisher: Seq::empty(),
        client: Seq::empty(),
        card: Seq::empty(),
        hash: Seq::empty(),
        stale: false,
        previous: Seq::empty(),
    }
}

impl Default for Request {
    fn default() -> (r: Request)
        ensures
            r@ == empty_request(),
    {
        Request {
            name: String::new(),
            title: String::new(),
            summary: String::new(),
            command: String::new(),
            tier: String::new(),
            publisher: String::new(),
            client: String::new(),
            card: String::new(),
            hash: String::new(),
            stale: false,
            previous: String::new(),
        }
    }
}

/// The request with the field a flag names set to `value`; `None` for an unknown flag.
pub open spec fn with_flag(r: RequestV, flag: Seq<char>, value: Seq<char>) -> Option<RequestV> {
    if flag == "--name"@ {
        Some(RequestV { name: value, ..r })
    } else if flag == "--title"@ {
        Some(RequestV { title: value, ..r })
    } else if flag == "--summary"@ {
        Some(RequestV { summary: value, ..r })
    } else if flag == "--command"@ {
        Some(RequestV { command: value, ..r })
    } else if flag == "--tier"@ {
        Some(RequestV { tier: value, ..r })
    } else if flag == "--publisher"@ {
        Some(RequestV { publisher: value, ..r })
    } else if flag == "--client"@ {
        Some(RequestV { client: value, ..r })
    } else if flag == "--card"@ {
        Some(RequestV { card: value, ..r })
    } else if flag == "--hash"@ {
        Some(RequestV { hash: value, ..r })
    } else if flag == "--previous"@ {
        Some(RequestV { previous: value, ..r })
    } else {
        None
    }
}

/// A request read from arguments `args[i..]` into `acc`: `--stale` stands alone, every other
/// flag takes the next argument as its value. A request must name its server; an untitled one
/// is titled with its name.
pub open spec fn parse_from(args: Seq<Seq<char>>, i: int, acc: RequestV) -> Result<RequestV, Seq<char>>
    decreases args.len() - i,
{
    if i >= args.len() {
        if acc.name.len() == 0 {
            Err("--name is required"@)
        } else if acc.title.len() == 0 {
            Ok(RequestV { title: acc.name, ..acc })
        } else {
            Ok(acc)
        }
    } else if args[i] == "--stale"@ {
        parse_from(args, i + 1, RequestV { stale: true, ..acc })
    } else if i + 1 >= args.len() {
        Err(args[i] + " needs a value"@)
    } else {
        match with_flag(acc, args[i], args[i + 1]) {
            Some(next) => parse_from(args, i + 2, next),
            None => Err("unknown flag "@ + args[i]),
        }
    }
}

impl Request {
    fn set_flag(&mut self, flag: &str, value: &String) -> (known: bool)
        ensures
            known == with_flag(old(self)@, flag@, value@) is Some,
            known ==> with_flag(old(self)@, flag@, value@) == Some(final(self)@),
            !known ==> final(self)@ == old(self)@,
    {
        proof {
            reveal_strlit("--name");
            reveal_strlit("--title");
            reveal_strlit("--summary");
            reveal_strlit("--command");
            reveal_strlit("--tier");
            reveal_strlit("--publisher");
            reveal_strlit("--client");
            reveal_strlit("--card");
            reveal_strlit("--hash");
            reveal_strlit("--previous");
        }
        let v = value.clone();
        if crate::json::str_eq(flag, "--name") {
            self.name = v;
        } else if crate::json::str_eq(flag, "--title") {
            self.title = v;
        } else if crate::json::str_eq(flag, "--summary") {
            self.summary = v;
        } else if crate::json::str_eq(flag, "--command") {
            self.command = v;
        } else if crate::json::str_eq(flag, "--tier") {
            self.tier = v;
        } else if crate::json::str_eq(flag, "--publisher") {
            self.publisher = v;
        } else if crate::json::str_eq(flag, "--client") {
            self.client = v;
        } else if crate::json::str_eq(flag, "--card") {
            self.card = v;
        } else if crate::json::str_eq(flag, "--hash") {
            self.hash = v;
        } else if crate::json::str_eq(flag, "--previous") {
            self.previous = v;
        } else {
            return false;
        }
        true
    }

    /// Read a request from the helper's arguments.
    pub fn parse(args: &Vec<String>) -> (r: Result<Request, String>)
        ensures
            match r {
                Ok(req) => parse_from(string_views(args@), 0, empty_request()) == Ok::<RequestV, Seq<char>>(req@),
                Err(e) => parse_from(string_views(args@), 0, empty_request()) == Err::<RequestV, Seq<char>>(e@),
            },
    {
        proof {
            reveal_strlit("--stale");
            reveal_strlit(" needs a value");
            reveal_strlit("unknown flag ");
            reveal_strlit("--name is required");
        }
        let ghost av = string_views(args@);
        let mut req = Request::default();
        let mut i: usize = 0;
        while i < args.len()
            invariant
                av == string_views(args@),
                i <= args@.len(),
                parse_from(av, i as int, req@) == parse_from(av, 0, empty_request()),
            decreases args@.len() - i,
        {
            assert(av[i as int] == args@[i as int]@);
            let flag = args[i].as_str();
            if crate::json::str_eq(flag, "--stale") {
                req.stale = true;
                i = i + 1;
            } else if i + 1 >= args.len() {
                return Err(crate::text::concat(flag, " needs a value"));
            } else {
                assert(av[i + 1] == args@[i + 1]@);
                let known = req.set_flag(flag, &args[i + 1]);
                if !known {
                    return Err(crate::text::concat("unknown flag ", flag));
                }
                i = i + 2;
            }
        }
        if req.name.as_str().is_empty() {
            return Err(owned("--name is required"));
        }
        if req.title.as_str().is_empty() {
            req.title = req.name.clone();
        }
        Ok(req)
    }
}

pub open spec fn instruction_spec(r: RequestV) -> Seq<char> {
    if r.stale {
        "\""@ + r.title + "\" has changed since you allowed it"@
    } else {
        "Allow AI clients to use \""@ + r.title + "\"?"@
    }
}

pub open spec fn when_set(value: Seq<char>, text: Seq<char>) -> Seq<char> {
    if value.len() > 0 {
        text
    } else {
        Seq::empty()
    }
}

pub open spec fn content_spec(r: RequestV) -> Seq<char> {
    (if r.stale {
        "The program it starts is not the one you approved. That can mean an update, or that something replaced it.\n\n"@
            + when_set(r.previous, "Was:  "@ + r.previous + "\n"@) + "Now:  "@ + r.command + "\n\n"@
    } else {
        Seq::empty()
    }) + when_set(r.summary, r.summary + "\n\n"@) + when_set(r.client, "Requested by "@ + r.client + ".\n"@)
        + "Allowing this applies to every AI client on this machine until you revoke it."@
}

pub open spec fn expanded_spec(r: RequestV) -> Seq<char> {
    (if !r.stale {
        when_set(r.command, "Starts:  "@ + r.command + "\n"@)
    } else {
        Seq::empty()
    }) + when_set(r.card, "Registered by:  "@ + r.card + "\n"@) + when_set(r.tier, "Trust tier:  "@ + r.tier + "\n"@)
        + when_set(r.publisher, "Publisher:  "@ + r.publisher + "\n"@) + when_set(r.hash, "Bound to:  "@ + r.hash + "\n"@)
        + "Identifier:  "@ + r.name
}

pub open spec fn footer_spec(r: RequestV) -> Seq<char> {
    if r.tier == "system"@ || r.tier == "package"@ {
        Seq::empty()
    } else if r.tier == "low"@ {
        "Registered by a sandboxed program, the least trusted source."@
    } else {
        "Any program running as you can register a server here."@
    }
}

/// Append `label`, `value` and `end` when `value` is not empty.
fn push_when(out: &mut Vec<char>, value: &str, label: &str, end: &str)
    ensures
        final(out)@ == old(out)@ + when_set(value@, label@ + value@ + end@),
{
    if !value.is_empty() {
        push_str(out, label);
        push_str(out, value);
        push_str(out, end);
        assert(final(out)@ =~= old(out)@ + (label@ + value@ + end@));
    } else {
        assert(final(out)@ =~= old(out)@ + Seq::<char>::empty());
    }
}

impl Request {
    /// The heading. A stale record is a different question from a first approval: the user
    /// already said yes once, so the prompt leads with what changed.
    pub fn instruction(&self) -> (r: String)
        ensures
            r@ == instruction_spec(self@),
    {
        let mut out: Vec<char> = Vec::new();
        if self.stale {
            push_str(&mut out, "\"");
            push_str(&mut out, self.title.as_str());
            push_str(&mut out, "\" has changed since you allowed it");
            proof {
                reveal_strlit("\"");
                reveal_strlit("\" has changed since you allowed it");
            }
        } else {
            push_str(&mut out, "Allow AI clients to use \"");
            push_str(&mut out, self.title.as_str());
            push_str(&mut out, "\"?");
            proof {
                reveal_strlit("Allow AI clients to use \"");
                reveal_strlit("\"?");
            }
        }
        string_from_chars(out.as_slice())
    }

    /// The body: what changed (for a stale record), the card's own summary, who asked, and
    /// what allowing means.
    pub fn content(&self) -> (r: String)
        ensures
            r@ == content_spec(self@),
    {
        let mut out: Vec<char> = Vec::new();
        if self.stale {
            push_str(
                &mut out,
                "The program it starts is not the one you approved. That can mean an update, or that something replaced it.\n\n",
            );
            push_when(&mut out, self.previous.as_str(), "Was:  ", "\n");
            push_str(&mut out, "Now:  ");
            push_str(&mut out, self.command.as_str());
            push_str(&mut out, "\n\n");
        }
        let ghost first = out@;
        push_when(&mut out, self.summary.as_str(), "", "\n\n");
        push_when(&mut out, self.client.as_str(), "Requested by ", ".\n");
        push_str(&mut out, "Allowing this applies to every AI client on this machine until you revoke it.");
        proof {
            reveal_strlit(
                "The program it starts is not the one you approved. That can mean an update, or that something replaced it.\n\n",
            );
            reveal_strlit("Was:  ");
            reveal_strlit("\n");
            reveal_strlit("Now:  ");
            reveal_strlit("\n\n");
            reveal_strlit("");
            reveal_strlit("Requested by ");
            reveal_strlit(".\n");
            reveal_strlit("Allowing this applies to every AI client on this machine until you revoke it.");
            assert(""@ + self.summary@ + "\n\n"@ =~= self.summary@ + "\n\n"@);
            assert(out@ =~= content_spec(self@));
        }
        string_from_chars(out.as_slice())
    }

    /// The detail a suspicious user needs, behind the expander: what runs, which file asked
    /// for it, its tier, its publisher, the hash it is bound to, and the identifier. Laid out
    /// with spaces rather than tabs, which the dialog's expanded area does not render.
    pub fn expanded(&self) -> (r: String)
        ensures
            r@ == expanded_spec(self@),
    {
        let mut out: Vec<char> = Vec::new();
        if !self.stale {
            push_when(&mut out, self.command.as_str(), "Starts:  ", "\n");
        }
        push_when(&mut out, self.card.as_str(), "Registered by:  ", "\n");
        push_when(&mut out, self.tier.as_str(), "Trust tier:  ", "\n");
        push_when(&mut out, self.publisher.as_str(), "Publisher:  ", "\n");
        push_when(&mut out, self.hash.as_str(), "Bound to:  ", "\n");
        push_str(&mut out, "Identifier:  ");
        push_str(&mut out, self.name.as_str());
        proof {
            reveal_strlit("Starts:  ");
            reveal_strlit("\n");
            reveal_strlit("Registered by:  ");
            reveal_strlit("Trust tier:  ");
            reveal_strlit("Publisher:  ");
            reveal_strlit("Bound to:  ");
            reveal_strlit("Identifier:  ");
            assert(out@ =~= expanded_spec(self@));
        }
        string_from_chars(out.as_slice())
    }

    /// A `user`-tier card was written by anything running as this user, which includes anything
    /// the user ever ran by accident. Say so, rather than presenting every registration as
    /// equally vouched-for.
    pub fn footer(&self) -> (r: String)
        ensures
            r@ == footer_spec(self@),
    {
        proof {
            reveal_strlit("system");
            reveal_strlit("package");
            reveal_strlit("low");
            reveal_strlit("Registered by a sandboxed program, the least trusted source.");
            reveal_strlit("Any program running as you can register a server here.");
        }
        let tier = self.tier.as_str();
        if crate::json::str_eq(tier, "system") || crate::json::str_eq(tier, "package") {
            String::new()
        } else if crate::json::str_eq(tier, "low") {
            owned("Registered by a sandboxed program, the least trusted source.")
        } else {
            owned("Any program running as you can register a server here.")
        }
    }
}

} // verus!
