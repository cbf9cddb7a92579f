//! Creating the registry and state directories with the right permissions.
//!
//! There is one implementation of the rule, reachable three ways: the installer runs it
//! elevated at install time, the broker runs the per-user half on every start, and a person can
//! run it by hand to check or repair a machine. Creating directories and running `icacls` is
//! the caller's part; which directories, which permissions, and what the report says are here.
//!
//! Permissions are applied with `icacls` rather than the security APIs directly, so the ACLs
//! are exactly what an administrator would type and can be read back with the same tool.
//! Well-known SIDs are used throughout instead of account names, because `Administrators` and
//! `Users` are localized and this has to work on a machine in any language.

use crate::dirs::{first_set, resolve_roots, resolve_state_dir, roots_spec, state_dir_spec, Platform, Root, Tier};
use crate::env::Env;
use crate::text::{owned, push_str, string_from_chars, string_views};
use vstd::prelude::*;

verus! {


/// What was done, and what failed.
#[derive(Debug)]
pub struct Report {
    pub steps: Vec<String>,
    pub failures: Vec<String>,
}

impl Report {
    pub fn new() -> (r: Report)
        ensures
            r.steps@.len() == 0,
            r.failures@.len() == 0,
    {
        Report { steps: Vec::new(), failures: Vec::new() }
    }

    pub fn ok(&mut self, message: String)
        ensures
            final(self).steps@ == old(self).steps@.push(message),
            final(self).failures@ == old(self).failures@,
    {
        self.steps.push(message);
    }

    pub fn fail(&mut self, message: String)
        ensures
            final(self).failures@ == old(self).failures@.push(message),
            final(self).steps@ == old(self).steps@,
    {
        self.failures.push(message);
    }
}

/// A directory to create, and the integrity label to give it (with why) when it is new.
#[derive(Debug)]
pub struct Target {
    pub path: String,
    pub label: Option<(String, String)>,
}

/// The system-tier registry directory of a platform: the first system root.
pub open spec fn system_dir_spec(p: Platform, env: Env) -> Option<Seq<char>> {
    first_system(roots_spec(p, env))
}

pub open spec fn first_system(roots: Seq<(Tier, Seq<char>)>) -> Option<Seq<char>>
    decreases roots.len(),
{
    if roots.len() == 0 {
        None
    } else {
        match first_system(roots.drop_last()) {
            Some(d) => Some(d),
            None => if roots.last().0 == Tier::System {
                Some(roots.last().1)
            } else {
                None
            },
        }
    }
}

/// Machine-wide setup's directory: the system-tier registry, writable only by administrators.
/// This is the directory whose contents the client library trusts enough to launch the broker
/// from, so "only administrators can write here" is the property the bootstrap rests on.
pub fn system_dir(p: Platform, env: &Env) -> (r: Option<String>)
    ensures
        match r {
            Some(d) => system_dir_spec(p, *env) == Some(d@),
            None => system_dir_spec(p, *env) is None,
        },
{
    let roots = resolve_roots(p, env);
    let ghost rv = crate::dirs::roots_view(roots@);
    let mut i: usize = 0;
    while i < roots.len()
        invariant
            rv == crate::dirs::roots_view(roots@),
            rv == roots_spec(p, *env),
            i <= roots@.len(),
            first_system(rv.take(i as int)) is None,
        decreases roots@.len() - i,
    {
        assert(rv.take(i + 1).drop_last() =~= rv.take(i as int));
        assert(rv[i as int] == (roots@[i as int].tier, roots@[i as int].path@));
        if roots[i].tier == Tier::System {
            proof {
                lemma_first_system_extend(rv, i + 1);
            }
            return Some(roots[i].path.clone());
        }
        i = i + 1;
    }
    assert(rv.take(roots@.len() as int) =~= rv);
    None
}

proof fn lemma_first_system_extend(roots: Seq<(Tier, Seq<char>)>, n: int)
    requires
        0 <= n <= roots.len(),
        first_system(roots.take(n)) is Some,
    ensures
        first_system(roots) == first_system(roots.take(n)),
    decreases roots.len() - n,
{
    if n < roots.len() {
        assert(roots.take(n + 1).drop_last() =~= roots.take(n));
        lemma_first_system_extend(roots, n + 1);
    } else {
        assert(roots.take(n) =~= roots);
    }
}

/// The `icacls` arguments for the system-tier registry: full control for SYSTEM (`*S-1-5-18`)
/// and Administrators (`*S-1-5-32-544`), read for Authenticated Users (`*S-1-5-11`, which
/// includes low-integrity processes, which must still be able to read the catalog) and for ALL
/// APPLICATION PACKAGES (`*S-1-15-2-1`). `/inheritance:r` is the load-bearing part: the parent's
/// ACL grants users the right to create things, and without cutting inheritance a directory
/// under it can end up writable by the account it protects against.
pub open spec fn machine_acl_spec() -> Seq<Seq<char>> {
    seq![
        "/inheritance:r"@,
        "/grant:r"@,
        "*S-1-5-18:(OI)(CI)F"@,
        "/grant:r"@,
        "*S-1-5-32-544:(OI)(CI)F"@,
        "/grant:r"@,
        "*S-1-5-11:(OI)(CI)RX"@,
        "/grant:r"@,
        "*S-1-15-2-1:(OI)(CI)RX"@,
    ]
}

pub const MACHINE_INTENT: &'static str = "system-tier registry: administrators write, everyone reads";

pub fn machine_acl_args() -> (r: Vec<String>)
    ensures
        string_views(r@) == machine_acl_spec(),
{
    let mut v: Vec<String> = Vec::new();
    v.push(owned("/inheritance:r"));
    v.push(owned("/grant:r"));
    v.push(grant_text("*S-1-5-18", ":(OI)(CI)F"));
    v.push(owned("/grant:r"));
    v.push(grant_text("*S-1-5-32-544", ":(OI)(CI)F"));
    v.push(owned("/grant:r"));
    v.push(grant_text("*S-1-5-11", ":(OI)(CI)RX"));
    v.push(owned("/grant:r"));
    v.push(grant_text("*S-1-15-2-1", ":(OI)(CI)RX"));
    proof {
        reveal_strlit("/inheritance:r");
        reveal_strlit("/grant:r");
        reveal_strlit("*S-1-5-18");
        reveal_strlit("*S-1-5-32-544");
        reveal_strlit("*S-1-5-11");
        reveal_strlit("*S-1-15-2-1");
        reveal_strlit(":(OI)(CI)F");
        reveal_strlit(":(OI)(CI)RX");
        reveal_strlit("*S-1-5-18:(OI)(CI)F");
        reveal_strlit("*S-1-5-32-544:(OI)(CI)F");
        reveal_strlit("*S-1-5-11:(OI)(CI)RX");
        reveal_strlit("*S-1-15-2-1:(OI)(CI)RX");
        assert("*S-1-5-18"@ + ":(OI)(CI)F"@ =~= "*S-1-5-18:(OI)(CI)F"@);
        assert("*S-1-5-32-544"@ + ":(OI)(CI)F"@ =~= "*S-1-5-32-544:(OI)(CI)F"@);
        assert("*S-1-5-11"@ + ":(OI)(CI)RX"@ =~= "*S-1-5-11:(OI)(CI)RX"@);
        assert("*S-1-15-2-1"@ + ":(OI)(CI)RX"@ =~= "*S-1-15-2-1:(OI)(CI)RX"@);
        assert(string_views(v@) =~= machine_acl_spec());
    }
    v
}

fn grant_text(sid: &str, rights: &str) -> (r: String)
    ensures
        r@ == sid@ + rights@,
{
    crate::text::concat(sid, rights)
}

/// Per-user setup's directories: the registry roots other than the system and package tiers,
/// then the broker's state directory. On Windows a new low-tier registry gets the Low label
/// (the one place a sandboxed process may register) and a new state directory the Medium label
/// (a low-integrity process that could write the consent store could approve servers on the
/// user's behalf).
pub open spec fn user_targets_spec(p: Platform, env: Env) -> Seq<(Seq<char>, Option<(Seq<char>, Seq<char>)>)> {
    user_roots(p, roots_spec(p, env)).push(
        (
            state_dir_spec(p, env),
            if p == Platform::Windows {
                Some(("(OI)(CI)Medium"@, "broker state: not writable from a sandbox"@))
            } else {
                None
            },
        ),
    )
}

pub open spec fn user_roots(p: Platform, roots: Seq<(Tier, Seq<char>)>) -> Seq<(Seq<char>, Option<(Seq<char>, Seq<char>)>)>
    decreases roots.len(),
{
    if roots.len() == 0 {
        Seq::empty()
    } else {
        let rest = user_roots(p, roots.drop_last());
        let r = roots.last();
        if r.0 == Tier::System || r.0 == Tier::Package {
            rest
        } else {
            rest.push(
                (
                    r.1,
                    if p == Platform::Windows && r.0 == Tier::Low {
                        Some(("(OI)(CI)Low"@, "low-tier registry: writable by sandboxed processes"@))
                    } else {
                        None
                    },
                ),
            )
        }
    }
}

pub open spec fn targets_view(t: Seq<Target>) -> Seq<(Seq<char>, Option<(Seq<char>, Seq<char>)>)> {
    t.map_values(
        |x: Target|
            (
                x.path@,
                match x.label {
                    Some(l) => Some((l.0@, l.1@)),
                    None => None,
                },
            ),
    )
}

/// The directories per-user setup creates, in order.
pub fn user_targets(p: Platform, env: &Env) -> (r: Vec<Target>)
    ensures
        targets_view(r@) == user_targets_spec(p, *env),
{
    proof {
        reveal_strlit("(OI)(CI)Low");
        reveal_strlit("low-tier registry: writable by sandboxed processes");
        reveal_strlit("(OI)(CI)Medium");
        reveal_strlit("broker state: not writable from a sandbox");
    }
    let roots = resolve_roots(p, env);
    let ghost rv = crate::dirs::roots_view(roots@);
    let mut out: Vec<Target> = Vec::new();
    let mut i: usize = 0;
    assert(targets_view(out@) =~= user_roots(p, rv.take(0)));
    while i < roots.len()
        invariant
            rv == crate::dirs::roots_view(roots@),
            rv == roots_spec(p, *env),
            i <= roots@.len(),
            targets_view(out@) == user_roots(p, rv.take(i as int)),
        decreases roots@.len() - i,
    {
        assert(rv.take(i + 1).drop_last() =~= rv.take(i as int));
        assert(rv.take(i + 1).last() == (roots@[i as int].tier, roots@[i as int].path@));
        let tier = roots[i].tier;
        if !(tier == Tier::System || tier == Tier::Package) {
            let label = if p == Platform::Windows && tier == Tier::Low {
                Some((owned("(OI)(CI)Low"), owned("low-tier registry: writable by sandboxed processes")))
            } else {
                None
            };
            let ghost before = targets_view(out@);
            out.push(Target { path: roots[i].path.clone(), label });
            assert(targets_view(out@) =~= user_roots(p, rv.take(i + 1)));
        }
        i = i + 1;
    }
    assert(rv.take(roots@.len() as int) =~= rv);
    let label = if p == Platform::Windows {
        Some((owned("(OI)(CI)Medium"), owned("broker state: not writable from a sandbox")))
    } else {
        None
    };
    let ghost before = targets_view(out@);
    out.push(Target { path: resolve_state_dir(p, env), label });
    assert(targets_view(out@) =~= user_targets_spec(p, *env));
    out
}

pub open spec fn created_message(path: Seq<char>) -> Seq<char> {
    "created "@ + path
}

pub open spec fn create_failed_message(path: Seq<char>, error: Seq<char>) -> Seq<char> {
    "create "@ + path + ": "@ + error
}

/// Record the creation of directory `path`, which was missing before when `fresh`; `created`
/// is the outcome of creating it. Returns whether it is new and so should get its label: the
/// permission calls only fire when a directory was missing, which keeps per-user setup cheap
/// and idempotent and never clobbers an administrator's deliberate change.
pub fn record_created(report: &mut Report, path: &str, fresh: bool, created: Result<(), String>) -> (r: bool)
    ensures
        match created {
            Err(e) => !r && final(report).failures@.len() == old(report).failures@.len() + 1
                && final(report).failures@.last()@ == create_failed_message(path@, e@)
                && final(report).failures@.drop_last() == old(report).failures@
                && final(report).steps@ == old(report).steps@,
            Ok(_) => if fresh {
                r && final(report).steps@.len() == old(report).steps@.len() + 1 && final(report).steps@.last()@
                    == created_message(path@) && final(report).steps@.drop_last() == old(report).steps@
                    && final(report).failures@ == old(report).failures@
            } else {
                !r && final(report).steps@ == old(report).steps@ && final(report).failures@ == old(report).failures@
            },
        },
{
    proof {
        reveal_strlit("create ");
        reveal_strlit(": ");
        reveal_strlit("created ");
    }
    match created {
        Err(e) => {
            let mut m: Vec<char> = Vec::new();
            push_str(&mut m, "create ");
            push_str(&mut m, path);
            push_str(&mut m, ": ");
            push_str(&mut m, e.as_str());
            let ghost before = report.failures@;
            report.fail(string_from_chars(m.as_slice()));
            assert(report.failures@.drop_last() =~= before);
            false
        },
        Ok(_) => {
            if !fresh {
                return false;
            }
            let ghost before = report.steps@;
            report.ok(crate::text::concat("created ", path));
            assert(report.steps@.drop_last() =~= before);
            true
        },
    }
}

pub open spec fn acl_ok_message(intent: Seq<char>, path: Seq<char>) -> Seq<char> {
    intent + " ("@ + path + ")"@
}

pub open spec fn acl_failed_message(path: Seq<char>, error: Seq<char>) -> Seq<char> {
    "icacls "@ + path + ": "@ + error
}

/// Record the outcome of an `icacls` run on `path` meant to achieve `intent`: what it printed
/// on failure (already trimmed), or nothing.
pub fn record_acl(report: &mut Report, path: &str, intent: &str, outcome: Result<(), String>)
    ensures
        match outcome {
            Ok(_) => final(report).steps@.len() == old(report).steps@.len() + 1 && final(report).steps@.last()@
                == acl_ok_message(intent@, path@) && final(report).steps@.drop_last() == old(report).steps@
                && final(report).failures@ == old(report).failures@,
            Err(e) => final(report).failures@.len() == old(report).failures@.len() + 1
                && final(report).failures@.last()@ == acl_failed_message(path@, e@)
                && final(report).failures@.drop_last() == old(report).failures@
                && final(report).steps@ == old(report).steps@,
        },
{
    proof {
        reveal_strlit(" (");
        reveal_strlit(")");
        reveal_strlit("icacls ");
        reveal_strlit(": ");
    }
    let mut m: Vec<char> = Vec::new();
    match outcome {
        Ok(_) => {
            push_str(&mut m, intent);
            push_str(&mut m, " (");
            push_str(&mut m, path);
            push_str(&mut m, ")");
            let ghost before = report.steps@;
            report.ok(string_from_chars(m.as_slice()));
            assert(report.steps@.drop_last() =~= before);
        },
        Err(e) => {
            push_str(&mut m, "icacls ");
            push_str(&mut m, path);
            push_str(&mut m, ": ");
            push_str(&mut m, e.as_str());
            let ghost before = report.failures@;
            report.fail(string_from_chars(m.as_slice()));
            assert(report.failures@.drop_last() =~= before);
        },
    }
}

/// An outcome of an outside step, as plain values.
pub open spec fn outcome_view(c: Result<(), String>) -> Result<(), Seq<char>> {
    match c {
        Ok(_) => Ok(()),
        Err(e) => Err(e@),
    }
}

/// What one target adds to a per-user run, as (steps, failures): nothing for a directory that
/// was already there; its creation, and its label when it has one, for a new one; or why
/// creating or labelling failed. `fresh` says the directory was missing, `created` how creating
/// it went, and `labelled` how labelling went (which counts only for a new directory with a
/// label).
pub open spec fn target_report(
    t: (Seq<char>, Option<(Seq<char>, Seq<char>)>),
    fresh: bool,
    created: Result<(), Seq<char>>,
    labelled: Result<(), Seq<char>>,
) -> (Seq<Seq<char>>, Seq<Seq<char>>) {
    match created {
        Err(e) => (Seq::empty(), seq![create_failed_message(t.0, e)]),
        Ok(_) => if !fresh {
            (Seq::empty(), Seq::empty())
        } else {
            match t.1 {
                None => (seq![created_message(t.0)], Seq::empty()),
                Some(l) => match labelled {
                    Ok(_) => (seq![created_message(t.0), acl_ok_message(l.1, t.0)], Seq::empty()),
                    Err(e) => (seq![created_message(t.0)], seq![acl_failed_message(t.0, e)]),
                },
            }
        },
    }
}

/// The report of a per-user run over `ts`, target by target, given what each outside step did.
pub open spec fn run_report(
    ts: Seq<(Seq<char>, Option<(Seq<char>, Seq<char>)>)>,
    outs: Seq<(bool, Result<(), Seq<char>>, Result<(), Seq<char>>)>,
) -> (Seq<Seq<char>>, Seq<Seq<char>>)
    decreases ts.len(),
{
    if ts.len() == 0 || outs.len() == 0 {
        (Seq::empty(), Seq::empty())
    } else {
        let prev = run_report(ts.drop_last(), outs.drop_last());
        let o = outs.last();
        let cur = target_report(ts.last(), o.0, o.1, o.2);
        (prev.0 + cur.0, prev.1 + cur.1)
    }
}

/// The outside steps for target `t` answered as `o` records: the existence check said the
/// directory was there exactly when `o.0` is false, creating it gave `o.1`, and labelling it,
/// when that happened, gave `o.2`.
pub open spec fn outcome_ok<X: Fn(&str) -> bool, C: Fn(&str) -> Result<(), String>, L: Fn(&str, &str) -> Result<(), String>>(
    present: X,
    create: C,
    label: L,
    t: (Seq<char>, Option<(Seq<char>, Seq<char>)>),
    o: (bool, Result<(), Seq<char>>, Result<(), Seq<char>>),
) -> bool {
    &&& exists|x: &str| x@ == t.0 && present.ensures((x,), !o.0)
    &&& exists|x: &str, c: Result<(), String>| x@ == t.0 && create.ensures((x,), c) && outcome_view(c) == o.1
    &&& (o.0 && o.1 is Ok && t.1 is Some) ==> exists|x: &str, a: &str, c: Result<(), String>|
        x@ == t.0 && a@ == t.1.unwrap().0 && label.ensures((x, a), c) && outcome_view(c) == o.2
}

/// Run the per-user setup over `targets`: check whether each directory exists, create it, and
/// label a new one that needs a label. The checks, creation and labelling are the caller's
/// (`present`, `create`, `label`); what is recorded for each outcome is decided here.
pub fn run_user_setup<X: Fn(&str) -> bool, C: Fn(&str) -> Result<(), String>, L: Fn(&str, &str) -> Result<(), String>>(
    targets: &Vec<Target>,
    present: &X,
    create: &C,
    label: &L,
) -> (r: Report)
    requires
        forall|x: &str| present.requires((x,)),
        forall|x: &str| create.requires((x,)),
        forall|x: &str, a: &str| label.requires((x, a)),
    ensures
        exists|outs: Seq<(bool, Result<(), Seq<char>>, Result<(), Seq<char>>)>|
            #![trigger run_report(targets_view(targets@), outs)]
            {
                &&& outs.len() == targets@.len()
                &&& forall|i: int|
                    0 <= i < outs.len() ==> outcome_ok(*present, *create, *label, targets_view(targets@)[i], #[trigger] outs[i])
                &&& (string_views(r.steps@), string_views(r.failures@)) == run_report(targets_view(targets@), outs)
            },
{
    let ghost tv = targets_view(targets@);
    let mut report = Report::new();
    let ghost mut outs: Seq<(bool, Result<(), Seq<char>>, Result<(), Seq<char>>)> = Seq::empty();
    assert(string_views(report.steps@) =~= Seq::<Seq<char>>::empty());
    assert(string_views(report.failures@) =~= Seq::<Seq<char>>::empty());
    let mut i: usize = 0;
    while i < targets.len()
        invariant
            tv == targets_view(targets@),
            i <= targets@.len(),
            outs.len() == i,
            forall|x: &str| present.requires((x,)),
            forall|x: &str| create.requires((x,)),
            forall|x: &str, a: &str| label.requires((x, a)),
            forall|k: int| 0 <= k < outs.len() ==> outcome_ok(*present, *create, *label, tv[k], #[trigger] outs[k]),
            (string_views(report.steps@), string_views(report.failures@)) == run_report(tv.take(i as int), outs),
        decreases targets@.len() - i,
    {
        let t = &targets[i];
        let ghost tt = tv[i as int];
        assert(tt.0 == t.path@);
        let ghost steps0 = string_views(report.steps@);
        let ghost fails0 = string_views(report.failures@);
        let there = present(t.path.as_str());
        let fresh = !there;
        let created = create(t.path.as_str());
        let ghost cv = outcome_view(created);
        let ghost mut lv: Result<(), Seq<char>> = Ok(());
        let go = record_created(&mut report, t.path.as_str(), fresh, created);
        if go {
            match &t.label {
                Some(l) => {
                    let outcome = label(t.path.as_str(), l.0.as_str());
                    proof {
                        lv = outcome_view(outcome);
                    }
                    record_acl(&mut report, t.path.as_str(), l.1.as_str(), outcome);
                },
                None => {},
            }
        }
        let ghost o = (fresh, cv, lv);
        proof {
            let cur = target_report(tt, fresh, cv, lv);
            assert(string_views(report.steps@) =~= steps0 + cur.0);
            assert(string_views(report.failures@) =~= fails0 + cur.1);
            assert(outcome_ok(*present, *create, *label, tt, o));
            let prev = outs;
            outs = outs.push(o);
            assert(tv.take(i + 1).drop_last() =~= tv.take(i as int));
            assert(tv.take(i + 1).last() == tt);
            assert(outs.drop_last() =~= prev);
            assert(outs.last() == o);
            assert(run_report(tv.take(i + 1), outs) == (steps0 + cur.0, fails0 + cur.1));
            assert forall|k: int| 0 <= k < outs.len() implies outcome_ok(*present, *create, *label, tv[k], #[trigger] outs[k]) by {
                if k < i {
                    assert(outs[k] == prev[k]);
                }
            }
        }
        i = i + 1;
    }
    assert(tv.take(targets@.len() as int) =~= tv);
    report
}

/// A per-user run in which every directory already exists and every creation succeeds (as
/// when the previous run succeeded and nothing changed since) reports nothing done and nothing
/// failed: the setup is idempotent.
pub proof fn law_user_setup_is_idempotent(
    ts: Seq<(Seq<char>, Option<(Seq<char>, Seq<char>)>)>,
    outs: Seq<(bool, Result<(), Seq<char>>, Result<(), Seq<char>>)>,
)
    requires
        forall|i: int| 0 <= i < outs.len() ==> !(#[trigger] outs[i]).0 && outs[i].1 is Ok,
    ensures
        run_report(ts, outs).0.len() == 0,
        run_report(ts, outs).1.len() == 0,
    decreases ts.len(),
{
    if ts.len() > 0 && outs.len() > 0 {
        assert forall|i: int| 0 <= i < outs.drop_last().len() implies !(#[trigger] outs.drop_last()[i]).0
            && outs.drop_last()[i].1 is Ok by {
            assert(outs.drop_last()[i] == outs[i]);
        }
        law_user_setup_is_idempotent(ts.drop_last(), outs.drop_last());
        assert(!outs[outs.len() - 1].0);
    }
}

proof fn lemma_clean_run_created_all(
    ts: Seq<(Seq<char>, Option<(Seq<char>, Seq<char>)>)>,
    outs: Seq<(bool, Result<(), Seq<char>>, Result<(), Seq<char>>)>,
)
    requires
        outs.len() == ts.len(),
        run_report(ts, outs).1.len() == 0,
    ensures
        forall|i: int| 0 <= i < outs.len() ==> (#[trigger] outs[i]).1 is Ok,
    decreases ts.len(),
{
    if ts.len() > 0 {
        let prev = run_report(ts.drop_last(), outs.drop_last());
        let o = outs.last();
        let cur = target_report(ts.last(), o.0, o.1, o.2);
        assert(run_report(ts, outs).1 == prev.1 + cur.1);
        lemma_clean_run_created_all(ts.drop_last(), outs.drop_last());
        assert forall|i: int| 0 <= i < outs.len() implies (#[trigger] outs[i]).1 is Ok by {
            if i < outs.len() - 1 {
                assert(outs[i] == outs.drop_last()[i]);
            } else if o.1 is Err {
                assert(cur.1.len() == 1);
            }
        }
    }
}

/// After a per-user run that reported no failure, a second run over the same targets does
/// nothing, provided what the first run created or found is still there (the existence check
/// reports it present) and creating a directory that exists succeeds.
pub proof fn law_second_user_run_after_a_clean_one_does_nothing(
    ts: Seq<(Seq<char>, Option<(Seq<char>, Seq<char>)>)>,
    first: Seq<(bool, Result<(), Seq<char>>, Result<(), Seq<char>>)>,
    second: Seq<(bool, Result<(), Seq<char>>, Result<(), Seq<char>>)>,
)
    requires
        first.len() == ts.len(),
        second.len() == ts.len(),
        run_report(ts, first).1.len() == 0,
        forall|i: int| 0 <= i < ts.len() && (#[trigger] first[i]).1 is Ok ==> !second[i].0 && second[i].1 is Ok,
    ensures
        run_report(ts, second).0.len() == 0,
        run_report(ts, second).1.len() == 0,
{
    lemma_clean_run_created_all(ts, first);
    assert forall|i: int| 0 <= i < second.len() implies !(#[trigger] second[i]).0 && second[i].1 is Ok by {
        assert(first[i].1 is Ok);
    }
    law_user_setup_is_idempotent(ts, second);
}

} // verus!
