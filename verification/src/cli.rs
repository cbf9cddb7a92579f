//! The command line of `mcp-locator-broker`: its arguments and what it prints.
//!
//! Discovery and activation run over the pipe; this is the administrator's side door. Consent
//! granted here is a deliberate, auditable step rather than something an AI client can trigger
//! on its own.

use crate::catalog::{nonempty, tier_label, Entry};
use crate::consent::{ConsentRecord, ConsentState};
use crate::dirs::{tier_name, Root, Tier};
use crate::text::{owned, push_str, split, split_on, string_from_chars, string_views};
use vstd::prelude::*;

verus! {

pub const USAGE: &'static str = "mcp-locator-broker — local MCP server discovery and activation

  mcp-locator-broker serve [--endpoint <pipe-or-socket>]
  mcp-locator-broker list [--all] [--roots <tier>=<path>[,...]]
  mcp-locator-broker dirs
  mcp-locator-broker consent list
  mcp-locator-broker consent grant <name>
  mcp-locator-broker consent deny <name>
  mcp-locator-broker consent forget <name>

`consent grant` binds the approval to the card's current launch command. Editing that command
afterwards invalidates the approval, and the server will refuse to start until it is re-granted.";

/// The position of the first argument equal to `flag`.
pub open spec fn first_arg(args: Seq<Seq<char>>, flag: Seq<char>) -> Option<int>
    decreases args.len(),
{
    if args.len() == 0 {
        None
    } else {
        match first_arg(args.drop_last(), flag) {
            Some(i) => Some(i),
            None => if args.last() == flag {
                Some(args.len() - 1)
            } else {
                None
            },
        }
    }
}

/// The value following the first occurrence of `flag`, if any.
pub open spec fn flag_value_spec(args: Seq<Seq<char>>, flag: Seq<char>) -> Option<Seq<char>> {
    match first_arg(args, flag) {
        Some(i) => if i + 1 < args.len() {
            Some(args[i + 1])
        } else {
            None
        },
        None => None,
    }
}

proof fn lemma_first_arg_step(args: Seq<Seq<char>>, flag: Seq<char>, i: int)
    requires
        0 <= i < args.len(),
        first_arg(args.take(i), flag) is None,
    ensures
        first_arg(args.take(i + 1), flag) == (if args[i] == flag {
            Some(i)
        } else {
            None::<int>
        }),
{
    assert(args.take(i + 1).drop_last() =~= args.take(i));
}

proof fn lemma_first_arg_extend(args: Seq<Seq<char>>, flag: Seq<char>, n: int)
    requires
        0 <= n <= args.len(),
        first_arg(args.take(n), flag) is Some,
    ensures
        first_arg(args, flag) == first_arg(args.take(n), flag),
    decreases args.len() - n,
{
    if n < args.len() {
        assert(args.take(n + 1).drop_last() =~= args.take(n));
        lemma_first_arg_extend(args, flag, n + 1);
    } else {
        assert(args.take(n) =~= args);
    }
}

/// The value following the first occurrence of `flag` among `args`.
pub fn flag_value(args: &Vec<String>, flag: &str) -> (r: Option<String>)
    ensures
        match r {
            Some(v) => flag_value_spec(string_views(args@), flag@) == Some(v@),
            None => flag_value_spec(string_views(args@), flag@) is None,
        },
{
    let ghost av = string_views(args@);
    let mut i: usize = 0;
    while i < args.len()
        invariant
            av == string_views(args@),
            i <= args@.len(),
            first_arg(av.take(i as int), flag@) is None,
        decreases args@.len() - i,
    {
        proof {
            lemma_first_arg_step(av, flag@, i as int);
        }
        assert(av[i as int] == args@[i as int]@);
        if crate::json::str_eq(args[i].as_str(), flag) {
            proof {
                lemma_first_arg_extend(av, flag@, i + 1);
            }
            if i + 1 < args.len() {
                let v = args[i + 1].clone();
                assert(av[i + 1] == args@[i + 1]@);
                return Some(v);
            }
            return None;
        }
        i = i + 1;
    }
    assert(av.take(args@.len() as int) =~= av);
    None
}

/// The tier a name stands for.
pub open spec fn tier_from_name(s: Seq<char>) -> Option<Tier> {
    if s == "package"@ {
        Some(Tier::Package)
    } else if s == "system"@ {
        Some(Tier::System)
    } else if s == "user"@ {
        Some(Tier::User)
    } else if s == "low"@ {
        Some(Tier::Low)
    } else {
        None
    }
}

/// The position of the first `c` in `s`.
pub open spec fn first_index(s: Seq<char>, c: char) -> Option<int>
    decreases s.len(),
{
    if s.len() == 0 {
        None
    } else {
        match first_index(s.drop_last(), c) {
            Some(i) => Some(i),
            None => if s.last() == c {
                Some(s.len() - 1)
            } else {
                None
            },
        }
    }
}

/// One `<tier>=<path>` pair.
pub open spec fn root_of(pair: Seq<char>) -> Result<(Tier, Seq<char>), Seq<char>> {
    match first_index(pair, '=') {
        None => Err("expected <tier>=<path>, got `"@ + pair + "`"@),
        Some(i) => {
            let tier = pair.take(i);
            match tier_from_name(tier) {
                None => Err("unknown tier `"@ + tier + "`"@),
                Some(t) => Ok((t, pair.skip(i + 1))),
            }
        },
    }
}

/// Every pair, in order; the first bad one is the error.
pub open spec fn roots_of(pairs: Seq<Seq<char>>) -> Result<Seq<(Tier, Seq<char>)>, Seq<char>>
    decreases pairs.len(),
{
    if pairs.len() == 0 {
        Ok(Seq::empty())
    } else {
        match roots_of(pairs.drop_last()) {
            Err(e) => Err(e),
            Ok(rs) => match root_of(pairs.last()) {
                Err(e) => Err(e),
                Ok(r) => Ok(rs.push(r)),
            },
        }
    }
}

fn tier_from(s: &str) -> (r: Option<Tier>)
    ensures
        r == tier_from_name(s@),
{
    proof {
        reveal_strlit("package");
        reveal_strlit("system");
        reveal_strlit("user");
        reveal_strlit("low");
    }
    if crate::json::str_eq(s, "package") {
        Some(Tier::Package)
    } else if crate::json::str_eq(s, "system") {
        Some(Tier::System)
    } else if crate::json::str_eq(s, "user") {
        Some(Tier::User)
    } else if crate::json::str_eq(s, "low") {
        Some(Tier::Low)
    } else {
        None
    }
}

fn parse_pair(pair: &str) -> (r: Result<Root, String>)
    ensures
        match r {
            Ok(root) => root_of(pair@) == Ok::<(Tier, Seq<char>), Seq<char>>((root.tier, root.path@)),
            Err(e) => root_of(pair@) == Err::<(Tier, Seq<char>), Seq<char>>(e@),
        },
{
    let cs = crate::text::chars_of(pair);
    let mut i: usize = 0;
    while i < cs.len()
        invariant
            cs@ == pair@,
            i <= cs@.len(),
            first_index(cs@.take(i as int), '=') is None,
        decreases cs@.len() - i,
    {
        assert(cs@.take(i + 1).drop_last() =~= cs@.take(i as int));
        if cs[i] == '=' {
            proof {
                lemma_first_index_prefix(cs@, cs@.len() as int, i as int);
                assert(cs@.take(cs@.len() as int) =~= cs@);
            }
            let mut before: Vec<char> = Vec::new();
            let mut after: Vec<char> = Vec::new();
            let mut k: usize = 0;
            while k < cs.len()
                invariant
                    k <= cs@.len(),
                    i < cs@.len(),
                    before@ == cs@.take(if k < i { k as int } else { i as int }),
                    after@ == if k <= i { Seq::<char>::empty() } else { cs@.subrange(i + 1, k as int) },
                decreases cs@.len() - k,
            {
                if k < i {
                    before.push(cs[k]);
                    assert(before@ =~= cs@.take(k + 1));
                } else if k > i {
                    after.push(cs[k]);
                    assert(after@ =~= cs@.subrange(i + 1, k + 1));
                } else {
                    assert(after@ =~= cs@.subrange(i + 1, i + 1));
                }
                k = k + 1;
            }
            assert(after@ =~= cs@.skip(i + 1));
            let tier_text = string_from_chars(before.as_slice());
            return match tier_from(tier_text.as_str()) {
                Some(t) => Ok(Root { tier: t, path: string_from_chars(after.as_slice()) }),
                None => {
                    let mut msg: Vec<char> = Vec::new();
                    push_str(&mut msg, "unknown tier `");
                    push_str(&mut msg, tier_text.as_str());
                    push_str(&mut msg, "`");
                    proof {
                        reveal_strlit("unknown tier `");
                        reveal_strlit("`");
                    }
                    Err(string_from_chars(msg.as_slice()))
                },
            };
        }
        i = i + 1;
    }
    assert(cs@.take(cs@.len() as int) =~= cs@);
    let mut msg: Vec<char> = Vec::new();
    push_str(&mut msg, "expected <tier>=<path>, got `");
    push_str(&mut msg, pair);
    push_str(&mut msg, "`");
    proof {
        reveal_strlit("expected <tier>=<path>, got `");
        reveal_strlit("`");
    }
    Err(string_from_chars(msg.as_slice()))
}

proof fn lemma_first_index_prefix(s: Seq<char>, n: int, i: int)
    requires
        0 <= i < n <= s.len(),
        first_index(s.take(i), '=') is None,
        s[i] == '=',
    ensures
        first_index(s.take(n), '=') == Some(i),
    decreases n - i,
{
    if n == i + 1 {
        assert(s.take(n).drop_last() =~= s.take(i));
    } else {
        lemma_first_index_prefix(s, n - 1, i);
        assert(s.take(n).drop_last() =~= s.take(n - 1));
    }
}

/// Parse `system=/a,user=/b` into roots. A test and diagnostic affordance only: real
/// deployments use the platform directories.
pub fn parse_roots(spec: &str) -> (r: Result<Vec<Root>, String>)
    ensures
        match r {
            Ok(roots) => roots_of(nonempty(split_on(spec@, ','))) == Ok::<Seq<(Tier, Seq<char>)>, Seq<char>>(
                crate::dirs::roots_view(roots@),
            ),
            Err(e) => roots_of(nonempty(split_on(spec@, ','))) == Err::<Seq<(Tier, Seq<char>)>, Seq<char>>(e@),
        },
{
    let pieces = crate::catalog::nonempty_pieces(split(spec, ','));
    let ghost pv = string_views(pieces@);
    let mut roots: Vec<Root> = Vec::new();
    let mut i: usize = 0;
    assert(pv.take(0) =~= Seq::<Seq<char>>::empty());
    assert(crate::dirs::roots_view(roots@) =~= Seq::<(Tier, Seq<char>)>::empty());
    while i < pieces.len()
        invariant
            pv == string_views(pieces@),
            pv == nonempty(split_on(spec@, ',')),
            i <= pieces@.len(),
            roots_of(pv.take(i as int)) == Ok::<Seq<(Tier, Seq<char>)>, Seq<char>>(crate::dirs::roots_view(roots@)),
        decreases pieces@.len() - i,
    {
        assert(pv.take(i + 1).drop_last() =~= pv.take(i as int));
        assert(pv.take(i + 1).last() == pieces@[i as int]@);
        match parse_pair(pieces[i].as_str()) {
            Ok(root) => {
                let ghost before = roots@;
                roots.push(root);
                assert(crate::dirs::roots_view(roots@) =~= crate::dirs::roots_view(before).push((root.tier, root.path@)));
            },
            Err(e) => {
                proof {
                    lemma_roots_of_error(pv, i as int + 1);
                }
                return Err(e);
            },
        }
        i = i + 1;
    }
    assert(pv.take(pieces@.len() as int) =~= pv);
    Ok(roots)
}

/// An error in a prefix is the error of the whole.
proof fn lemma_roots_of_error(pairs: Seq<Seq<char>>, n: int)
    requires
        0 <= n <= pairs.len(),
        roots_of(pairs.take(n)) is Err,
    ensures
        roots_of(pairs) == roots_of(pairs.take(n)),
    decreases pairs.len() - n,
{
    if n < pairs.len() {
        assert(pairs.take(n + 1).drop_last() =~= pairs.take(n));
        lemma_roots_of_error(pairs, n + 1);
    } else {
        assert(pairs.take(n) =~= pairs);
    }
}

/// What `consent grant` reports a card starts: its command line, or that it only declares an
/// endpoint.
pub open spec fn cli_launch_line(e: Entry) -> Seq<char> {
    match crate::activation::entry_launch(e) {
        Some(l) => crate::prompt::command_line(l.command@, crate::prompt::entry_args(l)),
        None => "(endpoint only)"@,
    }
}

pub fn launch_line(entry: &Entry) -> (r: String)
    ensures
        r@ == cli_launch_line(*entry),
{
    let launch = match &entry.card.local {
        Some(l) => match &l.launch {
            Some(x) => Some(x),
            None => None,
        },
        None => None,
    };
    match launch {
        Some(x) => crate::prompt::command_line_of(x),
        None => {
            proof {
                reveal_strlit("(endpoint only)");
            }
            owned("(endpoint only)")
        },
    }
}

/// How a consent state is printed: its variant name.
pub open spec fn state_debug(s: ConsentState) -> Seq<char> {
    crate::activation::state_label(s)
}

/// One line of `consent list`: the name, the state, and when it was decided (`-` if never).
pub open spec fn consent_line_spec(name: Seq<char>, state: ConsentState, granted_at: Option<Seq<char>>) -> Seq<char> {
    name + "  "@ + state_debug(state) + "  "@ + match granted_at {
        Some(t) => t,
        None => "-"@,
    }
}

pub fn consent_line(name: &str, record: &ConsentRecord) -> (r: String)
    ensures
        r@ == consent_line_spec(name@, record.state, crate::consent::opt_chars(record.granted_at)),
{
    let mut out: Vec<char> = Vec::new();
    push_str(&mut out, name);
    push_str(&mut out, "  ");
    push_str(&mut out, crate::activation::state_label_str(record.state));
    push_str(&mut out, "  ");
    match &record.granted_at {
        Some(t) => push_str(&mut out, t.as_str()),
        None => push_str(&mut out, "-"),
    }
    proof {
        reveal_strlit("  ");
        reveal_strlit("-");
    }
    string_from_chars(out.as_slice())
}

/// One line of `dirs`: the tier, the path, and whether the directory is missing.
pub open spec fn dirs_line_spec(tier: Tier, path: Seq<char>, exists: bool) -> Seq<char> {
    "["@ + tier_label(tier) + "] "@ + path + if exists {
        Seq::<char>::empty()
    } else {
        "  (missing)"@
    }
}

pub fn dirs_line(root: &Root, exists: bool) -> (r: String)
    ensures
        r@ == dirs_line_spec(root.tier, root.path@, exists),
{
    let mut out: Vec<char> = Vec::new();
    push_str(&mut out, "[");
    push_str(&mut out, crate::catalog::tier_label_str(root.tier));
    push_str(&mut out, "] ");
    push_str(&mut out, root.path.as_str());
    if !exists {
        push_str(&mut out, "  (missing)");
    }
    proof {
        reveal_strlit("[");
        reveal_strlit("] ");
        reveal_strlit("  (missing)");
    }
    string_from_chars(out.as_slice())
}

} // verus!
