//! Registry and state directory resolution.
//!
//! Every location is a function of the platform and of the environment variables handed in, so
//! the same rules can be checked for each platform on any machine.

use crate::env::Env;
use crate::expand::is_ascii_alpha;
use crate::text::{owned, push_str, split, split_on, string_from_chars, string_views};
use vstd::prelude::*;

verus! {

/// Registry tiers. A higher rank shadows a lower one when the same `name` appears in several.
#[derive(Debug, Clone, Copy, PartialEq, Eq, PartialOrd, Ord, Hash, Structural)]
pub enum Tier {
    Low,
    User,
    System,
    Package,
}

pub open spec fn rank_spec(t: Tier) -> u8 {
    match t {
        Tier::Package => 3,
        Tier::System => 2,
        Tier::User => 1,
        Tier::Low => 0,
    }
}

pub open spec fn tier_name(t: Tier) -> Seq<char> {
    match t {
        Tier::Package => "package"@,
        Tier::System => "system"@,
        Tier::User => "user"@,
        Tier::Low => "low"@,
    }
}

impl Tier {
    /// Higher rank shadows lower when the same `name` appears in multiple tiers.
    pub fn rank(self) -> (r: u8)
        ensures
            r == rank_spec(self),
    {
        match self {
            Tier::Package => 3,
            Tier::System => 2,
            Tier::User => 1,
            Tier::Low => 0,
        }
    }

    /// The tier called `s`, if there is one.
    pub fn parse(s: &str) -> (r: Option<Tier>)
        ensures
            match r {
                Some(t) => tier_name(t) == s@,
                None => forall|t: Tier| tier_name(t) != s@,
            },
    {
        if crate::json::str_eq(s, "package") {
            Some(Tier::Package)
        } else if crate::json::str_eq(s, "system") {
            Some(Tier::System)
        } else if crate::json::str_eq(s, "user") {
            Some(Tier::User)
        } else if crate::json::str_eq(s, "low") {
            Some(Tier::Low)
        } else {
            assert forall|t: Tier| tier_name(t) != s@ by {
                match t {
                    Tier::Package => {},
                    Tier::System => {},
                    Tier::User => {},
                    Tier::Low => {},
                }
            }
            None
        }
    }

    /// The tier's name as it is written in settings and on the wire.
    pub fn name(self) -> (r: &'static str)
        ensures
            r@ == tier_name(self),
    {
        match self {
            Tier::Package => "package",
            Tier::System => "system",
            Tier::User => "user",
            Tier::Low => "low",
        }
    }
}

/// One registry directory and the tier it belongs to.
#[derive(Debug)]
pub struct Root {
    pub tier: Tier,
    pub path: String,
}

/// The platforms whose directory layouts differ.
#[derive(Debug, Clone, Copy, PartialEq, Eq, Structural)]
pub enum Platform {
    Windows,
    MacOs,
    Unix,
}

pub open spec fn is_sep(p: Platform, c: char) -> bool {
    c == '/' || (p == Platform::Windows && c == '\\')
}

pub open spec fn sep_of(p: Platform) -> char {
    if p == Platform::Windows {
        '\\'
    } else {
        '/'
    }
}

/// A bare drive such as `C:`, after which Windows adds no separator.
pub open spec fn is_bare_drive(p: Platform, s: Seq<char>) -> bool {
    p == Platform::Windows && s.len() == 2 && s[1] == ':' && is_ascii_alpha(s[0])
}

/// `PathBuf::join` of a relative component onto `base`.
pub open spec fn join_path(p: Platform, base: Seq<char>, comp: Seq<char>) -> Seq<char> {
    if base.len() == 0 || is_sep(p, base.last()) || is_bare_drive(p, base) {
        base + comp
    } else {
        base + seq![sep_of(p)] + comp
    }
}

/// `base` joined with `a` and then `b`.
pub open spec fn join2(p: Platform, base: Seq<char>, a: Seq<char>, b: Seq<char>) -> Seq<char> {
    join_path(p, join_path(p, base, a), b)
}

/// Joins a relative component onto `base`.
pub fn join(p: Platform, base: &str, comp: &str) -> (r: String)
    ensures
        r@ == join_path(p, base@, comp@),
{
    let cs = crate::text::chars_of(base);
    let mut out: Vec<char> = Vec::new();
    push_str(&mut out, base);
    let need_sep = if cs.len() == 0 {
        false
    } else {
        let last = cs[cs.len() - 1];
        let sep_last = last == '/' || (p == Platform::Windows && last == '\\');
        let drive = p == Platform::Windows && cs.len() == 2 && cs[1] == ':' && (('a' <= cs[0]
            && cs[0] <= 'z') || ('A' <= cs[0] && cs[0] <= 'Z'));
        !sep_last && !drive
    };
    if need_sep {
        out.push(
            if p == Platform::Windows {
                '\\'
            } else {
                '/'
            },
        );
    }
    push_str(&mut out, comp);
    assert(out@ =~= join_path(p, base@, comp@));
    string_from_chars(out.as_slice())
}

fn join_two(p: Platform, base: &str, a: &str, b: &str) -> (r: String)
    ensures
        r@ == join2(p, base@, a@, b@),
{
    let first = join(p, base, a);
    join(p, first.as_str(), b)
}

/// The first of two variables that is set, as `var(a).or_else(|_| var(b))` reads them.
pub open spec fn first_set(env: Env, a: Seq<char>, b: Seq<char>) -> Option<Seq<char>> {
    match env.get_spec(a) {
        Some(v) => Some(v),
        None => env.get_spec(b),
    }
}

/// The user's home directory: `USERPROFILE`, else `HOME`, else empty.
pub open spec fn home_spec(env: Env) -> Seq<char> {
    match first_set(env, "USERPROFILE"@, "HOME"@) {
        Some(h) => h,
        None => Seq::empty(),
    }
}

fn home(env: &Env) -> (r: String)
    ensures
        r@ == home_spec(*env),
{
    match env.lookup("USERPROFILE") {
        Some(h) => h,
        None => match env.lookup("HOME") {
            Some(h) => h,
            None => String::new(),
        },
    }
}

/// `%LOCALAPPDATA%`, or `<home>\AppData\Local` when it is not set.
pub open spec fn local_app_data_spec(p: Platform, env: Env) -> Seq<char> {
    match env.get_spec("LOCALAPPDATA"@) {
        Some(v) => v,
        None => join2(p, home_spec(env), "AppData"@, "Local"@),
    }
}

fn local_app_data(p: Platform, env: &Env) -> (r: String)
    ensures
        r@ == local_app_data_spec(p, *env),
{
    match env.lookup("LOCALAPPDATA") {
        Some(v) => v,
        None => {
            let h = home(env);
            join_two(p, h.as_str(), "AppData", "Local")
        },
    }
}

/// `<dir>/mcp-locator/servers`.
pub open spec fn servers_dir(p: Platform, dir: Seq<char>) -> Seq<char> {
    join2(p, dir, "mcp-locator"@, "servers"@)
}

/// A system-tier root for each non-empty directory of `dirs`, in order.
pub open spec fn system_roots(p: Platform, dirs: Seq<Seq<char>>) -> Seq<(Tier, Seq<char>)>
    decreases dirs.len(),
{
    if dirs.len() == 0 {
        Seq::empty()
    } else {
        let rest = system_roots(p, dirs.drop_last());
        if dirs.last().len() > 0 {
            rest.push((Tier::System, servers_dir(p, dirs.last())))
        } else {
            rest
        }
    }
}

/// The registry directories of a platform, as (tier, path) pairs in tier order.
pub open spec fn roots_spec(p: Platform, env: Env) -> Seq<(Tier, Seq<char>)> {
    let home = home_spec(env);
    match p {
        Platform::Windows => {
            let program_data = match env.get_spec("ProgramData"@) {
                Some(v) => v,
                None => "C:\\ProgramData"@,
            };
            seq![
                (Tier::System, servers_dir(p, program_data)),
                (Tier::User, servers_dir(p, local_app_data_spec(p, env))),
                (Tier::Low, servers_dir(p, join2(p, home, "AppData"@, "LocalLow"@))),
            ]
        },
        Platform::MacOs => seq![
            (Tier::System, servers_dir(p, "/Library/Application Support"@)),
            (Tier::User, servers_dir(p, join_path(p, home, "Library/Application Support"@))),
        ],
        Platform::Unix => {
            let data_home = match env.get_spec("XDG_DATA_HOME"@) {
                Some(v) => v,
                None => join2(p, home, ".local"@, "share"@),
            };
            let data_dirs = match env.get_spec("XDG_DATA_DIRS"@) {
                Some(v) => v,
                None => "/usr/local/share:/usr/share"@,
            };
            system_roots(p, split_on(data_dirs, ':')).push((Tier::User, servers_dir(p, data_home)))
        },
    }
}

/// The (tier, path) view of a list of roots.
pub open spec fn roots_view(roots: Seq<Root>) -> Seq<(Tier, Seq<char>)> {
    roots.map_values(|r: Root| (r.tier, r.path@))
}

fn servers_in(p: Platform, dir: &str) -> (r: String)
    ensures
        r@ == servers_dir(p, dir@),
{
    join_two(p, dir, "mcp-locator", "servers")
}

/// Registry directories in tier order. Missing directories are returned anyway — callers skip
/// what does not exist, and watchers need the paths regardless.
pub fn resolve_roots(p: Platform, env: &Env) -> (r: Vec<Root>)
    ensures
        roots_view(r@) == roots_spec(p, *env),
{
    let home = home(env);
    match p {
        Platform::Windows => {
            let program_data = match env.lookup("ProgramData") {
                Some(v) => v,
                None => owned("C:\\ProgramData"),
            };
            let lad = local_app_data(p, env);
            let low = join_two(p, home.as_str(), "AppData", "LocalLow");
            let mut roots: Vec<Root> = Vec::new();
            roots.push(Root { tier: Tier::System, path: servers_in(p, program_data.as_str()) });
            roots.push(Root { tier: Tier::User, path: servers_in(p, lad.as_str()) });
            roots.push(Root { tier: Tier::Low, path: servers_in(p, low.as_str()) });
            assert(roots_view(roots@) =~= roots_spec(p, *env));
            roots
        },
        Platform::MacOs => {
            let user = join(p, home.as_str(), "Library/Application Support");
            let mut roots: Vec<Root> = Vec::new();
            roots.push(
                Root { tier: Tier::System, path: servers_in(p, "/Library/Application Support") },
            );
            roots.push(Root { tier: Tier::User, path: servers_in(p, user.as_str()) });
            assert(roots_view(roots@) =~= roots_spec(p, *env));
            roots
        },
        Platform::Unix => {
            let data_home = match env.lookup("XDG_DATA_HOME") {
                Some(v) => v,
                None => join_two(p, home.as_str(), ".local", "share"),
            };
            let data_dirs = match env.lookup("XDG_DATA_DIRS") {
                Some(v) => v,
                None => owned("/usr/local/share:/usr/share"),
            };
            let pieces = split(data_dirs.as_str(), ':');
            let ghost all = split_on(data_dirs@, ':');
            let mut roots: Vec<Root> = Vec::new();
            let mut i: usize = 0;
            while i < pieces.len()
                invariant
                    i <= pieces@.len(),
                    string_views(pieces@) == all,
                    roots_view(roots@) == system_roots(p, all.take(i as int)),
                decreases pieces@.len() - i,
            {
                assert(all.take(i + 1).drop_last() =~= all.take(i as int));
                assert(all[i as int] == pieces@[i as int]@);
                if !pieces[i].as_str().is_empty() {
                    let path = servers_in(p, pieces[i].as_str());
                    roots.push(Root { tier: Tier::System, path });
                }
                assert(roots_view(roots@) =~= system_roots(p, all.take(i + 1)));
                i = i + 1;
            }
            assert(all.take(pieces@.len() as int) =~= all);
            roots.push(Root { tier: Tier::User, path: servers_in(p, data_home.as_str()) });
            assert(roots_view(roots@) =~= roots_spec(p, *env));
            roots
        },
    }
}

/// The state directory the broker owns: consent store, audit log, runtime snapshot.
pub open spec fn state_dir_spec(p: Platform, env: Env) -> Seq<char> {
    match p {
        Platform::Windows => join2(p, local_app_data_spec(p, env), "mcp-locator"@, "state"@),
        Platform::MacOs => join2(
            p,
            join_path(p, home_spec(env), "Library/Application Support"@),
            "mcp-locator"@,
            "state"@,
        ),
        Platform::Unix => join_path(
            p,
            match env.get_spec("XDG_STATE_HOME"@) {
                Some(v) => v,
                None => join2(p, home_spec(env), ".local"@, "state"@),
            },
            "mcp-locator"@,
        ),
    }
}

/// State directory the broker owns: consent store, audit log, runtime snapshot.
pub fn resolve_state_dir(p: Platform, env: &Env) -> (r: String)
    ensures
        r@ == state_dir_spec(p, *env),
{
    match p {
        Platform::Windows => {
            let lad = local_app_data(p, env);
            join_two(p, lad.as_str(), "mcp-locator", "state")
        },
        Platform::MacOs => {
            let h = home(env);
            let base = join(p, h.as_str(), "Library/Application Support");
            join_two(p, base.as_str(), "mcp-locator", "state")
        },
        Platform::Unix => {
            let base = match env.lookup("XDG_STATE_HOME") {
                Some(v) => v,
                None => {
                    let h = home(env);
                    join_two(p, h.as_str(), ".local", "state")
                },
            };
            join(p, base.as_str(), "mcp-locator")
        },
    }
}

/// The pipe or socket address the broker listens on.
pub open spec fn endpoint_spec(p: Platform, env: Env) -> Seq<char> {
    if p == Platform::Windows {
        "\\\\.\\pipe\\mcp-locator\\broker\\v1"@
    } else {
        (match env.get_spec("XDG_RUNTIME_DIR"@) {
            Some(v) => v,
            None => "/tmp"@,
        }) + "/mcp-locator/broker.sock"@
    }
}

/// Default pipe/socket address the broker listens on.
pub fn default_endpoint(p: Platform, env: &Env) -> (r: String)
    ensures
        r@ == endpoint_spec(p, *env),
{
    if p == Platform::Windows {
        owned("\\\\.\\pipe\\mcp-locator\\broker\\v1")
    } else {
        let runtime = match env.lookup("XDG_RUNTIME_DIR") {
            Some(v) => v,
            None => owned("/tmp"),
        };
        crate::text::concat(runtime.as_str(), "/mcp-locator/broker.sock")
    }
}

} // verus!
