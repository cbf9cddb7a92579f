//! Environment expansion in card fields.
//!
//! `%VAR%` and `${VAR}` are both accepted on every platform, so one card file stays portable.
//! A reference to a variable that is not set is left exactly as written: silently emptying a
//! path would turn a typo into a launch of the wrong file.

use crate::env::{env_get, Env};
use crate::json::{str_eq, view_items, view_members, Json, JsonV};
use crate::text::{chars_of, string_from_chars};
use vstd::prelude::*;

verus! {

pub open spec fn is_ascii_alpha(c: char) -> bool {
    ('a' <= c && c <= 'z') || ('A' <= c && c <= 'Z')
}

pub open spec fn is_ascii_digit(c: char) -> bool {
    '0' <= c && c <= '9'
}

/// A variable name: a letter or `_`, then letters, digits and `_`.
pub open spec fn is_var_name_spec(n: Seq<char>) -> bool {
    &&& n.len() > 0
    &&& (is_ascii_alpha(n[0]) || n[0] == '_')
    &&& forall|k: int| 0 <= k < n.len() ==> is_ascii_alpha(#[trigger] n[k]) || is_ascii_digit(n[k]) || n[k] == '_'
}

/// The first position at or after `start` holding `closer`.
pub open spec fn find_closer(cs: Seq<char>, start: int, closer: char) -> Option<int>
    decreases cs.len() - start,
{
    if start < 0 || start >= cs.len() {
        None
    } else if cs[start] == closer {
        Some(start)
    } else {
        find_closer(cs, start + 1, closer)
    }
}

pub proof fn lemma_find_closer(cs: Seq<char>, start: int, closer: char)
    ensures
        find_closer(cs, start, closer) matches Some(e) ==> start <= e < cs.len() && cs[e] == closer
            && forall|k: int| start <= k < e ==> cs[k] != closer,
        find_closer(cs, start, closer) is None ==> forall|k: int|
            0 <= start <= k < cs.len() ==> cs[k] != closer,
    decreases cs.len() - start,
{
    if 0 <= start < cs.len() && cs[start] != closer {
        lemma_find_closer(cs, start + 1, closer);
    }
}

/// The reference opening at `i`, if any: its closing character and the opener's length.
pub open spec fn opener(cs: Seq<char>, i: int) -> Option<(char, int)> {
    if cs[i] == '%' {
        Some(('%', 1))
    } else if cs[i] == '$' && i + 1 < cs.len() && cs[i + 1] == '{' {
        Some(('}', 2))
    } else {
        None
    }
}

/// Expansion of `cs` from position `i` on.
pub open spec fn expand_from(cs: Seq<char>, i: int, env: Seq<(String, String)>) -> Seq<char>
    decreases cs.len() - i,
{
    if i < 0 || i >= cs.len() {
        Seq::empty()
    } else {
        match opener(cs, i) {
            None => seq![cs[i]] + expand_from(cs, i + 1, env),
            Some((closer, skip)) => {
                proof {
                    lemma_find_closer(cs, i + skip, closer);
                }
                match find_closer(cs, i + skip, closer) {
                    Some(end) => if is_var_name_spec(cs.subrange(i + skip, end)) {
                        match env_get(env, cs.subrange(i + skip, end)) {
                            Some(v) => v + expand_from(cs, end + 1, env),
                            None => cs.subrange(i, end + 1) + expand_from(cs, end + 1, env),
                        }
                    } else {
                        seq![cs[i]] + expand_from(cs, i + 1, env)
                    },
                    None => seq![cs[i]] + expand_from(cs, i + 1, env),
                }
            },
        }
    }
}

/// `%VAR%` and `${VAR}` references in `input` replaced by their values in `env`.
pub open spec fn expand_env_spec(input: Seq<char>, env: Seq<(String, String)>) -> Seq<char> {
    expand_from(input, 0, env)
}

/// Whether `name` is a valid variable name.
pub fn is_var_name(name: &[char]) -> (r: bool)
    ensures
        r == is_var_name_spec(name@),
{
    if name.len() == 0 {
        return false;
    }
    let first = name[0];
    if !(('a' <= first && first <= 'z') || ('A' <= first && first <= 'Z') || first == '_') {
        return false;
    }
    let mut i: usize = 0;
    while i < name.len()
        invariant
            i <= name@.len(),
            forall|k: int|
                0 <= k < i ==> is_ascii_alpha(#[trigger] name@[k]) || is_ascii_digit(name@[k])
                    || name@[k] == '_',
        decreases name@.len() - i,
    {
        let c = name[i];
        if !(('a' <= c && c <= 'z') || ('A' <= c && c <= 'Z') || ('0' <= c && c <= '9') || c
            == '_') {
            return false;
        }
        i = i + 1;
    }
    true
}

/// The first position at or after `start` holding `closer`, with the characters before it.
fn find_var(chars: &[char], start: usize, closer: char) -> (r: Option<(Vec<char>, usize)>)
    requires
        start <= chars@.len(),
    ensures
        match r {
            Some((name, end)) => find_closer(chars@, start as int, closer) == Some(end as int)
                && name@ == chars@.subrange(start as int, end as int),
            None => find_closer(chars@, start as int, closer).is_none(),
        },
{
    let mut j = start;
    while j < chars.len()
        invariant
            start <= j <= chars@.len(),
            find_closer(chars@, start as int, closer) == find_closer(chars@, j as int, closer),
        decreases chars@.len() - j,
    {
        if chars[j] == closer {
            let mut name: Vec<char> = Vec::new();
            let mut k = start;
            while k < j
                invariant
                    start <= k <= j,
                    j < chars@.len(),
                    name@ == chars@.subrange(start as int, k as int),
                decreases j - k,
            {
                name.push(chars[k]);
                k = k + 1;
                assert(name@ =~= chars@.subrange(start as int, k as int));
            }
            return Some((name, j));
        }
        j = j + 1;
    }
    None
}

/// Expand `%VAR%` and `${VAR}` references. Unknown variables are left verbatim.
pub fn expand_env(input: &str, lookup: &Env) -> (r: String)
    ensures
        r@ == expand_env_spec(input@, lookup.vars@),
{
    let chars = chars_of(input);
    let ghost cs = chars@;
    let ghost env = lookup.vars@;
    let mut out: Vec<char> = Vec::new();
    let mut i: usize = 0;
    while i < chars.len()
        invariant
            cs == chars@,
            cs == input@,
            env == lookup.vars@,
            i <= cs.len(),
            expand_from(cs, 0, env) == out@ + expand_from(cs, i as int, env),
        decreases cs.len() - i,
    {
        let c = chars[i];
        let is_percent = c == '%';
        let is_dollar = c == '$' && i + 1 < chars.len() && chars[i + 1] == '{';
        if !is_percent && !is_dollar {
            let ghost before = out@;
            out.push(c);
            i = i + 1;
            assert(out@ + expand_from(cs, i as int, env) =~= before + (seq![c] + expand_from(
                cs,
                i as int,
                env,
            )));
            continue;
        }
        let closer = if is_percent {
            '%'
        } else {
            '}'
        };
        let skip: usize = if is_percent {
            1
        } else {
            2
        };
        proof {
            lemma_find_closer(cs, i + skip, closer);
        }
        match find_var(chars.as_slice(), i + skip, closer) {
            Some((name, end)) => {
                if is_var_name(name.as_slice()) {
                    let name_s = string_from_chars(name.as_slice());
                    match lookup.lookup(name_s.as_str()) {
                        Some(value) => {
                            let ghost before = out@;
                            crate::text::push_str(&mut out, value.as_str());
                            assert(out@ + expand_from(cs, end + 1, env) =~= before + (value@
                                + expand_from(cs, end + 1, env)));
                        },
                        None => {
                            let ghost before = out@;
                            assert(end < chars.len());
                            let mut k = i;
                            while k <= end
                                invariant
                                    i <= k <= end + 1,
                                    end < cs.len(),
                                    end < usize::MAX,
                                    cs == chars@,
                                    out@ == before + cs.subrange(i as int, k as int),
                                decreases end + 1 - k,
                            {
                                out.push(chars[k]);
                                k = k + 1;
                                assert(out@ =~= before + cs.subrange(i as int, k as int));
                            }
                            assert(out@ + expand_from(cs, end + 1, env) =~= before + (cs.subrange(
                                i as int,
                                end + 1,
                            ) + expand_from(cs, end + 1, env)));
                        },
                    }
                    i = end + 1;
                } else {
                    let ghost before = out@;
                    out.push(c);
                    i = i + 1;
                    assert(out@ + expand_from(cs, i as int, env) =~= before + (seq![c]
                        + expand_from(cs, i as int, env)));
                }
            },
            None => {
                let ghost before = out@;
                out.push(c);
                i = i + 1;
                assert(out@ + expand_from(cs, i as int, env) =~= before + (seq![c] + expand_from(
                    cs,
                    i as int,
                    env,
                )));
            },
        }
    }
    string_from_chars(out.as_slice())
}

// ---------------------------------------------------------------------------------------------
// Expansion inside a card
// ---------------------------------------------------------------------------------------------

/// Where in a card a value sits, as far as expansion is concerned.
#[derive(Clone, Copy, PartialEq, Eq, Structural)]
pub enum Place {
    Card,
    Local,
    Launch,
    Endpoint,
    Liveness,
    Args,
    LaunchEnv,
    Location,
}

pub open spec fn place_rank(p: Place) -> nat {
    match p {
        Place::Card => 4,
        Place::Local => 3,
        Place::Launch => 2,
        Place::Endpoint | Place::Liveness => 2,
        Place::Args | Place::LaunchEnv => 1,
        Place::Location => 0,
    }
}

/// The place of the member named `key` of an object at place `p`, if expansion looks there.
pub open spec fn child_place(p: Place, key: Seq<char>) -> Option<Place> {
    match p {
        Place::Card => if key == "local"@ {
            Some(Place::Local)
        } else {
            None
        },
        Place::Local => if key == "launch"@ {
            Some(Place::Launch)
        } else if key == "endpoint"@ {
            Some(Place::Endpoint)
        } else if key == "liveness"@ {
            Some(Place::Liveness)
        } else {
            None
        },
        Place::Launch => if key == "command"@ || key == "cwd"@ {
            Some(Place::Location)
        } else if key == "args"@ {
            Some(Place::Args)
        } else if key == "env"@ {
            Some(Place::LaunchEnv)
        } else {
            None
        },
        Place::Endpoint => if key == "address"@ {
            Some(Place::Location)
        } else {
            None
        },
        Place::Liveness => if key == "pidFile"@ {
            Some(Place::Location)
        } else {
            None
        },
        Place::LaunchEnv => Some(Place::Location),
        _ => None,
    }
}

pub proof fn lemma_child_place_rank(p: Place, key: Seq<char>)
    ensures
        child_place(p, key) matches Some(c) ==> place_rank(c) < place_rank(p),
{
}

/// A value at place `p` after expansion: strings in location fields are expanded, everything
/// else is kept as it is.
pub open spec fn expand_at(p: Place, v: JsonV, env: Seq<(String, String)>) -> JsonV
    decreases place_rank(p),
{
    match p {
        Place::Location => match v {
            JsonV::Str(s) => JsonV::Str(expand_env_spec(s, env)),
            _ => v,
        },
        Place::Args => match v {
            JsonV::Array(items) => JsonV::Array(
                items.map_values(|x: JsonV| expand_at(Place::Location, x, env)),
            ),
            _ => v,
        },
        _ => match v {
            JsonV::Object(ms) => JsonV::Object(
                ms.map_values(
                    |m: (Seq<char>, JsonV)|
                        (
                            m.0,
                            match child_place(p, m.0) {
                                Some(c) => {
                                    proof {
                                        lemma_child_place_rank(p, m.0);
                                    }
                                    expand_at(c, m.1, env)
                                },
                                None => m.1,
                            },
                        ),
                ),
            ),
            _ => v,
        },
    }
}

/// A card after expansion of every field that resolves to a filesystem or endpoint location:
/// `local.launch.command`, `cwd`, each of `args`, each value of `env`, `local.endpoint.address`
/// and `local.liveness.pidFile`.
pub open spec fn expand_card_spec(v: JsonV, env: Seq<(String, String)>) -> JsonV {
    expand_at(Place::Card, v, env)
}

fn child_place_of(p: Place, key: &str) -> (r: Option<Place>)
    ensures
        r == child_place(p, key@),
{
    match p {
        Place::Card => if str_eq(key, "local") {
            Some(Place::Local)
        } else {
            None
        },
        Place::Local => if str_eq(key, "launch") {
            Some(Place::Launch)
        } else if str_eq(key, "endpoint") {
            Some(Place::Endpoint)
        } else if str_eq(key, "liveness") {
            Some(Place::Liveness)
        } else {
            None
        },
        Place::Launch => if str_eq(key, "command") || str_eq(key, "cwd") {
            Some(Place::Location)
        } else if str_eq(key, "args") {
            Some(Place::Args)
        } else if str_eq(key, "env") {
            Some(Place::LaunchEnv)
        } else {
            None
        },
        Place::Endpoint => if str_eq(key, "address") {
            Some(Place::Location)
        } else {
            None
        },
        Place::Liveness => if str_eq(key, "pidFile") {
            Some(Place::Location)
        } else {
            None
        },
        Place::LaunchEnv => Some(Place::Location),
        _ => None,
    }
}

fn expanded_at(p: Place, v: &Json, env: &Env) -> (r: Json)
    ensures
        r@ == expand_at(p, v@, env.vars@),
    decreases place_rank(p),
{
    match p {
        Place::Location => match v {
            Json::String(s) => Json::String(expand_env(s.as_str(), env)),
            _ => v.duplicate(),
        },
        Place::Args => match v {
            Json::Array(items) => {
                proof {
                    crate::json::lemma_view_items_index(items@);
                }
                let mut out: Vec<Json> = Vec::new();
                let mut i: usize = 0;
                while i < items.len()
                    invariant
                        i <= items@.len(),
                        p == Place::Args,
                        *v == Json::Array(*items),
                        out@.len() == i,
                        forall|k: int|
                            0 <= k < i ==> (#[trigger] out@[k])@ == expand_at(
                                Place::Location,
                                items@[k]@,
                                env.vars@,
                            ),
                    decreases items@.len() - i,
                {
                    out.push(expanded_at(Place::Location, &items[i], env));
                    i = i + 1;
                }
                proof {
                    crate::json::lemma_view_items_index(out@);
                    let lhs = view_items(out@);
                    let expected = expand_at(p, v@, env.vars@);
                    let em = expected->Array_0;
                    assert(em.len() == lhs.len());
                    assert forall|k: int| 0 <= k < lhs.len() implies lhs[k] == em[k] by {
                        assert(view_items(items@)[k] == items@[k]@);
                    }
                    assert(lhs =~= em);
                }
                Json::Array(out)
            },
            _ => v.duplicate(),
        },
        _ => match v {
            Json::Object(members) => {
                proof {
                    crate::json::lemma_view_members_index(members@);
                }
                let mut out: Vec<(String, Json)> = Vec::new();
                let mut i: usize = 0;
                while i < members.len()
                    invariant
                        i <= members@.len(),
                        p != Place::Location && p != Place::Args,
                        *v == Json::Object(*members),
                        out@.len() == i,
                        forall|k: int|
                            0 <= k < i ==> (#[trigger] out@[k]).0@ == members@[k].0@ && out@[k].1@
                                == match child_place(p, members@[k].0@) {
                                Some(c) => expand_at(c, members@[k].1@, env.vars@),
                                None => members@[k].1@,
                            },
                    decreases members@.len() - i,
                {
                    let key = &members[i].0;
                    let value = match child_place_of(p, key.as_str()) {
                        Some(c) => {
                            proof {
                                lemma_child_place_rank(p, key@);
                            }
                            expanded_at(c, &members[i].1, env)
                        },
                        None => members[i].1.duplicate(),
                    };
                    out.push((key.clone(), value));
                    i = i + 1;
                }
                proof {
                    crate::json::lemma_view_members_index(out@);
                    let lhs = view_members(out@);
                    let expected = expand_at(p, v@, env.vars@);
                    let em = expected->Object_0;
                    assert(em.len() == lhs.len());
                    assert forall|k: int| 0 <= k < lhs.len() implies lhs[k] == em[k] by {
                        assert(view_members(members@)[k] == (members@[k].0@, members@[k].1@));
                    }
                    assert(lhs =~= em);
                }
                Json::Object(out)
            },
            _ => v.duplicate(),
        },
    }
}

/// Expand env references in every field that resolves to a filesystem or endpoint location.
pub fn expand_card(value: &mut Json, lookup: &Env)
    ensures
        final(value)@ == expand_card_spec(old(value)@, lookup.vars@),
{
    let expanded = expanded_at(Place::Card, value, lookup);
    *value = expanded;
}

} // verus!
