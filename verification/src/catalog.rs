//! The derived catalog.
//!
//! The broker owns no registration data: the catalog is rebuilt from the card files on disk, so
//! the broker can be killed, reinstalled, or superseded without losing anything. Reading the
//! directories and files is the caller's part; everything decided about what was read is here.

use crate::card::{card_is, has_launch, local_member, validate, validation_error, Card, DiagnosticCode};
use crate::dirs::{first_set, join, join_path, rank_spec, Platform, Root, Tier};
use crate::env::Env;
use crate::expand::{expand_card, expand_card_spec};
use crate::hash::{launch_hash, launch_hash_spec};
use crate::json::{get_spec, Json, JsonV};
use crate::consent::chars_lt;
use crate::text::{chars_of, concat, contains_char, ends_with, owned, split, split_on, string_views};
use vstd::prelude::*;

verus! {

pub const CARD_SUFFIX: &'static str = ".card.json";

// ---------------------------------------------------------------------------------------------
// Resolving a launch command
// ---------------------------------------------------------------------------------------------

/// The non-empty pieces, in order.
pub open spec fn nonempty(s: Seq<Seq<char>>) -> Seq<Seq<char>>
    decreases s.len(),
{
    if s.len() == 0 {
        s
    } else if s.last().len() > 0 {
        nonempty(s.drop_last()).push(s.last())
    } else {
        nonempty(s.drop_last())
    }
}

/// A command containing a path separator is a path; anything else is a name to look up.
pub open spec fn has_separator(p: Platform, command: Seq<char>) -> bool {
    command.contains('/') || (p == Platform::Windows && command.contains('\\'))
}

/// The suffixes tried on a bare name: none, then on Windows each entry of `PATHEXT`.
pub open spec fn extensions_spec(p: Platform, env: Env) -> Seq<Seq<char>> {
    if p == Platform::Windows {
        let pathext = match env.get_spec("PATHEXT"@) {
            Some(v) => v,
            None => ".COM;.EXE;.BAT;.CMD"@,
        };
        seq![Seq::<char>::empty()] + nonempty(split_on(pathext, ';'))
    } else {
        seq![Seq::<char>::empty()]
    }
}

/// The directories searched for a bare name: the non-empty entries of `PATH` (or `Path`).
pub open spec fn search_dirs_spec(p: Platform, env: Env) -> Seq<Seq<char>> {
    let path_var = match first_set(env, "PATH"@, "Path"@) {
        Some(v) => v,
        None => Seq::empty(),
    };
    nonempty(split_on(path_var, if p == Platform::Windows { ';' } else { ':' }))
}

/// The candidates tried in one directory, one per extension.
pub open spec fn dir_candidates(p: Platform, dir: Seq<char>, command: Seq<char>, exts: Seq<Seq<char>>) -> Seq<Seq<char>> {
    exts.map_values(|e: Seq<char>| join_path(p, dir, command + e))
}

/// The candidates tried across directories, directory by directory.
pub open spec fn search_candidates(
    p: Platform,
    dirs: Seq<Seq<char>>,
    command: Seq<char>,
    exts: Seq<Seq<char>>,
) -> Seq<Seq<char>>
    decreases dirs.len(),
{
    if dirs.len() == 0 {
        Seq::empty()
    } else {
        search_candidates(p, dirs.drop_last(), command, exts) + dir_candidates(p, dirs.last(), command, exts)
    }
}

/// Every file a launch command could resolve to, in the order they are tried.
pub open spec fn command_candidates(p: Platform, env: Env, command: Seq<char>) -> Seq<Seq<char>> {
    if has_separator(p, command) {
        seq![command]
    } else {
        search_candidates(p, search_dirs_spec(p, env), command, extensions_spec(p, env))
    }
}

/// `probe` answered `answer` when asked about a file named `path`.
pub open spec fn reported<F: Fn(&str) -> bool>(probe: F, path: Seq<char>, answer: bool) -> bool {
    exists|x: &str| x@ == path && probe.ensures((x,), answer)
}

/// Where a command resolves: the first candidate the probe reports present, after every earlier
/// candidate was reported absent; or nothing, when every candidate was reported absent.
pub open spec fn resolution_ok<F: Fn(&str) -> bool>(
    probe: F,
    candidates: Seq<Seq<char>>,
    result: Option<Seq<char>>,
) -> bool {
    match result {
        Some(path) => exists|i: int|
            0 <= i < candidates.len() && candidates[i] == path && reported(probe, path, true)
                && forall|j: int| 0 <= j < i ==> reported(probe, #[trigger] candidates[j], false),
        None => forall|j: int| 0 <= j < candidates.len() ==> reported(probe, #[trigger] candidates[j], false),
    }
}

proof fn lemma_search_prefix(
    p: Platform,
    dirs: Seq<Seq<char>>,
    d: int,
    command: Seq<char>,
    exts: Seq<Seq<char>>,
)
    requires
        0 <= d <= dirs.len(),
    ensures
        search_candidates(p, dirs.take(d), command, exts).len() <= search_candidates(p, dirs, command, exts).len(),
        forall|k: int|
            0 <= k < search_candidates(p, dirs.take(d), command, exts).len() ==> #[trigger] search_candidates(
                p,
                dirs.take(d),
                command,
                exts,
            )[k] == search_candidates(p, dirs, command, exts)[k],
    decreases dirs.len() - d,
{
    if d < dirs.len() {
        lemma_search_prefix(p, dirs, d + 1, command, exts);
        assert(dirs.take(d + 1).drop_last() =~= dirs.take(d));
        let a = search_candidates(p, dirs.take(d), command, exts);
        let b = search_candidates(p, dirs.take(d + 1), command, exts);
        assert(b == a + dir_candidates(p, dirs.take(d + 1).last(), command, exts));
        assert forall|k: int| 0 <= k < a.len() implies #[trigger] a[k] == search_candidates(p, dirs, command, exts)[k] by {
            assert(b[k] == a[k]);
        }
    } else {
        assert(dirs.take(d) =~= dirs);
    }
}

pub(crate) fn nonempty_pieces(pieces: Vec<String>) -> (r: Vec<String>)
    ensures
        string_views(r@) == nonempty(string_views(pieces@)),
{
    let ghost all = string_views(pieces@);
    let mut out: Vec<String> = Vec::new();
    let mut i: usize = 0;
    while i < pieces.len()
        invariant
            i <= pieces@.len(),
            all == string_views(pieces@),
            string_views(out@) == nonempty(all.take(i as int)),
        decreases pieces@.len() - i,
    {
        assert(all.take(i + 1).drop_last() =~= all.take(i as int));
        assert(all[i as int] == pieces@[i as int]@);
        if !pieces[i].as_str().is_empty() {
            out.push(pieces[i].clone());
        }
        assert(string_views(out@) =~= nonempty(all.take(i + 1)));
        i = i + 1;
    }
    assert(all.take(pieces@.len() as int) =~= all);
    out
}

fn extensions(p: Platform, env: &Env) -> (r: Vec<String>)
    ensures
        string_views(r@) == extensions_spec(p, *env),
{
    let mut out: Vec<String> = Vec::new();
    out.push(String::new());
    if p == Platform::Windows {
        let pathext = match env.lookup("PATHEXT") {
            Some(v) => v,
            None => owned(".COM;.EXE;.BAT;.CMD"),
        };
        let rest = nonempty_pieces(split(pathext.as_str(), ';'));
        let mut i: usize = 0;
        while i < rest.len()
            invariant
                i <= rest@.len(),
                string_views(out@) == seq![Seq::<char>::empty()] + string_views(rest@).take(i as int),
            decreases rest@.len() - i,
        {
            let ghost prev = string_views(out@);
            out.push(rest[i].clone());
            assert(string_views(out@) =~= prev.push(rest@[i as int]@));
            assert(string_views(rest@).take(i + 1) =~= string_views(rest@).take(i as int).push(rest@[i as int]@));
            assert(string_views(out@) =~= seq![Seq::<char>::empty()] + string_views(rest@).take(i + 1));
            i = i + 1;
        }
        assert(string_views(rest@).take(rest@.len() as int) =~= string_views(rest@));
    } else {
        assert(string_views(out@) =~= seq![Seq::<char>::empty()]);
    }
    out
}

fn search_dirs(p: Platform, env: &Env) -> (r: Vec<String>)
    ensures
        string_views(r@) == search_dirs_spec(p, *env),
{
    let path_var = match env.lookup("PATH") {
        Some(v) => v,
        None => match env.lookup("Path") {
            Some(v) => v,
            None => String::new(),
        },
    };
    let sep = if p == Platform::Windows {
        ';'
    } else {
        ':'
    };
    nonempty_pieces(split(path_var.as_str(), sep))
}

/// Resolve a launch command to a file on disk, searching `PATH` for a bare name.
///
/// A command containing a separator is a path and is never searched for; anything else is a
/// name looked up in each `PATH` directory (with each `PATHEXT` suffix on Windows). `probe`
/// says whether a file exists; the result is the first candidate it reports present.
pub fn resolve_command<F: Fn(&str) -> bool>(command: &str, lookup: &Env, p: Platform, probe: &F) -> (r: Option<String>)
    requires
        forall|x: &str| probe.requires((x,)),
    ensures
        resolution_ok(*probe, command_candidates(p, *lookup, command@), match r {
            Some(s) => Some(s@),
            None => None,
        }),
{
    let windows = p == Platform::Windows;
    let has_sep = contains_char(command, '/') || (windows && contains_char(command, '\\'));
    if has_sep {
        let present = probe(command);
        if present {
            let path = owned(command);
            assert(reported(*probe, command@, true));
            assert(command_candidates(p, *lookup, command@) == seq![command@]);
            assert(command_candidates(p, *lookup, command@)[0] == path@);
            return Some(path);
        } else {
            assert(reported(*probe, command@, false));
            assert(command_candidates(p, *lookup, command@) == seq![command@]);
            return None;
        }
    }
    let exts = extensions(p, lookup);
    let dirs = search_dirs(p, lookup);
    let ghost ev = string_views(exts@);
    let ghost dv = string_views(dirs@);
    let ghost cands = search_candidates(p, dv, command@, ev);
    assert(cands == command_candidates(p, *lookup, command@));
    let mut d: usize = 0;
    assert(dv.take(0) =~= Seq::<Seq<char>>::empty());
    while d < dirs.len()
        invariant
            d <= dirs@.len(),
            dv == string_views(dirs@),
            ev == string_views(exts@),
            cands == search_candidates(p, dv, command@, ev),
            cands == command_candidates(p, *lookup, command@),
            forall|x: &str| probe.requires((x,)),
            forall|j: int|
                0 <= j < search_candidates(p, dv.take(d as int), command@, ev).len() ==> reported(
                    *probe,
                    #[trigger] search_candidates(p, dv.take(d as int), command@, ev)[j],
                    false,
                ),
        decreases dirs@.len() - d,
    {
        let ghost before = search_candidates(p, dv.take(d as int), command@, ev);
        proof {
            assert(dv.take(d + 1).drop_last() =~= dv.take(d as int));
            assert(dv.take(d + 1).last() == dv[d as int]);
            lemma_search_prefix(p, dv, d + 1, command@, ev);
        }
        let ghost here = dir_candidates(p, dv[d as int], command@, ev);
        let mut e: usize = 0;
        while e < exts.len()
            invariant
                d < dirs@.len(),
                e <= exts@.len(),
                dv == string_views(dirs@),
                ev == string_views(exts@),
                here == dir_candidates(p, dv[d as int], command@, ev),
                before == search_candidates(p, dv.take(d as int), command@, ev),
                before + here == search_candidates(p, dv.take(d + 1), command@, ev),
                cands == search_candidates(p, dv, command@, ev),
                cands == command_candidates(p, *lookup, command@),
                search_candidates(p, dv.take(d + 1), command@, ev).len() <= cands.len(),
                forall|k: int|
                    0 <= k < search_candidates(p, dv.take(d + 1), command@, ev).len() ==> #[trigger] search_candidates(
                        p,
                        dv.take(d + 1),
                        command@,
                        ev,
                    )[k] == cands[k],
                forall|x: &str| probe.requires((x,)),
                forall|j: int| 0 <= j < before.len() ==> reported(*probe, #[trigger] before[j], false),
                forall|j: int| 0 <= j < e ==> reported(*probe, #[trigger] here[j], false),
            decreases exts@.len() - e,
        {
            let name = concat(command, exts[e].as_str());
            let candidate = join(p, dirs[d].as_str(), name.as_str());
            assert(candidate@ == here[e as int]);
            let present = probe(candidate.as_str());
            if present {
                proof {
                    let i = before.len() + e;
                    assert(here.len() == ev.len());
                    assert(ev.len() == exts@.len());
                    assert(i < search_candidates(p, dv.take(d + 1), command@, ev).len());
                    assert((before + here)[i] == here[e as int]);
                    assert(cands[i] == candidate@);
                    assert(reported(*probe, candidate@, true));
                    assert forall|j: int| 0 <= j < i implies reported(*probe, #[trigger] cands[j], false) by {
                        assert(cands[j] == (before + here)[j]);
                        if j < before.len() {
                            assert((before + here)[j] == before[j]);
                        } else {
                            assert((before + here)[j] == here[j - before.len()]);
                        }
                    }
                    assert(0 <= i < cands.len() && cands[i] == candidate@ && reported(*probe, candidate@, true)
                        && forall|j: int| 0 <= j < i ==> reported(*probe, #[trigger] cands[j], false));
                }
                return Some(candidate);
            }
            assert(reported(*probe, here[e as int], false));
            e = e + 1;
        }
        proof {
            let now = search_candidates(p, dv.take(d + 1), command@, ev);
            assert forall|j: int| 0 <= j < now.len() implies reported(*probe, #[trigger] now[j], false) by {
                assert(now[j] == (before + here)[j]);
                if j < before.len() {
                    assert((before + here)[j] == before[j]);
                } else {
                    assert((before + here)[j] == here[j - before.len()]);
                }
            }
        }
        d = d + 1;
    }
    assert(dv.take(dirs@.len() as int) =~= dv);
    None
}

// ---------------------------------------------------------------------------------------------
// One card file
// ---------------------------------------------------------------------------------------------

/// What reading a card file produced.
#[derive(Debug)]
pub enum CardContent {
    /// The file could not be read; the message says why.
    Unreadable(String),
    /// The file is not JSON; the message says why.
    Malformed(String),
    /// The file's JSON document.
    Parsed(Json),
}

/// A card file as read from a registry directory.
#[derive(Debug)]
pub struct CardFile {
    /// The file's path, as displayed in diagnostics.
    pub path: String,
    /// The file's name within its directory (empty when it has none that is valid UTF-8).
    pub file_name: String,
    pub content: CardContent,
}

/// Why a card file did not yield a catalog entry.
#[derive(Debug)]
pub struct Diagnostic {
    pub code: DiagnosticCode,
    pub path: String,
    pub message: String,
    pub name: Option<String>,
}

pub struct DiagV {
    pub code: DiagnosticCode,
    pub path: Seq<char>,
    pub message: Seq<char>,
    pub name: Option<Seq<char>>,
}

impl Diagnostic {
    pub open spec fn view(self) -> DiagV {
        DiagV {
            code: self.code,
            path: self.path@,
            message: self.message@,
            name: crate::consent::opt_chars(self.name),
        }
    }
}

pub enum ContentV {
    Unreadable(Seq<char>),
    Malformed(Seq<char>),
    Parsed(JsonV),
}

pub open spec fn content_view(c: CardContent) -> ContentV {
    match c {
        CardContent::Unreadable(m) => ContentV::Unreadable(m@),
        CardContent::Malformed(m) => ContentV::Malformed(m@),
        CardContent::Parsed(v) => ContentV::Parsed(v@),
    }
}

/// What a card file yields: its expanded card, or the diagnostic explaining why not.
pub enum ParseV {
    Accepted(JsonV),
    Rejected(DiagV),
}

/// The name a parsed document gives itself, when it is a string.
pub open spec fn name_of(v: JsonV) -> Option<Seq<char>> {
    match get_spec(v, "name"@) {
        Some(JsonV::Str(s)) => Some(s),
        _ => None,
    }
}

/// A string member of a document (empty when it is not one).
pub open spec fn str_member(v: JsonV, key: Seq<char>) -> Seq<char> {
    match get_spec(v, key) {
        Some(JsonV::Str(s)) => s,
        _ => Seq::empty(),
    }
}

/// The outcome of one card file: unreadable and malformed files, invalid cards, and cards whose
/// file name is not `<name>.card.json` are rejected; a valid card is expanded and validated
/// again.
pub open spec fn parse_spec(path: Seq<char>, file_name: Seq<char>, content: ContentV, env: Env) -> ParseV {
    match content {
        ContentV::Unreadable(m) => ParseV::Rejected(
            DiagV { code: DiagnosticCode::Unreadable, path, message: m, name: None },
        ),
        ContentV::Malformed(m) => ParseV::Rejected(
            DiagV { code: DiagnosticCode::MalformedJson, path, message: m, name: None },
        ),
        ContentV::Parsed(v) => match validation_error(v) {
            Some(m) => ParseV::Rejected(
                DiagV { code: DiagnosticCode::SchemaInvalid, path, message: m, name: name_of(v) },
            ),
            None => {
                let name = str_member(v, "name"@);
                let expected = name + ".card.json"@;
                if file_name != expected {
                    ParseV::Rejected(
                        DiagV {
                            code: DiagnosticCode::FilenameMismatch,
                            path,
                            message: "expected "@ + expected + ", found "@ + file_name,
                            name: Some(name),
                        },
                    )
                } else {
                    let e = expand_card_spec(v, env.vars@);
                    match validation_error(e) {
                        Some(m) => ParseV::Rejected(
                            DiagV {
                                code: DiagnosticCode::SchemaInvalid,
                                path,
                                message: m,
                                name: Some(name),
                            },
                        ),
                        None => ParseV::Accepted(e),
                    }
                }
            },
        },
    }
}

/// Read and validate one card file. Never fails as a whole: every problem becomes a
/// diagnostic, so a single bad file cannot blank out the catalog.
pub fn parse_card_file(file: &CardFile, lookup: &Env) -> (r: Result<(Card, Json), Diagnostic>)
    ensures
        match r {
            Ok((card, expanded)) => parse_spec(file.path@, file.file_name@, content_view(file.content), *lookup)
                == ParseV::Accepted(expanded@) && card_is(card, expanded@),
            Err(d) => parse_spec(file.path@, file.file_name@, content_view(file.content), *lookup)
                == ParseV::Rejected(d@),
        },
{
    let value = match &file.content {
        CardContent::Unreadable(m) => {
            return Err(
                Diagnostic {
                    code: DiagnosticCode::Unreadable,
                    path: file.path.clone(),
                    message: m.clone(),
                    name: None,
                },
            );
        },
        CardContent::Malformed(m) => {
            return Err(
                Diagnostic {
                    code: DiagnosticCode::MalformedJson,
                    path: file.path.clone(),
                    message: m.clone(),
                    name: None,
                },
            );
        },
        CardContent::Parsed(v) => v,
    };
    let card = match validate(value) {
        Ok(c) => c,
        Err(message) => {
            let name = match value.get("name") {
                Some(Json::String(s)) => Some(s.clone()),
                _ => None,
            };
            return Err(
                Diagnostic { code: DiagnosticCode::SchemaInvalid, path: file.path.clone(), message, name },
            );
        },
    };
    let expected = concat(card.name.as_str(), CARD_SUFFIX);
    proof {
        reveal_strlit(".card.json");
    }
    assert(card.name@ == str_member(value@, "name"@));
    if !crate::json::str_eq(file.file_name.as_str(), expected.as_str()) {
        let mut msg: Vec<char> = Vec::new();
        crate::text::push_str(&mut msg, "expected ");
        crate::text::push_str(&mut msg, expected.as_str());
        crate::text::push_str(&mut msg, ", found ");
        crate::text::push_str(&mut msg, file.file_name.as_str());
        let message = crate::text::string_from_chars(msg.as_slice());
        return Err(
            Diagnostic {
                code: DiagnosticCode::FilenameMismatch,
                path: file.path.clone(),
                message,
                name: Some(card.name),
            },
        );
    }
    let mut expanded = value.duplicate();
    expand_card(&mut expanded, lookup);
    match validate(&expanded) {
        Ok(expanded_card) => Ok((expanded_card, expanded)),
        Err(message) => Err(
            Diagnostic {
                code: DiagnosticCode::SchemaInvalid,
                path: file.path.clone(),
                message,
                name: Some(card.name),
            },
        ),
    }
}


// ---------------------------------------------------------------------------------------------
// The merged catalog
// ---------------------------------------------------------------------------------------------

/// A lower-tier card hidden by an entry of the same name.
#[derive(Debug)]
pub struct ShadowedBy {
    pub path: String,
    pub tier: Tier,
}

/// One server in the catalog: the card that won for its name, expanded.
#[derive(Debug)]
pub struct Entry {
    pub name: String,
    pub card: Card,
    /// The expanded card as JSON; the launch hash is computed over it, and the activation
    /// engine reads the full launch stanza from it.
    pub expanded: Json,
    pub version: String,
    pub tier: Tier,
    pub path: String,
    pub orphaned: bool,
    pub shadowed: Vec<ShadowedBy>,
    pub launch_hash: String,
}

/// Every entry (sorted by name) and every diagnostic.
#[derive(Debug)]
pub struct Catalog {
    pub entries: Vec<Entry>,
    pub diagnostics: Vec<Diagnostic>,
}

/// What `enumerate` merges: the registry roots, the environment that card strings are
/// expanded against, and whether entries whose launch binary is gone are kept.
pub struct EnumerateOptions {
    pub roots: Vec<Root>,
    pub lookup: Env,
    pub include_orphaned: bool,
}

pub struct EntryV {
    pub name: Seq<char>,
    pub expanded: JsonV,
    pub version: Seq<char>,
    pub tier: Tier,
    pub path: Seq<char>,
    pub orphaned: bool,
    pub shadowed: Seq<(Seq<char>, Tier)>,
    pub launch_hash: Seq<char>,
}

pub open spec fn shadows_view(s: Seq<ShadowedBy>) -> Seq<(Seq<char>, Tier)> {
    s.map_values(|x: ShadowedBy| (x.path@, x.tier))
}

impl Entry {
    pub open spec fn view(self) -> EntryV {
        EntryV {
            name: self.name@,
            expanded: self.expanded@,
            version: self.version@,
            tier: self.tier,
            path: self.path@,
            orphaned: self.orphaned,
            shadowed: shadows_view(self.shadowed@),
            launch_hash: self.launch_hash@,
        }
    }
}

pub open spec fn entries_view(s: Seq<Entry>) -> Seq<EntryV> {
    s.map_values(|e: Entry| e.view())
}

pub open spec fn diags_view(s: Seq<Diagnostic>) -> Seq<DiagV> {
    s.map_values(|d: Diagnostic| d.view())
}

/// How a tier is named in diagnostics.
pub open spec fn tier_label(t: Tier) -> Seq<char> {
    match t {
        Tier::Package => "Package"@,
        Tier::System => "System"@,
        Tier::User => "User"@,
        Tier::Low => "Low"@,
    }
}

pub(crate) fn tier_label_str(t: Tier) -> (r: &'static str)
    ensures
        r@ == tier_label(t),
{
    match t {
        Tier::Package => "Package",
        Tier::System => "System",
        Tier::User => "User",
        Tier::Low => "Low",
    }
}

/// The positions of the roots of rank `rank`, in order.
pub open spec fn ranked(roots: Seq<Root>, rank: u8) -> Seq<int>
    decreases roots.len(),
{
    if roots.len() == 0 {
        Seq::empty()
    } else if rank_spec(roots.last().tier) == rank {
        ranked(roots.drop_last(), rank).push(roots.len() - 1)
    } else {
        ranked(roots.drop_last(), rank)
    }
}

/// The order in which roots are merged: highest rank first, and within a rank in the order
/// given (which is what makes the order of `XDG_DATA_DIRS` meaningful).
pub open spec fn root_order(roots: Seq<Root>) -> Seq<int> {
    ranked(roots, 3) + ranked(roots, 2) + ranked(roots, 1) + ranked(roots, 0)
}

proof fn lemma_ranked_bounds(roots: Seq<Root>, rank: u8)
    ensures
        forall|k: int| 0 <= k < ranked(roots, rank).len() ==> 0 <= #[trigger] ranked(roots, rank)[k] < roots.len(),
    decreases roots.len(),
{
    if roots.len() > 0 {
        let t = roots.drop_last();
        lemma_ranked_bounds(t, rank);
        assert forall|k: int| 0 <= k < ranked(roots, rank).len() implies 0 <= #[trigger] ranked(roots, rank)[k]
            < roots.len() by {
            if k < ranked(t, rank).len() {
                assert(ranked(roots, rank)[k] == ranked(t, rank)[k]);
            }
        }
    }
}

proof fn lemma_ranked_rank(roots: Seq<Root>, rank: u8)
    ensures
        forall|k: int|
            0 <= k < ranked(roots, rank).len() ==> 0 <= #[trigger] ranked(roots, rank)[k] < roots.len() && rank_spec(
                roots[ranked(roots, rank)[k]].tier,
            ) == rank,
    decreases roots.len(),
{
    if roots.len() > 0 {
        let t = roots.drop_last();
        lemma_ranked_rank(t, rank);
        assert forall|k: int| 0 <= k < ranked(roots, rank).len() implies 0 <= #[trigger] ranked(roots, rank)[k]
            < roots.len() && rank_spec(roots[ranked(roots, rank)[k]].tier) == rank by {
            if k < ranked(t, rank).len() {
                assert(ranked(roots, rank)[k] == ranked(t, rank)[k]);
                assert(roots[ranked(t, rank)[k]] == t[ranked(t, rank)[k]]);
            }
        }
    }
}

/// Roots are merged from the highest tier down: along the merge order the rank of the roots'
/// tiers never increases, so a package root comes before every system root, a system root
/// before every user root, and a user root before every low root. This is what makes the first
/// card seen for a name (the one that wins) the one from the highest tier that has it.
pub proof fn law_roots_merge_highest_rank_first(roots: Seq<Root>)
    ensures
        forall|k: int| 0 <= k < root_order(roots).len() ==> 0 <= #[trigger] root_order(roots)[k] < roots.len(),
        forall|i: int, j: int|
            0 <= i < j < root_order(roots).len() ==> rank_spec(roots[#[trigger] root_order(roots)[i]].tier)
                >= rank_spec(roots[#[trigger] root_order(roots)[j]].tier),
{
    lemma_ranked_rank(roots, 3);
    lemma_ranked_rank(roots, 2);
    lemma_ranked_rank(roots, 1);
    lemma_ranked_rank(roots, 0);
    let a = ranked(roots, 3);
    let b = ranked(roots, 2);
    let c = ranked(roots, 1);
    let d = ranked(roots, 0);
    let ro = root_order(roots);
    assert(ro == a + b + c + d);
    assert forall|k: int| 0 <= k < ro.len() implies 0 <= #[trigger] ro[k] < roots.len() && rank_spec(roots[ro[k]].tier)
        == (if k < a.len() {
        3int
    } else if k < a.len() + b.len() {
        2int
    } else if k < a.len() + b.len() + c.len() {
        1int
    } else {
        0int
    }) by {
        if k < a.len() {
            assert(ro[k] == a[k]);
        } else if k < a.len() + b.len() {
            assert(ro[k] == b[k - a.len()]);
        } else if k < a.len() + b.len() + c.len() {
            assert(ro[k] == c[k - a.len() - b.len()]);
        } else {
            assert(ro[k] == d[k - a.len() - b.len() - c.len()]);
        }
    }
}

fn push_ranked(roots: &Vec<Root>, rank: u8, out: &mut Vec<usize>)
    ensures
        final(out)@.len() == old(out)@.len() + ranked(roots@, rank).len(),
        forall|k: int| 0 <= k < old(out)@.len() ==> final(out)@[k] == old(out)@[k],
        forall|k: int|
            0 <= k < ranked(roots@, rank).len() ==> final(out)@[old(out)@.len() + k] as int == #[trigger] ranked(
                roots@,
                rank,
            )[k],
{
    let ghost start = out@;
    let mut i: usize = 0;
    while i < roots.len()
        invariant
            i <= roots@.len(),
            out@.len() == start.len() + ranked(roots@.take(i as int), rank).len(),
            forall|k: int| 0 <= k < start.len() ==> out@[k] == start[k],
            forall|k: int|
                0 <= k < ranked(roots@.take(i as int), rank).len() ==> out@[start.len() + k] as int
                    == #[trigger] ranked(roots@.take(i as int), rank)[k],
        decreases roots@.len() - i,
    {
        assert(roots@.take(i + 1).drop_last() =~= roots@.take(i as int));
        if roots[i].tier.rank() == rank {
            out.push(i);
        }
        i = i + 1;
    }
    assert(roots@.take(roots@.len() as int) =~= roots@);
}

/// The positions of `roots` in merge order.
fn order_roots(roots: &Vec<Root>) -> (r: Vec<usize>)
    ensures
        r@.len() == root_order(roots@).len(),
        forall|k: int| 0 <= k < r@.len() ==> r@[k] as int == #[trigger] root_order(roots@)[k],
{
    let mut out: Vec<usize> = Vec::new();
    push_ranked(roots, 3, &mut out);
    push_ranked(roots, 2, &mut out);
    push_ranked(roots, 1, &mut out);
    push_ranked(roots, 0, &mut out);
    proof {
        let a = ranked(roots@, 3);
        let b = ranked(roots@, 2);
        let c = ranked(roots@, 1);
        let d = ranked(roots@, 0);
        assert forall|k: int| 0 <= k < out@.len() implies out@[k] as int == #[trigger] root_order(roots@)[k] by {
            if k < a.len() {
                assert(out@[k] as int == a[k]);
            } else if k < a.len() + b.len() {
                assert(out@[a.len() + (k - a.len())] as int == b[k - a.len()]);
            } else if k < a.len() + b.len() + c.len() {
                assert(out@[a.len() + b.len() + (k - a.len() - b.len())] as int == c[k - a.len() - b.len()]);
            } else {
                assert(out@[a.len() + b.len() + c.len() + (k - a.len() - b.len() - c.len())] as int
                    == d[k - a.len() - b.len() - c.len()]);
            }
        }
    }
    out
}

// ---------------------------------------------------------------------------------------------
// Merging one card file into the catalog
// ---------------------------------------------------------------------------------------------

/// The launch command of a card, if it has a launch stanza.
pub open spec fn card_launch_command(c: Card) -> Option<Seq<char>> {
    match c.local {
        Some(l) => match l.launch {
            Some(x) => Some(x.command@),
            None => None,
        },
        None => None,
    }
}

/// The launch command a card document gives, if it has a launch stanza.
pub open spec fn launch_command(v: JsonV) -> Option<Seq<char>> {
    if has_launch(v) {
        match get_spec(local_member(v, "launch"@).unwrap(), "command"@) {
            Some(JsonV::Str(c)) => Some(c),
            _ => None,
        }
    } else {
        None
    }
}

proof fn lemma_launch_command(c: Card, v: JsonV)
    requires
        card_is(c, v),
    ensures
        card_launch_command(c) == launch_command(v),
{
}

/// A card is orphaned exactly when it has a launch command that resolves nowhere: every
/// candidate file was reported absent. A card with a launch command that is not orphaned had
/// one candidate reported present.
pub open spec fn orphan_cmd_ok<F: Fn(&str) -> bool>(
    probe: F,
    p: Platform,
    env: Env,
    command: Option<Seq<char>>,
    orphaned: bool,
) -> bool {
    match command {
        Some(c) => if orphaned {
            resolution_ok(probe, command_candidates(p, env, c), None)
        } else {
            exists|path: Seq<char>| #[trigger] resolution_ok(probe, command_candidates(p, env, c), Some(path))
        },
        None => !orphaned,
    }
}

pub open spec fn orphan_ok<F: Fn(&str) -> bool>(probe: F, p: Platform, env: Env, v: JsonV, orphaned: bool) -> bool {
    orphan_cmd_ok(probe, p, env, launch_command(v), orphaned)
}

/// What holds of every entry: its card is the decoding of its expanded document, and its
/// orphan flag agrees with the probe.
pub open spec fn entries_ok<F: Fn(&str) -> bool>(probe: F, p: Platform, env: Env, s: Seq<Entry>) -> bool {
    forall|i: int|
        0 <= i < s.len() ==> card_is(#[trigger] s[i].card, s[i].expanded@) && orphan_ok(
            probe,
            p,
            env,
            s[i].expanded@,
            s[i].orphaned,
        )
}

/// A card whose launch binary has vanished, typically after a failed uninstall.
fn is_orphaned<F: Fn(&str) -> bool>(card: &Card, lookup: &Env, p: Platform, probe: &F) -> (r: bool)
    requires
        forall|x: &str| probe.requires((x,)),
    ensures
        orphan_cmd_ok(*probe, p, *lookup, card_launch_command(*card), r),
{
    match &card.local {
        Some(l) => match &l.launch {
            Some(launch) => {
                let res = resolve_command(launch.command.as_str(), lookup, p, probe);
                match res {
                    Some(found) => {
                        assert(card_launch_command(*card) == Some(launch.command@));
                        assert(resolution_ok(
                            *probe,
                            command_candidates(p, *lookup, launch.command@),
                            Some(found@),
                        ));
                        let ghost c = card_launch_command(*card).unwrap();
                        assert(exists|path: Seq<char>| #[trigger] resolution_ok(
                            *probe,
                            command_candidates(p, *lookup, c),
                            Some(path),
                        ));
                        assert(orphan_cmd_ok(*probe, p, *lookup, Some(c), false));
                        false
                    },
                    None => {
                        assert(resolution_ok(*probe, command_candidates(p, *lookup, launch.command@), None));
                        true
                    },
                }
            },
            None => false,
        },
        None => false,
    }
}

/// The position of the first entry called `name` at or after `from`.
pub open spec fn first_named(s: Seq<EntryV>, name: Seq<char>, from: int) -> Option<int>
    decreases s.len() - from,
{
    if from >= s.len() {
        None
    } else if s[from].name == name {
        Some(from)
    } else {
        first_named(s, name, from + 1)
    }
}

fn find_entry(entries: &Vec<Entry>, name: &str) -> (r: Option<usize>)
    ensures
        match r {
            Some(k) => first_named(entries_view(entries@), name@, 0) == Some(k as int),
            None => first_named(entries_view(entries@), name@, 0) is None,
        },
{
    let ghost ev = entries_view(entries@);
    let mut i: usize = 0;
    while i < entries.len()
        invariant
            i <= entries@.len(),
            ev == entries_view(entries@),
            first_named(ev, name@, 0) == first_named(ev, name@, i as int),
        decreases entries@.len() - i,
    {
        assert(ev[i as int].name == entries@[i as int].name@);
        if crate::json::str_eq(entries[i].name.as_str(), name) {
            return Some(i);
        }
        i = i + 1;
    }
    None
}

/// A new entry for a card seen for the first time.
pub open spec fn new_entry(tier: Tier, path: Seq<char>, e: JsonV, orphaned: bool) -> EntryV {
    EntryV {
        name: str_member(e, "name"@),
        expanded: e,
        version: str_member(e, "version"@),
        tier,
        path,
        orphaned,
        shadowed: Seq::empty(),
        launch_hash: launch_hash_spec(e),
    }
}

/// The entry `existing` after a lower-tier card at `path` turned out to share its name.
pub open spec fn shadowed_entry(existing: EntryV, path: Seq<char>, tier: Tier) -> EntryV {
    EntryV {
        name: existing.name,
        expanded: existing.expanded,
        version: existing.version,
        tier: existing.tier,
        path: existing.path,
        orphaned: existing.orphaned,
        shadowed: existing.shadowed.push((path, tier)),
        launch_hash: existing.launch_hash,
    }
}

pub open spec fn shadow_message(existing: EntryV) -> Seq<char> {
    "shadowed by "@ + tier_label(existing.tier) + " tier card at "@ + existing.path
}

/// The catalog after one more card file: a rejected file adds its diagnostic; an accepted card
/// whose name is already taken (by a card merged earlier, so from a tier of the same or higher
/// rank) is recorded on that entry as shadowed, with a diagnostic; any other accepted card
/// becomes a new entry.
pub open spec fn merge_step(
    entries: Seq<EntryV>,
    diags: Seq<DiagV>,
    tier: Tier,
    file: CardFile,
    env: Env,
    orphaned: bool,
) -> (Seq<EntryV>, Seq<DiagV>) {
    match parse_spec(file.path@, file.file_name@, content_view(file.content), env) {
        ParseV::Rejected(d) => (entries, diags.push(d)),
        ParseV::Accepted(e) => {
            let name = str_member(e, "name"@);
            match first_named(entries, name, 0) {
                Some(k) => (
                    entries.update(k, shadowed_entry(entries[k], file.path@, tier)),
                    diags.push(
                        DiagV {
                            code: DiagnosticCode::Shadowed,
                            path: file.path@,
                            message: shadow_message(entries[k]),
                            name: Some(name),
                        },
                    ),
                ),
                None => (entries.push(new_entry(tier, file.path@, e, orphaned)), diags),
            }
        },
    }
}

proof fn lemma_first_named_found(s: Seq<EntryV>, name: Seq<char>, from: int)
    requires
        0 <= from,
    ensures
        match first_named(s, name, from) {
            Some(k) => from <= k < s.len() && s[k].name == name,
            None => true,
        },
    decreases s.len() - from,
{
    if from < s.len() && s[from].name != name {
        lemma_first_named_found(s, name, from + 1);
    }
}

fn merge_file<F: Fn(&str) -> bool>(
    entries: &mut Vec<Entry>,
    diagnostics: &mut Vec<Diagnostic>,
    tier: Tier,
    file: &CardFile,
    lookup: &Env,
    p: Platform,
    probe: &F,
) -> (orphaned: Ghost<bool>)
    requires
        forall|x: &str| probe.requires((x,)),
        entries_ok(*probe, p, *lookup, old(entries)@),
    ensures
        entries_view(final(entries)@) == merge_step(
            entries_view(old(entries)@),
            diags_view(old(diagnostics)@),
            tier,
            *file,
            *lookup,
            orphaned@,
        ).0,
        diags_view(final(diagnostics)@) == merge_step(
            entries_view(old(entries)@),
            diags_view(old(diagnostics)@),
            tier,
            *file,
            *lookup,
            orphaned@,
        ).1,
        entries_ok(*probe, p, *lookup, final(entries)@),
{
    let ghost ev0 = entries_view(entries@);
    let ghost dv0 = diags_view(diagnostics@);
    match parse_card_file(file, lookup) {
        Err(d) => {
            diagnostics.push(d);
            assert(diags_view(diagnostics@) =~= dv0.push(d@));
            Ghost(false)
        },
        Ok((card, expanded)) => {
            let ghost e = expanded@;
            assert(card.name@ == str_member(e, "name"@));
            match find_entry(entries, card.name.as_str()) {
                Some(k) => {
                    proof {
                        lemma_first_named_found(ev0, card.name@, 0);
                    }
                    let ghost before = entries@;
                    let mut existing = entries.remove(k);
                    assert(existing.view() == ev0[k as int]);
                    let mut msg: Vec<char> = Vec::new();
                    crate::text::push_str(&mut msg, "shadowed by ");
                    crate::text::push_str(&mut msg, tier_label_str(existing.tier));
                    crate::text::push_str(&mut msg, " tier card at ");
                    crate::text::push_str(&mut msg, existing.path.as_str());
                    let message = crate::text::string_from_chars(msg.as_slice());
                    proof {
                        reveal_strlit("shadowed by ");
                        reveal_strlit(" tier card at ");
                        assert(message@ =~= shadow_message(ev0[k as int]));
                    }
                    let ghost old_shadows = existing.shadowed@;
                    existing.shadowed.push(ShadowedBy { path: file.path.clone(), tier });
                    assert(shadows_view(existing.shadowed@) =~= shadows_view(old_shadows).push((file.path@, tier)));
                    assert(existing.view() == shadowed_entry(ev0[k as int], file.path@, tier));
                    entries.insert(k, existing);
                    assert(entries@ =~= before.update(k as int, existing));
                    assert(entries_view(entries@) =~= ev0.update(k as int, shadowed_entry(ev0[k as int], file.path@, tier)));
                    let d = Diagnostic {
                        code: DiagnosticCode::Shadowed,
                        path: file.path.clone(),
                        message,
                        name: Some(card.name),
                    };
                    diagnostics.push(d);
                    assert(diags_view(diagnostics@) =~= dv0.push(d@));
                    proof {
                        assert forall|i: int| 0 <= i < entries@.len() implies card_is(#[trigger] entries@[i].card, entries@[i].expanded@)
                            && orphan_ok(*probe, p, *lookup, entries@[i].expanded@, entries@[i].orphaned) by {
                            assert(before[i].card == entries@[i].card || i == k);
                        }
                    }
                    Ghost(false)
                },
                None => {
                    let orphaned = is_orphaned(&card, lookup, p, probe);
                    proof {
                        lemma_launch_command(card, e);
                    }
                    let hash = launch_hash(&expanded);
                    let name = card.name.clone();
                    let version = card.version.clone();
                    let ghost before = entries@;
                    let entry = Entry {
                        name,
                        card,
                        expanded,
                        version,
                        tier,
                        path: file.path.clone(),
                        orphaned,
                        shadowed: Vec::new(),
                        launch_hash: hash,
                    };
                    assert(shadows_view(entry.shadowed@) =~= Seq::<(Seq<char>, Tier)>::empty());
                    assert(entry.view() == new_entry(tier, file.path@, e, orphaned));
                    entries.push(entry);
                    assert(entries_view(entries@) =~= ev0.push(new_entry(tier, file.path@, e, orphaned)));
                    assert(diags_view(diagnostics@) =~= dv0);
                    proof {
                        assert forall|i: int| 0 <= i < entries@.len() implies card_is(#[trigger] entries@[i].card, entries@[i].expanded@)
                            && orphan_ok(*probe, p, *lookup, entries@[i].expanded@, entries@[i].orphaned) by {
                            if i < before.len() {
                                assert(entries@[i] == before[i]);
                            }
                        }
                    }
                    Ghost(orphaned)
                },
            }
        },
    }
}

// ---------------------------------------------------------------------------------------------
// Ordering the entries
// ---------------------------------------------------------------------------------------------

/// Names in strictly increasing order (the order of `String`), so each occurs once.
pub open spec fn by_name(s: Seq<EntryV>) -> bool {
    forall|i: int, j: int| 0 <= i < j < s.len() ==> chars_lt(#[trigger] s[i].name, #[trigger] s[j].name)
}

pub open spec fn distinct_names(s: Seq<EntryV>) -> bool {
    forall|i: int, j: int| 0 <= i < j < s.len() ==> (#[trigger] s[i]).name != (#[trigger] s[j]).name
}

/// The entries whose launch binary is still there, in order.
pub open spec fn present_only(s: Seq<EntryV>) -> Seq<EntryV>
    decreases s.len(),
{
    if s.len() == 0 {
        s
    } else if s.last().orphaned {
        present_only(s.drop_last())
    } else {
        present_only(s.drop_last()).push(s.last())
    }
}

/// The entries a catalog keeps: all of them, or only those that are not orphaned.
pub open spec fn kept(s: Seq<EntryV>, include_orphaned: bool) -> Seq<EntryV> {
    if include_orphaned {
        s
    } else {
        present_only(s)
    }
}

pub open spec fn cards_ok(s: Seq<Entry>) -> bool {
    forall|i: int| 0 <= i < s.len() ==> card_is(#[trigger] s[i].card, s[i].expanded@)
}

proof fn lemma_insert_by_name(s: Seq<EntryV>, pos: int, x: EntryV)
    requires
        by_name(s),
        0 <= pos <= s.len(),
        forall|k: int| 0 <= k < pos ==> chars_lt(#[trigger] s[k].name, x.name),
        forall|k: int| pos <= k < s.len() ==> chars_lt(x.name, #[trigger] s[k].name),
    ensures
        by_name(s.insert(pos, x)),
{
    let t = s.insert(pos, x);
    assert forall|i: int, j: int| 0 <= i < j < t.len() implies chars_lt(#[trigger] t[i].name, #[trigger] t[j].name) by {
        if j < pos {
            assert(t[i] == s[i] && t[j] == s[j]);
        } else if j == pos {
            assert(t[i] == s[i] && t[j] == x);
        } else if i < pos {
            assert(t[i] == s[i] && t[j] == s[j - 1]);
        } else if i == pos {
            assert(t[i] == x && t[j] == s[j - 1]);
        } else {
            assert(t[i] == s[i - 1] && t[j] == s[j - 1]);
        }
    }
}

/// Where `name` goes among entries sorted by name: after every smaller name.
fn insert_position(sorted: &Vec<Entry>, name: &str) -> (pos: usize)
    ensures
        pos <= sorted@.len(),
        forall|k: int| 0 <= k < pos ==> chars_lt(#[trigger] sorted@[k].name@, name@),
        pos < sorted@.len() ==> !chars_lt(sorted@[pos as int].name@, name@),
{
    let mut i: usize = 0;
    while i < sorted.len()
        invariant
            i <= sorted@.len(),
            forall|k: int| 0 <= k < i ==> chars_lt(#[trigger] sorted@[k].name@, name@),
        decreases sorted@.len() - i,
    {
        if !crate::consent::chars_less(sorted[i].name.as_str(), name) {
            return i;
        }
        i = i + 1;
    }
    i
}

/// The entries sorted by name, keeping the orphaned ones only when asked to.
fn sort_entries(entries: Vec<Entry>, include_orphaned: bool) -> (r: Vec<Entry>)
    requires
        distinct_names(entries_view(entries@)),
        cards_ok(entries@),
    ensures
        by_name(entries_view(r@)),
        entries_view(r@).to_multiset() == kept(entries_view(entries@), include_orphaned).to_multiset(),
        cards_ok(r@),
{
    broadcast use vstd::multiset::group_multiset_axioms;

    let ghost ev = entries_view(entries@);
    let ghost total = kept(ev, include_orphaned).to_multiset();
    let mut rest = entries;
    let mut sorted: Vec<Entry> = Vec::new();
    assert(ev.take(ev.len() as int) =~= ev);
    proof {
        vstd::seq_lib::to_multiset_len(entries_view(sorted@));
        vstd::multiset::lemma_multiset_empty_len(entries_view(sorted@).to_multiset());
    }
    while rest.len() > 0
        invariant
            distinct_names(ev),
            entries_view(rest@) == ev.take(rest@.len() as int),
            rest@.len() <= ev.len(),
            total == kept(ev, include_orphaned).to_multiset(),
            entries_view(sorted@).to_multiset().add(kept(entries_view(rest@), include_orphaned).to_multiset()) == total,
            by_name(entries_view(sorted@)),
            forall|i: int, j: int|
                0 <= i < rest@.len() && 0 <= j < sorted@.len() ==> (#[trigger] rest@[i]).name@ != (
                #[trigger] sorted@[j]).name@,
            cards_ok(rest@),
            cards_ok(sorted@),
        decreases rest@.len(),
    {
        let ghost rv = entries_view(rest@);
        let ghost sv = entries_view(sorted@);
        let ghost n = rest@.len() as int;
        let ghost before_rest = rest@;
        let x = rest.pop().unwrap();
        assert(entries_view(rest@) =~= rv.drop_last());
        assert(rv =~= rv.drop_last().push(x@));
        assert(x@ == ev[n - 1]);
        assert(rv.drop_last() =~= ev.take(n - 1));
        assert(card_is(x.card, x.expanded@)) by {
            assert(before_rest[n - 1] == x);
        }
        assert forall|i: int| 0 <= i < rest@.len() implies card_is(#[trigger] rest@[i].card, rest@[i].expanded@) by {
            assert(rest@[i] == before_rest[i]);
        }
        let keep = include_orphaned || !x.orphaned;
        proof {
            if include_orphaned {
                assert(kept(rv, include_orphaned) == rv.drop_last().push(x@));
            } else if x.orphaned {
                assert(kept(rv, include_orphaned) == kept(rv.drop_last(), include_orphaned));
            } else {
                assert(kept(rv, include_orphaned) == kept(rv.drop_last(), include_orphaned).push(x@));
            }
            assert forall|i: int, j: int|
                0 <= i < rest@.len() && 0 <= j < sorted@.len() implies (#[trigger] rest@[i]).name@ != (
                #[trigger] sorted@[j]).name@ by {
                assert(rest@[i] == before_rest[i]);
            }
        }
        if keep {
            let pos = insert_position(&sorted, x.name.as_str());
            proof {
                assert forall|k: int| 0 <= k < sorted@.len() implies (#[trigger] sorted@[k]).name@ != x.name@ by {
                    assert(before_rest[n - 1] == x);
                }
                if pos < sorted@.len() {
                    let s0 = sorted@[pos as int].name@;
                    crate::consent::lemma_chars_lt_total(s0, x.name@);
                    assert forall|k: int| pos <= k < sv.len() implies chars_lt(x.name@, #[trigger] sv[k].name) by {
                        if k > pos {
                            assert(chars_lt(sv[pos as int].name, sv[k].name));
                            crate::consent::lemma_chars_lt_transitive(x.name@, s0, sv[k].name);
                        }
                    }
                }
                assert forall|k: int| 0 <= k < pos implies chars_lt(#[trigger] sv[k].name, x.name@) by {
                    assert(sv[k].name == sorted@[k].name@);
                }
                lemma_insert_by_name(sv, pos as int, x@);
            }
            let ghost before_sorted = sorted@;
            sorted.insert(pos, x);
            proof {
                assert(entries_view(sorted@) =~= sv.insert(pos as int, x@));
                vstd::seq_lib::to_multiset_insert(sv, pos as int, x@);
                if include_orphaned {
                    vstd::seq_lib::to_multiset_build(rv.drop_last(), x@);
                } else {
                    vstd::seq_lib::to_multiset_build(kept(rv.drop_last(), include_orphaned), x@);
                }
                assert(entries_view(sorted@).to_multiset().add(kept(entries_view(rest@), include_orphaned).to_multiset())
                    =~= total);
                assert forall|i: int| 0 <= i < sorted@.len() implies card_is(#[trigger] sorted@[i].card, sorted@[i].expanded@) by {
                    if i < pos {
                        assert(sorted@[i] == before_sorted[i]);
                    } else if i > pos {
                        assert(sorted@[i] == before_sorted[i - 1]);
                    }
                }
                assert forall|i: int, j: int|
                    0 <= i < rest@.len() && 0 <= j < sorted@.len() implies (#[trigger] rest@[i]).name@ != (
                    #[trigger] sorted@[j]).name@ by {
                    assert(rest@[i] == before_rest[i]);
                    assert(entries_view(rest@)[i] == rest@[i]@);
                    assert(ev.take(n - 1)[i] == ev[i]);
                    if j < pos {
                        assert(sorted@[j] == before_sorted[j]);
                    } else if j > pos {
                        assert(sorted@[j] == before_sorted[j - 1]);
                    } else {
                        assert(sorted@[j] == x);
                    }
                }
            }
        }
    }
    assert(kept(entries_view(rest@), include_orphaned) =~= Seq::<EntryV>::empty()) by {
        assert(entries_view(rest@) =~= Seq::<EntryV>::empty());
    }
    proof {
        vstd::seq_lib::to_multiset_len(kept(entries_view(rest@), include_orphaned));
        vstd::multiset::lemma_multiset_empty_len(kept(entries_view(rest@), include_orphaned).to_multiset());
    }
    assert(entries_view(sorted@).to_multiset() =~= total);
    sorted
}

// ---------------------------------------------------------------------------------------------
// Enumeration
// ---------------------------------------------------------------------------------------------

/// The card files read from root `i` (none when it was not read, as for a missing directory).
pub open spec fn scan_at(scans: Seq<Vec<CardFile>>, i: int) -> Seq<CardFile> {
    if 0 <= i < scans.len() {
        scans[i]@
    } else {
        Seq::empty()
    }
}

pub open spec fn tagged(t: Tier, files: Seq<CardFile>) -> Seq<(Tier, CardFile)> {
    files.map_values(|f: CardFile| (t, f))
}

/// Every card file with the tier of its root, roots taken in `order`.
pub open spec fn merge_pairs(roots: Seq<Root>, scans: Seq<Vec<CardFile>>, order: Seq<int>) -> Seq<(Tier, CardFile)>
    decreases order.len(),
{
    if order.len() == 0 {
        Seq::empty()
    } else {
        merge_pairs(roots, scans, order.drop_last()) + tagged(roots[order.last()].tier, scan_at(scans, order.last()))
    }
}

/// The entries (in the order first seen) and diagnostics after merging `pairs` one by one;
/// `orphs[i]` is the orphan flag found for the card of pair `i` if it became a new entry.
pub open spec fn merge_spec(pairs: Seq<(Tier, CardFile)>, env: Env, orphs: Seq<bool>) -> (Seq<EntryV>, Seq<DiagV>)
    decreases pairs.len(),
{
    if pairs.len() == 0 {
        (Seq::empty(), Seq::empty())
    } else {
        let n = pairs.len() - 1;
        let prev = merge_spec(pairs.drop_last(), env, orphs);
        merge_step(prev.0, prev.1, pairs[n].0, pairs[n].1, env, orphs[n])
    }
}

/// `c` is the catalog of the card files in `scans` (one list per root of `options`), merged
/// in root order with orphan flags `orphs`: each merged entry's flag agrees with the probe,
/// the diagnostics are those of the merge in order, and the entries are the merged ones that
/// are kept, sorted by name.
pub open spec fn catalog_ok<F: Fn(&str) -> bool>(
    probe: F,
    p: Platform,
    options: EnumerateOptions,
    scans: Seq<Vec<CardFile>>,
    orphs: Seq<bool>,
    c: Catalog,
) -> bool {
    let pairs = merge_pairs(options.roots@, scans, root_order(options.roots@));
    let m = merge_spec(pairs, options.lookup, orphs);
    &&& forall|k: int|
        0 <= k < m.0.len() ==> orphan_ok(probe, p, options.lookup, (#[trigger] m.0[k]).expanded, m.0[k].orphaned)
    &&& diags_view(c.diagnostics@) == m.1
    &&& by_name(entries_view(c.entries@))
    &&& entries_view(c.entries@).to_multiset() == kept(m.0, options.include_orphaned).to_multiset()
}

proof fn lemma_root_order_bounds(roots: Seq<Root>)
    ensures
        forall|k: int| 0 <= k < root_order(roots).len() ==> 0 <= #[trigger] root_order(roots)[k] < roots.len(),
{
    lemma_ranked_bounds(roots, 3);
    lemma_ranked_bounds(roots, 2);
    lemma_ranked_bounds(roots, 1);
    lemma_ranked_bounds(roots, 0);
    let a = ranked(roots, 3);
    let b = ranked(roots, 2);
    let c = ranked(roots, 1);
    let d = ranked(roots, 0);
    assert forall|k: int| 0 <= k < root_order(roots).len() implies 0 <= #[trigger] root_order(roots)[k] < roots.len() by {
        if k < a.len() {
            assert(root_order(roots)[k] == a[k]);
        } else if k < a.len() + b.len() {
            assert(root_order(roots)[k] == b[k - a.len()]);
        } else if k < a.len() + b.len() + c.len() {
            assert(root_order(roots)[k] == c[k - a.len() - b.len()]);
        } else {
            assert(root_order(roots)[k] == d[k - a.len() - b.len() - c.len()]);
        }
    }
}

proof fn lemma_merge_orphs(pairs: Seq<(Tier, CardFile)>, env: Env, a: Seq<bool>, b: Seq<bool>)
    requires
        a.len() >= pairs.len(),
        b.len() >= pairs.len(),
        forall|i: int| 0 <= i < pairs.len() ==> a[i] == b[i],
    ensures
        merge_spec(pairs, env, a) == merge_spec(pairs, env, b),
    decreases pairs.len(),
{
    if pairs.len() > 0 {
        lemma_merge_orphs(pairs.drop_last(), env, a, b);
    }
}

proof fn lemma_first_named_none(s: Seq<EntryV>, name: Seq<char>, from: int)
    requires
        0 <= from,
        first_named(s, name, from) is None,
    ensures
        forall|i: int| from <= i < s.len() ==> (#[trigger] s[i]).name != name,
    decreases s.len() - from,
{
    if from < s.len() {
        lemma_first_named_none(s, name, from + 1);
    }
}

proof fn lemma_step_distinct(entries: Seq<EntryV>, diags: Seq<DiagV>, tier: Tier, file: CardFile, env: Env, orphaned: bool)
    requires
        distinct_names(entries),
    ensures
        distinct_names(merge_step(entries, diags, tier, file, env, orphaned).0),
{
    match parse_spec(file.path@, file.file_name@, content_view(file.content), env) {
        ParseV::Rejected(d) => {},
        ParseV::Accepted(e) => {
            let name = str_member(e, "name"@);
            match first_named(entries, name, 0) {
                Some(k) => {
                    lemma_first_named_found(entries, name, 0);
                    let t = merge_step(entries, diags, tier, file, env, orphaned).0;
                    assert forall|i: int, j: int| 0 <= i < j < t.len() implies (#[trigger] t[i]).name != (
                    #[trigger] t[j]).name by {
                        assert(t[i].name == entries[i].name);
                        assert(t[j].name == entries[j].name);
                    }
                },
                None => {
                    lemma_first_named_none(entries, name, 0);
                    let t = merge_step(entries, diags, tier, file, env, orphaned).0;
                    assert forall|i: int, j: int| 0 <= i < j < t.len() implies (#[trigger] t[i]).name != (
                    #[trigger] t[j]).name by {
                        if j < entries.len() {
                            assert(t[i] == entries[i] && t[j] == entries[j]);
                        } else {
                            assert(t[i] == entries[i]);
                        }
                    }
                },
            }
        },
    }
}

/// Merge every registry tier into one catalog. `scans[i]` holds the card files read from
/// `options.roots[i]`, in file-name order (a root with no list had none). Nothing is launched
/// and nothing is written; `probe` only says whether a file exists.
///
/// Roots are merged highest rank first and, within a rank, in the order given. The first card
/// seen for a name wins; a later one of the same name is recorded as shadowed. Entries come
/// out sorted by name; orphaned ones are dropped unless `include_orphaned` asks for them.
pub fn enumerate<F: Fn(&str) -> bool>(
    options: &EnumerateOptions,
    scans: &Vec<Vec<CardFile>>,
    p: Platform,
    probe: &F,
) -> (r: Catalog)
    requires
        forall|x: &str| probe.requires((x,)),
    ensures
        exists|orphs: Seq<bool>| #[trigger] catalog_ok(*probe, p, *options, scans@, orphs, r),
        cards_ok(r.entries@),
{
    let ghost roots = options.roots@;
    let ghost ro = root_order(roots);
    let ghost env = options.lookup;
    let order = order_roots(&options.roots);
    proof {
        lemma_root_order_bounds(roots);
    }
    let mut entries: Vec<Entry> = Vec::new();
    let mut diagnostics: Vec<Diagnostic> = Vec::new();
    let ghost mut orphs: Seq<bool> = Seq::empty();
    assert(entries_view(entries@) =~= Seq::<EntryV>::empty());
    assert(diags_view(diagnostics@) =~= Seq::<DiagV>::empty());
    assert(ro.take(0) =~= Seq::<int>::empty());
    let mut o: usize = 0;
    while o < order.len()
        invariant
            roots == options.roots@,
            ro == root_order(roots),
            env == options.lookup,
            order@.len() == ro.len(),
            forall|k: int| 0 <= k < order@.len() ==> order@[k] as int == #[trigger] ro[k],
            forall|k: int| 0 <= k < ro.len() ==> 0 <= #[trigger] ro[k] < roots.len(),
            o <= order@.len(),
            forall|x: &str| probe.requires((x,)),
            orphs.len() == merge_pairs(roots, scans@, ro.take(o as int)).len(),
            entries_view(entries@) == merge_spec(merge_pairs(roots, scans@, ro.take(o as int)), env, orphs).0,
            diags_view(diagnostics@) == merge_spec(merge_pairs(roots, scans@, ro.take(o as int)), env, orphs).1,
            entries_ok(*probe, p, env, entries@),
            distinct_names(entries_view(entries@)),
        decreases order@.len() - o,
    {
        let ghost base = merge_pairs(roots, scans@, ro.take(o as int));
        let idx = order[o];
        assert(idx as int == ro[o as int]);
        let tier = options.roots[idx].tier;
        proof {
            assert(ro.take(o + 1).drop_last() =~= ro.take(o as int));
            assert(ro.take(o + 1).last() == ro[o as int]);
            assert(merge_pairs(roots, scans@, ro.take(o + 1)) == base + tagged(tier, scan_at(scans@, idx as int)));
        }
        if idx < scans.len() {
            let files = &scans[idx];
            assert(scan_at(scans@, idx as int) == files@);
            let mut j: usize = 0;
            assert(base + tagged(tier, files@.take(0)) =~= base);
            while j < files.len()
                invariant
                    j <= files@.len(),
                    env == options.lookup,
                    forall|x: &str| probe.requires((x,)),
                    orphs.len() == (base + tagged(tier, files@.take(j as int))).len(),
                    entries_view(entries@) == merge_spec(base + tagged(tier, files@.take(j as int)), env, orphs).0,
                    diags_view(diagnostics@) == merge_spec(base + tagged(tier, files@.take(j as int)), env, orphs).1,
                    entries_ok(*probe, p, env, entries@),
                    distinct_names(entries_view(entries@)),
                decreases files@.len() - j,
            {
                let ghost cur = base + tagged(tier, files@.take(j as int));
                let ghost ev = entries_view(entries@);
                let ghost dv = diags_view(diagnostics@);
                let g = merge_file(&mut entries, &mut diagnostics, tier, &files[j], &options.lookup, p, probe);
                proof {
                    lemma_step_distinct(ev, dv, tier, files@[j as int], env, g@);
                    let next_orphs = orphs.push(g@);
                    let next = base + tagged(tier, files@.take(j + 1));
                    assert(next =~= cur.push((tier, files@[j as int])));
                    assert(next.drop_last() =~= cur);
                    lemma_merge_orphs(cur, env, orphs, next_orphs);
                    orphs = next_orphs;
                }
                j = j + 1;
            }
            assert(files@.take(files@.len() as int) =~= files@);
        } else {
            assert(tagged(tier, scan_at(scans@, idx as int)) =~= Seq::<(Tier, CardFile)>::empty());
            assert(base + tagged(tier, scan_at(scans@, idx as int)) =~= base);
        }
        o = o + 1;
    }
    assert(ro.take(order@.len() as int) =~= ro);
    let ghost m = merge_spec(merge_pairs(roots, scans@, ro), env, orphs);
    let ghost merged = entries@;
    proof {
        assert forall|i: int| 0 <= i < merged.len() implies card_is(#[trigger] merged[i].card, merged[i].expanded@) by {
            assert(card_is(merged[i].card, merged[i].expanded@));
        }
        assert forall|k: int| 0 <= k < m.0.len() implies orphan_ok(*probe, p, env, (#[trigger] m.0[k]).expanded, m.0[k].orphaned) by {
            assert(m.0[k] == merged[k]@);
            assert(card_is(merged[k].card, merged[k].expanded@));
        }
    }
    let sorted = sort_entries(entries, options.include_orphaned);
    let r = Catalog { entries: sorted, diagnostics };
    assert(catalog_ok(*probe, p, *options, scans@, orphs, r));
    r
}

// ---------------------------------------------------------------------------------------------
// Reading a registry directory
// ---------------------------------------------------------------------------------------------

/// Whether a directory entry is a card file: its name ends in `.card.json`.
pub open spec fn is_card_file(name: Seq<char>) -> bool {
    CARD_SUFFIX@.len() <= name.len() && name.subrange(name.len() - CARD_SUFFIX@.len(), name.len() as int)
        == CARD_SUFFIX@
}

/// The card files among `names`, in order.
pub open spec fn card_files_only(names: Seq<Seq<char>>) -> Seq<Seq<char>>
    decreases names.len(),
{
    if names.len() == 0 {
        names
    } else if is_card_file(names.last()) {
        card_files_only(names.drop_last()).push(names.last())
    } else {
        card_files_only(names.drop_last())
    }
}

/// Names in non-decreasing order.
pub open spec fn sorted_names_le(s: Seq<Seq<char>>) -> bool {
    forall|i: int, j: int| 0 <= i < j < s.len() ==> #[trigger] s[i] == #[trigger] s[j] || chars_lt(s[i], s[j])
}

proof fn lemma_insert_sorted_le(s: Seq<Seq<char>>, pos: int, x: Seq<char>)
    requires
        sorted_names_le(s),
        0 <= pos <= s.len(),
        forall|k: int| 0 <= k < pos ==> chars_lt(#[trigger] s[k], x),
        forall|k: int| pos <= k < s.len() ==> x == #[trigger] s[k] || chars_lt(x, s[k]),
    ensures
        sorted_names_le(s.insert(pos, x)),
{
    let t = s.insert(pos, x);
    assert forall|i: int, j: int| 0 <= i < j < t.len() implies #[trigger] t[i] == #[trigger] t[j] || chars_lt(t[i], t[j]) by {
        if j < pos {
            assert(t[i] == s[i] && t[j] == s[j]);
        } else if j == pos {
            assert(t[i] == s[i] && t[j] == x);
        } else if i < pos {
            assert(t[i] == s[i] && t[j] == s[j - 1]);
        } else if i == pos {
            assert(t[i] == x && t[j] == s[j - 1]);
        } else {
            assert(t[i] == s[i - 1] && t[j] == s[j - 1]);
        }
    }
}

fn name_position(sorted: &Vec<String>, name: &str) -> (pos: usize)
    ensures
        pos <= sorted@.len(),
        forall|k: int| 0 <= k < pos ==> chars_lt(#[trigger] string_views(sorted@)[k], name@),
        pos < sorted@.len() ==> !chars_lt(string_views(sorted@)[pos as int], name@),
{
    let mut i: usize = 0;
    while i < sorted.len()
        invariant
            i <= sorted@.len(),
            forall|k: int| 0 <= k < i ==> chars_lt(#[trigger] string_views(sorted@)[k], name@),
        decreases sorted@.len() - i,
    {
        if !crate::consent::chars_less(sorted[i].as_str(), name) {
            return i;
        }
        i = i + 1;
    }
    i
}

/// The card files among the names of a directory's entries, sorted.
pub fn card_file_names(names: Vec<String>) -> (r: Vec<String>)
    ensures
        sorted_names_le(string_views(r@)),
        string_views(r@).to_multiset() == card_files_only(string_views(names@)).to_multiset(),
{
    broadcast use vstd::multiset::group_multiset_axioms;

    let ghost nv = string_views(names@);
    let ghost total = card_files_only(nv).to_multiset();
    let mut rest = names;
    let mut sorted: Vec<String> = Vec::new();
    assert(nv.take(nv.len() as int) =~= nv);
    proof {
        vstd::seq_lib::to_multiset_len(string_views(sorted@));
        vstd::multiset::lemma_multiset_empty_len(string_views(sorted@).to_multiset());
    }
    while rest.len() > 0
        invariant
            string_views(rest@) == nv.take(rest@.len() as int),
            rest@.len() <= nv.len(),
            total == card_files_only(nv).to_multiset(),
            string_views(sorted@).to_multiset().add(card_files_only(string_views(rest@)).to_multiset()) == total,
            sorted_names_le(string_views(sorted@)),
        decreases rest@.len(),
    {
        let ghost rv = string_views(rest@);
        let ghost sv = string_views(sorted@);
        let x = rest.pop().unwrap();
        assert(string_views(rest@) =~= rv.drop_last());
        assert(rv =~= rv.drop_last().push(x@));
        assert(rv.drop_last() =~= nv.take(rest@.len() as int));
        if ends_with(x.as_str(), CARD_SUFFIX) {
            assert(card_files_only(rv) == card_files_only(rv.drop_last()).push(x@));
            let pos = name_position(&sorted, x.as_str());
            proof {
                if pos < sv.len() {
                    crate::consent::lemma_chars_lt_total(sv[pos as int], x@);
                    assert forall|k: int| pos <= k < sv.len() implies x@ == #[trigger] sv[k] || chars_lt(x@, sv[k]) by {
                        if k > pos {
                            assert(sv[pos as int] == sv[k] || chars_lt(sv[pos as int], sv[k]));
                            if x@ != sv[pos as int] && sv[pos as int] != sv[k] {
                                crate::consent::lemma_chars_lt_transitive(x@, sv[pos as int], sv[k]);
                            }
                        }
                    }
                }
                lemma_insert_sorted_le(sv, pos as int, x@);
            }
            sorted.insert(pos, x);
            proof {
                assert(string_views(sorted@) =~= sv.insert(pos as int, x@));
                vstd::seq_lib::to_multiset_insert(sv, pos as int, x@);
                vstd::seq_lib::to_multiset_build(card_files_only(rv.drop_last()), x@);
                assert(string_views(sorted@).to_multiset().add(card_files_only(string_views(rest@)).to_multiset())
                    =~= total);
            }
        } else {
            assert(card_files_only(rv) == card_files_only(rv.drop_last()));
        }
    }
    assert(string_views(rest@) =~= Seq::<Seq<char>>::empty());
    proof {
        vstd::seq_lib::to_multiset_len(card_files_only(string_views(rest@)));
        vstd::multiset::lemma_multiset_empty_len(card_files_only(string_views(rest@)).to_multiset());
    }
    assert(string_views(sorted@).to_multiset() =~= total);
    sorted
}

/// A text without its leading UTF-8 byte-order mark, if it has one.
pub open spec fn without_bom(t: Seq<char>) -> Seq<char> {
    if t.len() > 0 && t[0] == '\u{feff}' {
        t.drop_first()
    } else {
        t
    }
}

/// A leading byte-order mark is accepted and ignored: a card text with one in front is read as
/// the same text without it.
pub proof fn law_bom_is_ignored(t: Seq<char>)
    requires
        !(t.len() > 0 && t[0] == '\u{feff}'),
    ensures
        without_bom(seq!['\u{feff}'] + t) == without_bom(t),
        without_bom(t) == t,
{
    assert((seq!['\u{feff}'] + t).drop_first() =~= t);
}

/// The text of a card file without a leading UTF-8 byte-order mark.
pub fn strip_bom(text: &str) -> (r: String)
    ensures
        r@ == without_bom(text@),
{
    let cs = chars_of(text);
    if cs.len() > 0 && cs[0] == '\u{feff}' {
        let mut out: Vec<char> = Vec::new();
        let mut i: usize = 1;
        while i < cs.len()
            invariant
                1 <= i <= cs@.len(),
                out@ == cs@.subrange(1, i as int),
            decreases cs@.len() - i,
        {
            out.push(cs[i]);
            assert(out@ =~= cs@.subrange(1, i + 1));
            i = i + 1;
        }
        assert(out@ =~= cs@.drop_first());
        crate::text::string_from_chars(out.as_slice())
    } else {
        owned(text)
    }
}

proof fn lemma_present_only_contains(s: Seq<EntryV>, e: EntryV)
    requires
        present_only(s).contains(e),
    ensures
        s.contains(e),
        !e.orphaned,
    decreases s.len(),
{
    if s.len() > 0 {
        let t = s.drop_last();
        if s.last().orphaned {
            lemma_present_only_contains(t, e);
        } else if e != s.last() {
            let k = choose|k: int| 0 <= k < present_only(s).len() && present_only(s)[k] == e;
            assert(k < present_only(t).len());
            assert(present_only(t)[k] == e);
            lemma_present_only_contains(t, e);
        }
        if t.contains(e) {
            let k = choose|k: int| 0 <= k < t.len() && t[k] == e;
            assert(s[k] == e);
        } else {
            assert(s[s.len() - 1] == e);
        }
    }
}

proof fn lemma_present_only_by_name(s: Seq<EntryV>)
    requires
        by_name(s),
    ensures
        by_name(present_only(s)),
    decreases s.len(),
{
    if s.len() > 0 {
        let t = s.drop_last();
        assert(by_name(t)) by {
            assert forall|i: int, j: int| 0 <= i < j < t.len() implies chars_lt(#[trigger] t[i].name, #[trigger] t[j].name) by {
                assert(t[i] == s[i] && t[j] == s[j]);
            }
        }
        lemma_present_only_by_name(t);
        if !s.last().orphaned {
            let pt = present_only(t);
            let q = present_only(s);
            assert forall|i: int, j: int| 0 <= i < j < q.len() implies chars_lt(#[trigger] q[i].name, #[trigger] q[j].name) by {
                if j < pt.len() {
                    assert(q[i] == pt[i] && q[j] == pt[j]);
                } else {
                    assert(q[i] == pt[i]);
                    assert(pt.contains(pt[i]));
                    lemma_present_only_contains(t, pt[i]);
                    let k = choose|k: int| 0 <= k < t.len() && t[k] == pt[i];
                    assert(s[k] == pt[i]);
                    assert(q[j] == s[s.len() - 1]);
                }
            }
        }
    }
}

proof fn lemma_present_only_count(s: Seq<EntryV>, e: EntryV)
    ensures
        present_only(s).to_multiset().count(e) == if e.orphaned {
            0
        } else {
            s.to_multiset().count(e)
        },
    decreases s.len(),
{
    broadcast use vstd::seq_lib::group_to_multiset_ensures;
    broadcast use vstd::multiset::group_multiset_axioms;

    if s.len() == 0 {
        assert(s.to_multiset() =~= vstd::multiset::Multiset::<EntryV>::empty());
    } else {
        let t = s.drop_last();
        lemma_present_only_count(t, e);
        assert(s =~= t.push(s.last()));
    }
}

proof fn lemma_by_name_unique(x: Seq<EntryV>, y: Seq<EntryV>)
    requires
        by_name(x),
        by_name(y),
        x.to_multiset() == y.to_multiset(),
    ensures
        x == y,
    decreases x.len(),
{
    broadcast use vstd::seq_lib::group_to_multiset_ensures;
    broadcast use vstd::multiset::group_multiset_axioms;

    vstd::seq_lib::to_multiset_len(x);
    vstd::seq_lib::to_multiset_len(y);
    assert(x.len() == y.len());
    if x.len() == 0 {
        assert(x =~= y);
    } else {
        let n = x.len() - 1;
        let a = x[n];
        let b = y[n];
        assert(x.contains(a));
        assert(y.to_multiset().count(a) > 0);
        assert(y.contains(a));
        assert(x.to_multiset().count(b) > 0);
        assert(x.contains(b));
        if a != b {
            let j = choose|j: int| 0 <= j < y.len() && y[j] == a;
            let k = choose|k: int| 0 <= k < x.len() && x[k] == b;
            assert(j != n && k != n);
            assert(chars_lt(a.name, b.name));
            assert(chars_lt(b.name, a.name));
            crate::consent::lemma_chars_lt_transitive(a.name, b.name, a.name);
            crate::consent::lemma_chars_lt_irreflexive(a.name);
        }
        let xt = x.drop_last();
        let yt = y.drop_last();
        assert(x =~= xt.push(a));
        assert(y =~= yt.push(a));
        vstd::seq_lib::to_multiset_build(xt, a);
        vstd::seq_lib::to_multiset_build(yt, a);
        assert(xt.to_multiset() =~= yt.to_multiset()) by {
            assert forall|v: EntryV| xt.to_multiset().count(v) == yt.to_multiset().count(v) by {
                assert(x.to_multiset() == xt.to_multiset().insert(a));
                assert(y.to_multiset() == yt.to_multiset().insert(a));
                assert(xt.to_multiset().insert(a).count(v) == yt.to_multiset().insert(a).count(v));
                if v == a {
                    assert(xt.to_multiset().insert(a).count(v) == xt.to_multiset().count(v) + 1);
                    assert(yt.to_multiset().insert(a).count(v) == yt.to_multiset().count(v) + 1);
                } else {
                    assert(xt.to_multiset().insert(a).count(v) == xt.to_multiset().count(v));
                    assert(yt.to_multiset().insert(a).count(v) == yt.to_multiset().count(v));
                }
            }
        }
        assert(by_name(xt)) by {
            assert forall|i: int, j: int| 0 <= i < j < xt.len() implies chars_lt(#[trigger] xt[i].name, #[trigger] xt[j].name) by {
                assert(xt[i] == x[i] && xt[j] == x[j]);
            }
        }
        assert(by_name(yt)) by {
            assert forall|i: int, j: int| 0 <= i < j < yt.len() implies chars_lt(#[trigger] yt[i].name, #[trigger] yt[j].name) by {
                assert(yt[i] == y[i] && yt[j] == y[j]);
            }
        }
        lemma_by_name_unique(xt, yt);
    }
}

/// Hiding orphans only filters: with the same roots, lookup, files and probe answers, a
/// catalog without orphaned entries is the catalog with them, its orphaned entries taken out
/// and the rest in the same order, and both report the same diagnostics.
pub proof fn law_orphans_hidden_unless_requested<F: Fn(&str) -> bool>(
    probe: F,
    p: Platform,
    with: EnumerateOptions,
    without: EnumerateOptions,
    scans: Seq<Vec<CardFile>>,
    orphs: Seq<bool>,
    a: Catalog,
    b: Catalog,
)
    requires
        with.roots@ == without.roots@,
        with.lookup == without.lookup,
        with.include_orphaned,
        !without.include_orphaned,
        catalog_ok(probe, p, with, scans, orphs, a),
        catalog_ok(probe, p, without, scans, orphs, b),
    ensures
        entries_view(b.entries@) == present_only(entries_view(a.entries@)),
        diags_view(b.diagnostics@) == diags_view(a.diagnostics@),
{
    let m = merge_spec(merge_pairs(with.roots@, scans, root_order(with.roots@)), with.lookup, orphs).0;
    let av = entries_view(a.entries@);
    let bv = entries_view(b.entries@);
    let c = present_only(av);
    lemma_present_only_by_name(av);
    assert(c.to_multiset() =~= bv.to_multiset()) by {
        assert forall|e: EntryV| c.to_multiset().count(e) == bv.to_multiset().count(e) by {
            lemma_present_only_count(av, e);
            lemma_present_only_count(m, e);
        }
    }
    lemma_by_name_unique(c, bv);
}

} // verus!
