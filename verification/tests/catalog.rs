//! Resolving launch commands and merging registry tiers into a catalog.

use mcp_locator::card::DiagnosticCode;
use mcp_locator::catalog::{
    card_file_names, enumerate, parse_card_file, resolve_command, strip_bom, CardContent, CardFile, EnumerateOptions,
};
use mcp_locator::dirs::{Platform, Root, Tier};
use mcp_locator::env::Env;
use mcp_locator::json::Json;
use std::cell::RefCell;

/// A program every machine of this platform has, referred to by bare name.
const WELL_KNOWN: &str = "sh";

fn s(v: &str) -> Json {
    Json::String(v.to_string())
}

fn obj(members: Vec<(&str, Json)>) -> Json {
    Json::Object(members.into_iter().map(|(k, v)| (k.to_string(), v)).collect())
}

fn env(pairs: &[(&str, &str)]) -> Env {
    Env::from_pairs(pairs.iter().map(|(k, v)| (k.to_string(), v.to_string())).collect())
}

/// A file system that has exactly these files.
fn files(present: &'static [&'static str]) -> impl Fn(&str) -> bool {
    move |path: &str| present.contains(&path)
}

fn card(name: &str, version: &str, command: &str) -> Json {
    obj(vec![
        ("name", s(name)),
        ("version", s(version)),
        ("description", s("fixture")),
        ("local", obj(vec![("launch", obj(vec![("type", s("stdio")), ("command", s(command))]))])),
    ])
}

fn file(dir: &str, name: &str, content: CardContent) -> CardFile {
    CardFile { path: format!("{dir}/{name}"), file_name: name.to_string(), content }
}

fn parsed(dir: &str, name: &str, version: &str, command: &str) -> CardFile {
    file(dir, &format!("{name}.card.json"), CardContent::Parsed(card(name, version, command)))
}

fn root(tier: Tier, path: &str) -> Root {
    Root { tier, path: path.to_string() }
}

#[test]
fn a_bare_command_is_resolved_through_path() {
    let lookup = env(&[("PATH", "/usr/local/bin:/usr/bin:/bin")]);
    let probe = files(&["/bin/sh"]);
    assert!(resolve_command(WELL_KNOWN, &lookup, Platform::Unix, &probe).is_some());
    assert!(resolve_command("mcp-locator-definitely-not-installed", &lookup, Platform::Unix, &probe).is_none());
}

#[test]
fn a_command_with_a_separator_is_a_path_and_is_never_searched() {
    let lookup = env(&[("PATH", "/usr/bin:/bin")]);
    let asked = RefCell::new(Vec::new());
    let probe = |path: &str| {
        asked.borrow_mut().push(path.to_string());
        path == "/bin/sh"
    };
    let relative = format!("./{WELL_KNOWN}");
    assert!(resolve_command(&relative, &lookup, Platform::Unix, &probe).is_none());
    assert_eq!(*asked.borrow(), vec!["./sh".to_string()]);
}

#[test]
fn path_comes_from_the_supplied_lookup_not_the_process() {
    let empty = env(&[("PATH", "")]);
    let probe = files(&["/bin/sh", "/usr/bin/sh"]);
    assert!(resolve_command(WELL_KNOWN, &empty, Platform::Unix, &probe).is_none());
}

#[test]
fn the_first_path_directory_with_the_command_wins() {
    let lookup = env(&[("PATH", "/opt/a::/opt/b:/opt/c")]);
    let probe = files(&["/opt/b/tool", "/opt/c/tool"]);
    assert_eq!(resolve_command("tool", &lookup, Platform::Unix, &probe), Some("/opt/b/tool".to_string()));
}

#[test]
fn windows_tries_each_pathext_suffix() {
    let lookup = env(&[("Path", "C:\\tools;C:\\bin"), ("PATHEXT", ".EXE;.CMD")]);
    let probe = files(&["C:\\bin\\node.CMD", "C:\\bin\\node.EXE"]);
    assert_eq!(resolve_command("node", &lookup, Platform::Windows, &probe), Some("C:\\bin\\node.EXE".to_string()));
    let backslash = files(&["C:\\tools\\x.exe"]);
    assert_eq!(
        resolve_command("C:\\tools\\x.exe", &lookup, Platform::Windows, &backslash),
        Some("C:\\tools\\x.exe".to_string())
    );
}

#[test]
fn higher_tier_shadows_lower() {
    let options = EnumerateOptions {
        roots: vec![root(Tier::User, "/u"), root(Tier::System, "/s")],
        lookup: env(&[("PATH", "/bin")]),
        include_orphaned: true,
    };
    let scans = vec![
        vec![parsed("/u", "com.example.shadowed", "1.0.0", "/bin/user-server")],
        vec![parsed("/s", "com.example.shadowed", "2.0.0", "/bin/system-server")],
    ];
    let catalog = enumerate(&options, &scans, Platform::Unix, &files(&["/bin/user-server", "/bin/system-server"]));
    let entry = catalog.entries.iter().find(|e| e.name == "com.example.shadowed").expect("shadowed entry must be present");
    assert_eq!(entry.version, "2.0.0", "system-tier card must win");
    assert_eq!(entry.tier, Tier::System);
    assert_eq!(entry.shadowed.len(), 1);
    assert_eq!(entry.shadowed[0].tier, Tier::User);
    assert_eq!(entry.shadowed[0].path, "/u/com.example.shadowed.card.json");
    assert_eq!(catalog.diagnostics.len(), 1);
    assert_eq!(catalog.diagnostics[0].code, DiagnosticCode::Shadowed);
    assert_eq!(catalog.diagnostics[0].message, "shadowed by System tier card at /s/com.example.shadowed.card.json");
    assert_eq!(catalog.diagnostics[0].name.as_deref(), Some("com.example.shadowed"));
}

#[test]
fn within_a_tier_the_earlier_root_wins() {
    let options = EnumerateOptions {
        roots: vec![root(Tier::System, "/first"), root(Tier::System, "/second")],
        lookup: env(&[]),
        include_orphaned: true,
    };
    let scans = vec![
        vec![parsed("/first", "a.b", "1", "/x")],
        vec![parsed("/second", "a.b", "2", "/x")],
    ];
    let catalog = enumerate(&options, &scans, Platform::Unix, &files(&["/x"]));
    assert_eq!(catalog.entries.len(), 1);
    assert_eq!(catalog.entries[0].version, "1");
    assert_eq!(catalog.entries[0].path, "/first/a.b.card.json");
}

#[test]
fn orphaned_cards_are_hidden_unless_requested() {
    let scans = vec![vec![parsed("/u", "com.example.gone", "1", "/not/here"), parsed("/u", "com.example.here", "1", "/bin/here")]];
    let probe = files(&["/bin/here"]);
    let visible = enumerate(
        &EnumerateOptions { roots: vec![root(Tier::User, "/u")], lookup: env(&[]), include_orphaned: false },
        &scans,
        Platform::Unix,
        &probe,
    );
    let names: Vec<&str> = visible.entries.iter().map(|e| e.name.as_str()).collect();
    assert_eq!(names, vec!["com.example.here"]);
    let all = enumerate(
        &EnumerateOptions { roots: vec![root(Tier::User, "/u")], lookup: env(&[]), include_orphaned: true },
        &scans,
        Platform::Unix,
        &probe,
    );
    let names: Vec<(&str, bool)> = all.entries.iter().map(|e| (e.name.as_str(), e.orphaned)).collect();
    assert_eq!(names, vec![("com.example.gone", true), ("com.example.here", false)]);
}

#[test]
fn a_malformed_card_does_not_blank_the_catalog() {
    let scans = vec![vec![
        file("/u", "bad.card.json", CardContent::Malformed("expected value at line 1 column 1".to_string())),
        file("/u", "worse.card.json", CardContent::Unreadable("permission denied".to_string())),
        parsed("/u", "com.example.good", "1", "/bin/good"),
    ]];
    let catalog = enumerate(
        &EnumerateOptions { roots: vec![root(Tier::User, "/u")], lookup: env(&[]), include_orphaned: true },
        &scans,
        Platform::Unix,
        &files(&["/bin/good"]),
    );
    assert_eq!(catalog.entries.len(), 1);
    let codes: Vec<DiagnosticCode> = catalog.diagnostics.iter().map(|d| d.code).collect();
    assert_eq!(codes, vec![DiagnosticCode::MalformedJson, DiagnosticCode::Unreadable]);
    assert_eq!(catalog.diagnostics[1].message, "permission denied");
}

#[test]
fn missing_registry_directories_are_not_an_error() {
    let catalog = enumerate(
        &EnumerateOptions {
            roots: vec![root(Tier::User, "/does-not-exist"), root(Tier::System, "/also-missing")],
            lookup: env(&[]),
            include_orphaned: true,
        },
        &vec![],
        Platform::Unix,
        &files(&[]),
    );
    assert!(catalog.entries.is_empty());
    assert!(catalog.diagnostics.is_empty());
}

#[test]
fn entries_come_out_sorted_by_name() {
    let scans = vec![vec![parsed("/u", "c.c", "1", "/x"), parsed("/u", "a.a", "1", "/x"), parsed("/u", "b.b", "1", "/x")]];
    let catalog = enumerate(
        &EnumerateOptions { roots: vec![root(Tier::User, "/u")], lookup: env(&[]), include_orphaned: true },
        &scans,
        Platform::Unix,
        &files(&["/x"]),
    );
    let names: Vec<&str> = catalog.entries.iter().map(|e| e.name.as_str()).collect();
    assert_eq!(names, vec!["a.a", "b.b", "c.c"]);
}

#[test]
fn a_file_name_must_match_the_card_name() {
    let f = file("/u", "other.card.json", CardContent::Parsed(card("com.example.app", "1", "/x")));
    let d = parse_card_file(&f, &env(&[])).unwrap_err();
    assert_eq!(d.code, DiagnosticCode::FilenameMismatch);
    assert_eq!(d.message, "expected com.example.app.card.json, found other.card.json");
    assert_eq!(d.name.as_deref(), Some("com.example.app"));
}

#[test]
fn an_invalid_card_names_itself_when_it_can() {
    let f = file("/u", "x.card.json", CardContent::Parsed(obj(vec![("name", s("com.example.x")), ("version", s("1"))])));
    let d = parse_card_file(&f, &env(&[])).unwrap_err();
    assert_eq!(d.code, DiagnosticCode::SchemaInvalid);
    assert_eq!(d.message, "missing required field `description`");
    assert_eq!(d.name.as_deref(), Some("com.example.x"));
}

#[test]
fn cards_are_expanded_before_they_are_used() {
    let raw = card("a.b", "1", "%TOOLS%/srv");
    let f = file("/u", "a.b.card.json", CardContent::Parsed(raw));
    let (card, expanded) = parse_card_file(&f, &env(&[("TOOLS", "/opt/tools")])).unwrap();
    assert_eq!(card.local.unwrap().launch.unwrap().command, "/opt/tools/srv");
    assert_eq!(
        expanded.get("local").unwrap().get("launch").unwrap().get("command"),
        Some(&s("/opt/tools/srv"))
    );
}

#[test]
fn only_card_files_are_read_in_name_order() {
    let names = vec!["b.card.json", "notes.txt", "a.card.json", "card.json", "c.card.json.bak"]
        .into_iter()
        .map(String::from)
        .collect();
    assert_eq!(card_file_names(names), vec!["a.card.json".to_string(), "b.card.json".to_string()]);
}

#[test]
fn a_byte_order_mark_is_ignored() {
    assert_eq!(strip_bom("\u{feff}{\"a\":1}"), "{\"a\":1}");
    assert_eq!(strip_bom("{}"), "{}");
    assert_eq!(strip_bom(""), "");
}
